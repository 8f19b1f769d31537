//! The package graph: one skeleton per package name, found from the root
//! config through the dependency lists, and the assembly of each package's
//! modules and directories from the files that a scan found.

use crate::config::{
    folder_set, folders_distinct, in_package_folders, package_source_folders, Config, FolderView,
    SourceFolder,
};
use crate::namespace::{
    file_path_to_module_name, module_of, namespace_spec, resolve_namespace, same_text, suffix_spec,
    Namespace, NamespaceView,
};
use crate::paths::{get_package_path, package_path_spec, parent, parent_of, strip_prefix, strip_prefix_of};
use crate::scan::SourceFileMeta;
use ahash::{AHashMap, AHashSet};
use ahash::RandomState;
use vstd::prelude::*;
use vstd::string::*;

verus! {

#[verifier::external_type_specification]
#[verifier::external_body]
#[verifier::reject_recursive_types(K)]
#[verifier::reject_recursive_types(V)]
#[verifier::reject_recursive_types(S)]
pub struct ExAHashMap<K, V, S>(AHashMap<K, V, S>);

#[verifier::external_type_specification]
#[verifier::external_body]
#[verifier::reject_recursive_types(T)]
#[verifier::reject_recursive_types(S)]
pub struct ExAHashSet<T, S>(AHashSet<T, S>);

#[verifier::external_type_specification]
#[verifier::external_body]
pub struct ExRandomState(RandomState);

/// What a set of texts holds.
pub uninterp spec fn text_set_contents(s: AHashSet<String>) -> Set<Seq<char>>;

/// Relies on `AHashSet::new`: an empty set.
#[verifier::external_body]
fn new_text_set() -> (r: AHashSet<String>)
    ensures
        text_set_contents(r) == Set::<Seq<char>>::empty(),
{
    AHashSet::new()
}

/// Relies on `HashSet::insert`, reached through `AHashSet`'s `DerefMut`: the
/// value is in the set afterwards, and nothing else changes.
#[verifier::external_body]
fn text_set_insert(s: &mut AHashSet<String>, t: String)
    ensures
        text_set_contents(*final(s)) == text_set_contents(*old(s)).insert(t@),
{
    s.insert(t);
}

/// What a map of scanned files holds, by path.
pub uninterp spec fn file_map_contents(m: AHashMap<String, SourceFileMeta>) -> Map<Seq<char>, SourceFileMeta>;

/// Relies on `AHashMap::new`: an empty map.
#[verifier::external_body]
fn new_file_map() -> (r: AHashMap<String, SourceFileMeta>)
    ensures
        file_map_contents(r).dom() == Set::<Seq<char>>::empty(),
{
    AHashMap::new()
}

/// Relies on `AHashMap::insert`, which inserts into the `HashMap` it wraps.
#[verifier::external_body]
fn file_map_insert(m: &mut AHashMap<String, SourceFileMeta>, k: String, v: SourceFileMeta)
    ensures
        file_map_contents(*final(m)) == file_map_contents(*old(m)).insert(k@, v),
{
    m.insert(k, v);
}

/// What a map of packages holds, by name.
pub uninterp spec fn package_map_contents(m: AHashMap<String, Package>) -> Map<Seq<char>, Package>;

/// Relies on `AHashMap::new`: an empty map.
#[verifier::external_body]
fn new_package_map() -> (r: AHashMap<String, Package>)
    ensures
        package_map_contents(r).dom() == Set::<Seq<char>>::empty(),
{
    AHashMap::new()
}

/// Relies on `AHashMap::insert`, which inserts into the `HashMap` it wraps:
/// the key now maps to the value, the other keys are untouched.
#[verifier::external_body]
fn package_map_insert(m: &mut AHashMap<String, Package>, k: String, v: Package)
    ensures
        package_map_contents(*final(m)) == package_map_contents(*old(m)).insert(k@, v),
{
    m.insert(k, v);
}

/// One node of the dependency graph.
pub struct Package {
    pub name: String,
    pub bsconfig: Config,
    pub source_folders: Vec<SourceFolder>,
    /// The source files found by the scan, by absolute path.
    pub source_files: Option<AHashMap<String, SourceFileMeta>>,
    pub namespace: Namespace,
    pub modules: Option<AHashSet<String>>,
    pub package_dir: String,
    /// The directories, relative to `package_dir`, that hold a source file.
    pub dirs: Option<AHashSet<String>>,
    pub is_pinned_dep: bool,
}

/// `p` is the skeleton that the config `config`, read at `dir`, gives: its
/// name, namespace and declared folders, with nothing scanned yet.
pub open spec fn is_skeleton(p: Package, config: Config, dir: Seq<char>, pinned: bool) -> bool {
    &&& p.name@ == config.name@
    &&& p.bsconfig == config
    &&& p.package_dir@ == dir
    &&& p.is_pinned_dep == pinned
    &&& p.namespace@ == namespace_spec(config.name@, config.namespace, config.namespace_entry)
    &&& folders_distinct(p.source_folders@)
    &&& forall|f: FolderView| #[trigger]
        folder_set(p.source_folders@).contains(f) <==> in_package_folders(dir, config.sources, f)
    &&& p.source_files is None
    &&& p.modules is None
    &&& p.dirs is None
}

/// Builds the skeleton of the package whose config was read at
/// `package_dir`.
pub fn make_skeleton(config: Config, package_dir: &str, is_pinned_dep: bool) -> (r: Package)
    ensures
        is_skeleton(r, config, package_dir@, is_pinned_dep),
{
    let source_folders = package_source_folders(package_dir, &config.sources);
    let namespace = resolve_namespace(config.name.as_str(), &config.namespace, &config.namespace_entry);
    let name = config.name.clone();
    Package {
        name,
        bsconfig: config,
        source_folders,
        source_files: None,
        namespace,
        modules: None,
        package_dir: String::from_str(package_dir),
        dirs: None,
        is_pinned_dep,
    }
}

/// Whether a list of names holds `name`.
pub open spec fn names_contain(v: Seq<String>, name: Seq<char>) -> bool {
    exists|i: int| 0 <= i < v.len() && #[trigger] v[i]@ == name
}

/// Whether the config names `name` among its pinned dependencies.
pub open spec fn pins(config: Config, name: Seq<char>) -> bool {
    match config.pinned_dependencies {
        Some(v) => names_contain(v@, name),
        None => false,
    }
}

fn list_contains(v: &Vec<String>, name: &str) -> (r: bool)
    ensures
        r == names_contain(v@, name@),
{
    let mut i: usize = 0;
    while i < v.len()
        invariant
            i <= v@.len(),
            forall|j: int| 0 <= j < i ==> v@[j]@ != name@,
        decreases v.len() - i,
    {
        if same_text(v[i].as_str(), name) {
            return true;
        }
        i = i + 1;
    }
    false
}

fn pinned_by(config: &Config, name: &str) -> (r: bool)
    ensures
        r == pins(*config, name@),
{
    match &config.pinned_dependencies {
        Some(v) => list_contains(v, name),
        None => false,
    }
}

/// Whether some package of the list is named `name`.
pub open spec fn has_package(pkgs: Seq<Package>, name: Seq<char>) -> bool {
    exists|i: int| 0 <= i < pkgs.len() && #[trigger] pkgs[i].name@ == name
}

/// No two packages of the list share a name.
pub open spec fn names_distinct(pkgs: Seq<Package>) -> bool {
    forall|i: int, j: int| 0 <= i < j < pkgs.len() ==> pkgs[i].name@ != pkgs[j].name@
}

fn find_package(pkgs: &Vec<Package>, name: &str) -> (r: bool)
    ensures
        r == has_package(pkgs@, name@),
{
    let mut i: usize = 0;
    while i < pkgs.len()
        invariant
            i <= pkgs@.len(),
            forall|j: int| 0 <= j < i ==> pkgs@[j].name@ != name@,
        decreases pkgs.len() - i,
    {
        if same_text(pkgs[i].name.as_str(), name) {
            return true;
        }
        i = i + 1;
    }
    false
}


/// The dependency names that a config declares.
pub open spec fn deps_of(config: Config) -> Seq<String> {
    match config.bs_dependencies {
        Some(v) => v@,
        None => Seq::empty(),
    }
}

/// The directories to read for the dependencies `deps` that no package of
/// `pkgs` has yet, in declaration order.
pub open spec fn pending_spec(root: Seq<char>, deps: Seq<String>, pkgs: Seq<Package>) -> Seq<Seq<char>>
    decreases deps.len(),
{
    if deps.len() == 0 {
        Seq::empty()
    } else {
        let rest = pending_spec(root, deps.drop_last(), pkgs);
        if has_package(pkgs, deps.last()@) {
            rest
        } else {
            rest.push(package_path_spec(root, deps.last()@))
        }
    }
}

/// Whether the `j`th read config names a package that neither `old` nor an
/// earlier config of the batch has.
pub open spec fn is_new_child(old: Seq<Package>, children: Seq<(String, Config)>, j: int) -> bool {
    &&& !has_package(old, children[j].1.name@)
    &&& forall|k: int| 0 <= k < j ==> children[k].1.name@ != children[j].1.name@
}

/// The positions, in order, of the configs of a batch that become packages.
pub open spec fn new_children(old: Seq<Package>, children: Seq<(String, Config)>) -> Seq<int>
    decreases children.len(),
{
    if children.len() == 0 {
        Seq::empty()
    } else {
        let r = new_children(old, children.drop_last());
        if is_new_child(old, children, children.len() - 1) {
            r.push(children.len() - 1)
        } else {
            r
        }
    }
}

proof fn lemma_new_child_prefix(old: Seq<Package>, all: Seq<(String, Config)>, j: int)
    requires
        0 <= j < all.len(),
    ensures
        new_children(old, all.subrange(0, j + 1)) == if is_new_child(old, all.subrange(0, j + 1), j) {
            new_children(old, all.subrange(0, j)).push(j)
        } else {
            new_children(old, all.subrange(0, j))
        },
        is_new_child(old, all.subrange(0, j + 1), j) == (!has_package(old, all[j].1.name@) && forall|k: int|
            0 <= k < j ==> all[k].1.name@ != all[j].1.name@),
{
    let pre = all.subrange(0, j + 1);
    assert(pre.drop_last() =~= all.subrange(0, j));
    assert forall|k: int| 0 <= k <= j implies #[trigger] pre[k] == all[k] by {}
    assert(pre[j] == all[j]);
    if forall|k: int| 0 <= k < j ==> all[k].1.name@ != all[j].1.name@ {
        assert forall|k: int| 0 <= k < j implies pre[k].1.name@ != pre[j].1.name@ by {
            assert(pre[k] == all[k]);
        }
    } else {
        let k = choose|k: int| !(0 <= k < j ==> all[k].1.name@ != all[j].1.name@);
        assert(pre[k] == all[k]);
    }
}

/// The positions that `new_children` gives lie in the batch, rise strictly,
/// and are exactly the new children.
pub proof fn lemma_new_children_positions(old: Seq<Package>, children: Seq<(String, Config)>)
    ensures
        forall|t: int| 0 <= t < new_children(old, children).len() ==> 0 <= #[trigger] new_children(old, children)[t] < children.len(),
        forall|t: int, u: int| 0 <= t < u < new_children(old, children).len() ==> new_children(old, children)[t] < new_children(old, children)[u],
        forall|t: int| 0 <= t < new_children(old, children).len() ==> is_new_child(old, children, #[trigger] new_children(old, children)[t]),
    decreases children.len(),
{
    if children.len() > 0 {
        let pre = children.drop_last();
        lemma_new_children_positions(old, pre);
        assert forall|t: int| 0 <= t < new_children(old, pre).len() implies is_new_child(old, children, #[trigger] new_children(old, pre)[t]) by {
            let j = new_children(old, pre)[t];
            assert(is_new_child(old, pre, j));
            assert(pre[j] == children[j]);
            assert forall|k: int| 0 <= k < j implies children[k].1.name@ != children[j].1.name@ by {
                assert(pre[k] == children[k]);
            }
        }
    }
}

/// A config whose name the graph already has, or that an earlier config of
/// the same batch had, never becomes a package: the packages that a batch
/// adds are new and pairwise distinct in name.
pub proof fn lemma_batch_adds_only_new_names(old: Seq<Package>, children: Seq<(String, Config)>)
    ensures
        forall|t: int| 0 <= t < new_children(old, children).len() ==> !has_package(
            old,
            children[#[trigger] new_children(old, children)[t]].1.name@,
        ),
        forall|t: int, u: int| 0 <= t < u < new_children(old, children).len() ==>
            children[new_children(old, children)[t]].1.name@ != children[new_children(old, children)[u]].1.name@,
{
    lemma_new_children_positions(old, children);
    assert forall|t: int, u: int| 0 <= t < u < new_children(old, children).len() implies
        children[new_children(old, children)[t]].1.name@ != children[new_children(old, children)[u]].1.name@ by {
        assert(is_new_child(old, children, new_children(old, children)[u]));
    }
}

/// The dependency graph while it is being found: the packages so far, each
/// name once, and the positions of those whose dependencies are still to be
/// read, first in line first.
pub struct PackageGraph {
    pub project_root: String,
    pub packages: Vec<Package>,
    pub queue: Vec<usize>,
}

impl PackageGraph {
    /// Package names are unique and the queue points at packages.
    pub open spec fn wf(&self) -> bool {
        &&& names_distinct(self.packages@)
        &&& forall|i: int| 0 <= i < self.queue.len() ==> #[trigger] self.queue@[i] < self.packages.len()
    }

    /// Starts from the root config of the project at `project_root`: the root
    /// package, pinned, is the only one and waits for its dependencies.
    pub fn start(project_root: &str, config: Config) -> (r: PackageGraph)
        ensures
            r.wf(),
            r.project_root@ == project_root@,
            r.packages.len() == 1,
            is_skeleton(r.packages@[0], config, project_root@, true),
            r.queue@ == seq![0usize],
    {
        let root = make_skeleton(config, project_root, true);
        let mut packages: Vec<Package> = Vec::new();
        packages.push(root);
        let mut queue: Vec<usize> = Vec::new();
        queue.push(0);
        PackageGraph { project_root: String::from_str(project_root), packages, queue }
    }

    /// Folds the configs read for the first package in line into the graph,
    /// one at a time and in order: each whose name no package has yet becomes
    /// a package, pinned exactly when that first package pins its name, and
    /// waits in line for its own dependencies. A name that is already there is
    /// neither read again nor replaced.
    pub fn accept(&mut self, children: Vec<(String, Config)>)
        requires
            old(self).wf(),
            old(self).queue.len() > 0,
        ensures
            final(self).wf(),
            final(self).project_root == old(self).project_root,
            ({
                let old_pkgs = old(self).packages@;
                let parent = old_pkgs[old(self).queue@[0] as int].bsconfig;
                let added = new_children(old_pkgs, children@);
                &&& forall|t: int| 0 <= t < added.len() ==> 0 <= #[trigger] added[t] < children@.len()
                &&& final(self).packages.len() == old_pkgs.len() + added.len()
                &&& final(self).packages@.subrange(0, old_pkgs.len() as int) == old_pkgs
                &&& forall|t: int| 0 <= t < added.len() ==> is_skeleton(
                    #[trigger] final(self).packages@[old_pkgs.len() + t],
                    children@[added[t]].1,
                    children@[added[t]].0@,
                    pins(parent, children@[added[t]].1.name@),
                )
                &&& final(self).queue@.len() == old(self).queue@.len() - 1 + added.len()
                &&& final(self).queue@.subrange(0, old(self).queue@.len() - 1) == old(self).queue@.drop_first()
                &&& forall|t: int| 0 <= t < added.len() ==> #[trigger] final(self).queue@[old(self).queue@.len() - 1 + t] == old_pkgs.len() + t
            }),
    {
        let ghost old_pkgs = self.packages@;
        let ghost old_queue = self.queue@;
        let ghost all = children@;
        let parent_idx = self.queue.remove(0);
        let ghost parent = old_pkgs[parent_idx as int].bsconfig;
        let mut children = children;
        let ghost mut j: int = 0;
        while children.len() > 0
            invariant
                0 <= j <= all.len(),
                old_queue.len() > 0,
                children@ == all.subrange(j, all.len() as int),
                parent_idx < old_pkgs.len(),
                parent == old_pkgs[parent_idx as int].bsconfig,
                self.project_root == old(self).project_root,
                names_distinct(self.packages@),
                self.packages.len() == old_pkgs.len() + new_children(old_pkgs, all.subrange(0, j)).len(),
                self.packages@.subrange(0, old_pkgs.len() as int) == old_pkgs,
                forall|t: int| 0 <= t < new_children(old_pkgs, all.subrange(0, j)).len() ==> is_skeleton(
                    #[trigger] self.packages@[old_pkgs.len() + t],
                    all[new_children(old_pkgs, all.subrange(0, j))[t]].1,
                    all[new_children(old_pkgs, all.subrange(0, j))[t]].0@,
                    pins(parent, all[new_children(old_pkgs, all.subrange(0, j))[t]].1.name@),
                ),
                forall|nm: Seq<char>| #![trigger has_package(self.packages@, nm)]
                    has_package(self.packages@, nm) <==> (has_package(old_pkgs, nm)
                    || exists|k: int| 0 <= k < j && #[trigger] all[k].1.name@ == nm),
                self.queue@.len() == old_queue.len() - 1 + new_children(old_pkgs, all.subrange(0, j)).len(),
                self.queue@.subrange(0, old_queue.len() - 1) == old_queue.drop_first(),
                forall|t: int| 0 <= t < new_children(old_pkgs, all.subrange(0, j)).len() ==>
                    #[trigger] self.queue@[old_queue.len() - 1 + t] == old_pkgs.len() + t,
                forall|i: int| 0 <= i < self.queue.len() ==> #[trigger] self.queue@[i] < self.packages.len(),
            decreases children.len(),
        {
            let (dir, config) = children.remove(0);
            let present = find_package(&self.packages, config.name.as_str());
            let pinned = pinned_by(&self.packages[parent_idx].bsconfig, config.name.as_str());
            let ghost pre_pkgs = self.packages@;
            let ghost pre_queue = self.queue@;
            let ghost pre_added = new_children(old_pkgs, all.subrange(0, j));
            proof {
                assert(all[j] == (dir, config));
                assert(self.packages@[parent_idx as int] == old_pkgs[parent_idx as int]);
                assert(all.subrange(0, j + 1).drop_last() =~= all.subrange(0, j));
                lemma_new_child_prefix(old_pkgs, all, j);
                assert(has_package(pre_pkgs, all[j].1.name@) <==> (has_package(old_pkgs, all[j].1.name@)
                    || exists|k: int| 0 <= k < j && #[trigger] all[k].1.name@ == all[j].1.name@));
            }
            if !present {
                let k = self.packages.len();
                let pkg = make_skeleton(config, dir.as_str(), pinned);
                self.packages.push(pkg);
                self.queue.push(k);
                proof {
                    assert(is_new_child(old_pkgs, all.subrange(0, j + 1), j));
                    assert(new_children(old_pkgs, all.subrange(0, j + 1)) == pre_added.push(j));
                    assert(self.packages@.subrange(0, old_pkgs.len() as int) =~= pre_pkgs.subrange(0, old_pkgs.len() as int));
                    assert(self.queue@.subrange(0, old_queue.len() - 1) =~= pre_queue.subrange(0, old_queue.len() - 1));
                    assert forall|t: int| 0 <= t < pre_added.len() + 1 implies is_skeleton(
                        #[trigger] self.packages@[old_pkgs.len() + t],
                        all[new_children(old_pkgs, all.subrange(0, j + 1))[t]].1,
                        all[new_children(old_pkgs, all.subrange(0, j + 1))[t]].0@,
                        pins(parent, all[new_children(old_pkgs, all.subrange(0, j + 1))[t]].1.name@),
                    ) by {
                        if t < pre_added.len() {
                            assert(self.packages@[old_pkgs.len() + t] == pre_pkgs[old_pkgs.len() + t]);
                        }
                    }
                    assert forall|nm: Seq<char>| has_package(self.packages@, nm) <==> (has_package(old_pkgs, nm)
                        || exists|k: int| 0 <= k < j + 1 && #[trigger] all[k].1.name@ == nm) by {
                        assert(has_package(pre_pkgs, nm) <==> (has_package(old_pkgs, nm)
                            || exists|k: int| 0 <= k < j && #[trigger] all[k].1.name@ == nm));
                        if exists|k: int| 0 <= k < j && #[trigger] all[k].1.name@ == nm {
                            let k = choose|k: int| 0 <= k < j && #[trigger] all[k].1.name@ == nm;
                            assert(0 <= k < j + 1 && all[k].1.name@ == nm);
                        }
                        if exists|k: int| 0 <= k < j + 1 && #[trigger] all[k].1.name@ == nm {
                            let k = choose|k: int| 0 <= k < j + 1 && #[trigger] all[k].1.name@ == nm;
                            if k < j {
                                assert(has_package(pre_pkgs, nm));
                            }
                        }
                        if has_package(self.packages@, nm) {
                            let i = choose|i: int| 0 <= i < self.packages@.len() && #[trigger] self.packages@[i].name@ == nm;
                            if i < pre_pkgs.len() {
                                assert(pre_pkgs[i].name@ == nm);
                            } else {
                                assert(all[j].1.name@ == nm);
                            }
                        }
                        if has_package(pre_pkgs, nm) {
                            let i = choose|i: int| 0 <= i < pre_pkgs.len() && #[trigger] pre_pkgs[i].name@ == nm;
                            assert(self.packages@[i].name@ == nm);
                        }
                        if all[j].1.name@ == nm {
                            assert(self.packages@[pre_pkgs.len() as int].name@ == nm);
                        }
                    }
                    assert forall|a: int, b: int| 0 <= a < b < self.packages@.len() implies
                        self.packages@[a].name@ != self.packages@[b].name@ by {
                        if b == pre_pkgs.len() {
                            assert(pre_pkgs[a].name@ == self.packages@[a].name@);
                        } else {
                            assert(pre_pkgs[a] == self.packages@[a]);
                            assert(pre_pkgs[b] == self.packages@[b]);
                        }
                    }
                }
            } else {
                proof {
                    assert(!is_new_child(old_pkgs, all.subrange(0, j + 1), j)) by {
                        if !has_package(old_pkgs, all[j].1.name@) {
                            let k = choose|k: int| 0 <= k < j && #[trigger] all[k].1.name@ == all[j].1.name@;
                            assert(all.subrange(0, j + 1)[k] == all[k]);
                        }
                    }
                    assert(new_children(old_pkgs, all.subrange(0, j + 1)) == pre_added);
                    assert forall|nm: Seq<char>| has_package(self.packages@, nm) <==> (has_package(old_pkgs, nm)
                        || exists|k: int| 0 <= k < j + 1 && #[trigger] all[k].1.name@ == nm) by {
                        if exists|k: int| 0 <= k < j + 1 && #[trigger] all[k].1.name@ == nm {
                            let k = choose|k: int| 0 <= k < j + 1 && #[trigger] all[k].1.name@ == nm;
                            if k < j {
                                assert(has_package(pre_pkgs, nm));
                            }
                        }
                    }
                }
            }
            proof {
                assert(children@ =~= all.subrange(j + 1, all.len() as int));
                j = j + 1;
            }
        }
        proof {
            assert(all.subrange(0, j) =~= all);
            lemma_new_children_positions(old_pkgs, all);
        }
    }

    /// The directories whose configs are to be read next: those of the
    /// declared dependencies of the first package in line that no package has
    /// yet, in declaration order. `None` once no package is waiting.
    pub fn pending_reads(&self) -> (r: Option<Vec<String>>)
        requires
            self.wf(),
        ensures
            self.queue.len() == 0 <==> r is None,
            r is Some ==> r->Some_0@.map_values(|s: String| s@) == pending_spec(
                self.project_root@,
                deps_of(self.packages@[self.queue@[0] as int].bsconfig),
                self.packages@,
            ),
    {
        if self.queue.len() == 0 {
            return None;
        }
        let parent = &self.packages[self.queue[0]];
        let empty: Vec<String> = Vec::new();
        let deps = match &parent.bsconfig.bs_dependencies {
            Some(v) => v,
            None => &empty,
        };
        let ghost pkgs = self.packages@;
        let ghost root = self.project_root@;
        let mut r: Vec<String> = Vec::new();
        let mut i: usize = 0;
        while i < deps.len()
            invariant
                i <= deps@.len(),
                pkgs == self.packages@,
                root == self.project_root@,
                r@.map_values(|s: String| s@) == pending_spec(root, deps@.subrange(0, i as int), pkgs),
            decreases deps.len() - i,
        {
            proof {
                assert(deps@.subrange(0, i + 1).drop_last() =~= deps@.subrange(0, i as int));
            }
            let name = deps[i].as_str();
            if !find_package(&self.packages, name) {
                let path = get_package_path(self.project_root.as_str(), name);
                let ghost pre = r@;
                r.push(path);
                proof {
                    assert(r@.map_values(|s: String| s@) =~= pre.map_values(|s: String| s@).push(path@));
                }
            }
            i = i + 1;
        }
        proof {
            assert(deps@.subrange(0, deps@.len() as int) =~= deps@);
        }
        Some(r)
    }
}


/// The texts of a list, as a set.
pub open spec fn text_set(v: Seq<String>) -> Set<Seq<char>> {
    Set::new(|t: Seq<char>| exists|i: int| 0 <= i < v.len() && #[trigger] v[i]@ == t)
}

/// No text of the list occurs twice.
pub open spec fn texts_distinct(v: Seq<String>) -> bool {
    forall|i: int, j: int| 0 <= i < j < v.len() ==> v[i]@ != v[j]@
}

fn add_text(v: &mut Vec<String>, t: String)
    requires
        texts_distinct(old(v)@),
    ensures
        texts_distinct(final(v)@),
        text_set(final(v)@) == text_set(old(v)@).insert(t@),
{
    if list_contains(v, t.as_str()) {
        assert(text_set(v@).insert(t@) =~= text_set(v@));
        return;
    }
    let ghost pre = v@;
    v.push(t);
    assert(text_set(v@) =~= text_set(pre).insert(t@)) by {
        assert forall|g: Seq<char>| text_set(pre).insert(t@).contains(g) implies text_set(v@).contains(g) by {
            if g == t@ {
                assert(v@[pre.len() as int]@ == g);
            } else {
                let k = choose|k: int| 0 <= k < pre.len() && pre[k]@ == g;
                assert(v@[k]@ == g);
            }
        }
        assert forall|g: Seq<char>| text_set(v@).contains(g) implies text_set(pre).insert(t@).contains(g) by {
            let k = choose|k: int| 0 <= k < v@.len() && v@[k]@ == g;
            if k < pre.len() {
                assert(pre[k]@ == g);
            }
        }
    }
}

/// The paths of a list of scanned files, as a set.
pub open spec fn file_keys(files: Seq<(String, SourceFileMeta)>) -> Set<Seq<char>> {
    Set::new(|k: Seq<char>| exists|i: int| 0 <= i < files.len() && #[trigger] files[i].0@ == k)
}

/// No path occurs twice in a list of scanned files.
pub open spec fn keys_distinct(files: Seq<(String, SourceFileMeta)>) -> bool {
    forall|i: int, j: int| 0 <= i < j < files.len() ==> files[i].0@ != files[j].0@
}

/// The directory, relative to `base`, that holds the file at `path`.
pub open spec fn dir_of(path: Seq<char>, base: Seq<char>) -> Option<Seq<char>> {
    match strip_prefix_of(path, base) {
        Some(rel) => parent_of(rel),
        None => None,
    }
}

/// The modules of a package with namespace `ns` whose files are `keys`: the
/// module of each file, and the module that the namespace adds.
pub open spec fn modules_spec(keys: Set<Seq<char>>, ns: NamespaceView) -> Set<Seq<char>> {
    Set::new(|m: Seq<char>| (exists|k: Seq<char>| keys.contains(k) && #[trigger] module_of(k, ns) == Some(m))
        || suffix_spec(ns) == Some(m))
}

/// The directories, relative to `base`, that hold one of the files `keys`.
pub open spec fn dirs_spec(keys: Set<Seq<char>>, base: Seq<char>) -> Set<Seq<char>> {
    Set::new(|d: Seq<char>| exists|k: Seq<char>| keys.contains(k) && #[trigger] dir_of(k, base) == Some(d))
}

/// `p` is the package `skel` completed by a scan that found `files`.
pub open spec fn is_assembled(p: Package, skel: Package, files: Seq<(String, SourceFileMeta)>) -> bool {
    &&& p.name == skel.name
    &&& p.bsconfig == skel.bsconfig
    &&& p.source_folders == skel.source_folders
    &&& p.namespace == skel.namespace
    &&& p.package_dir == skel.package_dir
    &&& p.is_pinned_dep == skel.is_pinned_dep
    &&& p.source_files matches Some(sf) && file_map_contents(sf).dom() == file_keys(files)
        && forall|k: Seq<char>| #[trigger] file_map_contents(sf).contains_key(k) ==> exists|i: int|
            0 <= i < files.len() && files[i].0@ == k && #[trigger] files[i].1 == file_map_contents(sf)[k]
    &&& p.modules matches Some(m) && text_set_contents(m) == modules_spec(file_keys(files), skel.namespace@)
    &&& p.dirs matches Some(d) && text_set_contents(d) == dirs_spec(file_keys(files), skel.package_dir@)
}

fn has_key(files: &Vec<(String, SourceFileMeta)>, key: &str) -> (r: bool)
    ensures
        r == file_keys(files@).contains(key@),
{
    let mut i: usize = 0;
    while i < files.len()
        invariant
            i <= files@.len(),
            forall|j: int| 0 <= j < i ==> files@[j].0@ != key@,
        decreases files.len() - i,
    {
        if same_text(files[i].0.as_str(), key) {
            assert(files@[i as int].0@ == key@);
            return true;
        }
        i = i + 1;
    }
    false
}

/// The `t`th kept file is one of the files of the scan.
pub open spec fn kept_origin(kept: Seq<(String, SourceFileMeta)>, all: Seq<(String, SourceFileMeta)>, t: int) -> bool {
    exists|i: int| 0 <= i < all.len() && all[i] == kept[t]
}

fn to_text_set(v: Vec<String>) -> (r: AHashSet<String>)
    ensures
        text_set_contents(r) == text_set(v@),
{
    let ghost all = v@;
    let mut v = v;
    let mut r = new_text_set();
    let ghost mut j: int = 0;
    while v.len() > 0
        invariant
            0 <= j <= all.len(),
            v@ == all.subrange(j, all.len() as int),
            text_set_contents(r) == text_set(all.subrange(0, j)),
        decreases v.len(),
    {
        let t = v.remove(0);
        proof {
            assert(all[j] == t);
        }
        text_set_insert(&mut r, t);
        proof {
            assert(text_set(all.subrange(0, j + 1)) =~= text_set(all.subrange(0, j)).insert(all[j]@)) by {
                assert forall|g: Seq<char>| text_set(all.subrange(0, j + 1)).contains(g) implies
                    text_set(all.subrange(0, j)).insert(all[j]@).contains(g) by {
                    let i = choose|i: int| 0 <= i < j + 1 && #[trigger] all.subrange(0, j + 1)[i]@ == g;
                    if i < j {
                        assert(all.subrange(0, j)[i]@ == g);
                    }
                }
                assert forall|g: Seq<char>| text_set(all.subrange(0, j)).insert(all[j]@).contains(g) implies
                    text_set(all.subrange(0, j + 1)).contains(g) by {
                    if g == all[j]@ {
                        assert(all.subrange(0, j + 1)[j]@ == g);
                    } else {
                        let i = choose|i: int| 0 <= i < j && #[trigger] all.subrange(0, j)[i]@ == g;
                        assert(all.subrange(0, j + 1)[i]@ == g);
                    }
                }
            }
            assert(v@ =~= all.subrange(j + 1, all.len() as int));
            j = j + 1;
        }
    }
    proof {
        assert(all.subrange(0, j) =~= all);
    }
    r
}

fn to_file_map(v: Vec<(String, SourceFileMeta)>) -> (r: AHashMap<String, SourceFileMeta>)
    requires
        keys_distinct(v@),
    ensures
        file_map_contents(r).dom() == file_keys(v@),
        forall|i: int| 0 <= i < v.len() ==> #[trigger] file_map_contents(r)[v@[i].0@] == v@[i].1,
{
    let ghost all = v@;
    let mut v = v;
    let mut r = new_file_map();
    let ghost mut j: int = 0;
    while v.len() > 0
        invariant
            0 <= j <= all.len(),
            v@ == all.subrange(j, all.len() as int),
            keys_distinct(all),
            file_map_contents(r).dom() == file_keys(all.subrange(0, j)),
            forall|i: int| 0 <= i < j ==> #[trigger] file_map_contents(r)[all[i].0@] == all[i].1,
        decreases v.len(),
    {
        let (k, m) = v.remove(0);
        proof {
            assert(all[j] == (k, m));
        }
        file_map_insert(&mut r, k, m);
        proof {
            assert(file_keys(all.subrange(0, j + 1)) =~= file_keys(all.subrange(0, j)).insert(all[j].0@)) by {
                assert forall|g: Seq<char>| file_keys(all.subrange(0, j + 1)).contains(g) implies
                    file_keys(all.subrange(0, j)).insert(all[j].0@).contains(g) by {
                    let i = choose|i: int| 0 <= i < j + 1 && #[trigger] all.subrange(0, j + 1)[i].0@ == g;
                    if i < j {
                        assert(all.subrange(0, j)[i].0@ == g);
                    }
                }
                assert forall|g: Seq<char>| file_keys(all.subrange(0, j)).insert(all[j].0@).contains(g) implies
                    file_keys(all.subrange(0, j + 1)).contains(g) by {
                    if g == all[j].0@ {
                        assert(all.subrange(0, j + 1)[j].0@ == g);
                    } else {
                        let i = choose|i: int| 0 <= i < j && #[trigger] all.subrange(0, j)[i].0@ == g;
                        assert(all.subrange(0, j + 1)[i].0@ == g);
                    }
                }
            }
            assert forall|i: int| 0 <= i < j + 1 implies #[trigger] file_map_contents(r)[all[i].0@] == all[i].1 by {
                if i < j {
                    assert(all[i].0@ != all[j].0@);
                }
            }
            assert(file_map_contents(r).dom() =~= file_keys(all.subrange(0, j + 1)));
            assert(v@ =~= all.subrange(j + 1, all.len() as int));
            j = j + 1;
        }
    }
    proof {
        assert(all.subrange(0, j) =~= all);
    }
    r
}

/// Completes a skeleton with the files that the scan of its folders found:
/// each path once, the module of each file and the one its namespace adds,
/// and the directories, relative to the package, that hold a file. Only
/// these three fields change.
pub fn assemble(skel: Package, files: Vec<(String, SourceFileMeta)>) -> (r: Package)
    requires
        skel.source_files is None,
    ensures
        is_assembled(r, skel, files@),
{
    let ghost all = files@;
    let ghost ns = skel.namespace@;
    let ghost base = skel.package_dir@;
    let mut files = files;
    let mut kept: Vec<(String, SourceFileMeta)> = Vec::new();
    let mut modules: Vec<String> = Vec::new();
    let mut dirs: Vec<String> = Vec::new();
    let ghost mut j: int = 0;
    proof {
        assert(file_keys(kept@) =~= Set::empty());
        assert(text_set(modules@) =~= Set::empty());
        assert(text_set(dirs@) =~= Set::empty());
    }
    while files.len() > 0
        invariant
            0 <= j <= all.len(),
            files@ == all.subrange(j, all.len() as int),
            ns == skel.namespace@,
            base == skel.package_dir@,
            keys_distinct(kept@),
            file_keys(kept@) == file_keys(all.subrange(0, j)),
            forall|t: int| 0 <= t < kept@.len() ==> #[trigger] kept_origin(kept@, all, t),
            texts_distinct(modules@),
            text_set(modules@) == Set::new(|m: Seq<char>| exists|k: Seq<char>|
                file_keys(all.subrange(0, j)).contains(k) && #[trigger] module_of(k, ns) == Some(m)),
            texts_distinct(dirs@),
            text_set(dirs@) == dirs_spec(file_keys(all.subrange(0, j)), base),
        decreases files.len(),
    {
        let (key, meta) = files.remove(0);
        let ghost keys_pre = file_keys(all.subrange(0, j));
        let ghost keys_post = file_keys(all.subrange(0, j + 1));
        proof {
            assert(all[j] == (key, meta));
            assert(keys_post =~= keys_pre.insert(key@)) by {
                assert forall|k: Seq<char>| keys_post.contains(k) implies keys_pre.insert(key@).contains(k) by {
                    let i = choose|i: int| 0 <= i < j + 1 && #[trigger] all.subrange(0, j + 1)[i].0@ == k;
                    if i < j {
                        assert(all.subrange(0, j)[i].0@ == k);
                    }
                }
                assert forall|k: Seq<char>| keys_pre.insert(key@).contains(k) implies keys_post.contains(k) by {
                    if k == key@ {
                        assert(all.subrange(0, j + 1)[j].0@ == k);
                    } else {
                        let i = choose|i: int| 0 <= i < j && #[trigger] all.subrange(0, j)[i].0@ == k;
                        assert(all.subrange(0, j + 1)[i].0@ == k);
                    }
                }
            }
        }
        let module = file_path_to_module_name(key.as_str(), &skel.namespace);
        let ghost mods_pre = text_set(modules@);
        match module {
            Some(m) => add_text(&mut modules, m),
            None => {},
        }
        proof {
            assert(text_set(modules@) =~= Set::new(|m: Seq<char>| exists|k: Seq<char>|
                keys_post.contains(k) && #[trigger] module_of(k, ns) == Some(m))) by {
                assert forall|m: Seq<char>| #[trigger] text_set(modules@).contains(m) implies exists|k: Seq<char>|
                    keys_post.contains(k) && #[trigger] module_of(k, ns) == Some(m) by {
                    if mods_pre.contains(m) {
                        let k = choose|k: Seq<char>| keys_pre.contains(k) && #[trigger] module_of(k, ns) == Some(m);
                        assert(keys_post.contains(k));
                    } else {
                        assert(module_of(key@, ns) == Some(m));
                    }
                }
                assert forall|m: Seq<char>| (exists|k: Seq<char>| keys_post.contains(k) && #[trigger] module_of(k, ns) == Some(m))
                    implies #[trigger] text_set(modules@).contains(m) by {
                    let k = choose|k: Seq<char>| keys_post.contains(k) && #[trigger] module_of(k, ns) == Some(m);
                    if k != key@ {
                        assert(keys_pre.contains(k));
                        assert(mods_pre.contains(m));
                    }
                }
            }
        }
        let dir = match strip_prefix(key.as_str(), skel.package_dir.as_str()) {
            Some(rel) => parent(rel.as_str()),
            None => None,
        };
        let ghost dirs_pre = text_set(dirs@);
        match dir {
            Some(d) => add_text(&mut dirs, d),
            None => {},
        }
        proof {
            assert(text_set(dirs@) =~= dirs_spec(keys_post, base)) by {
                assert forall|d: Seq<char>| #[trigger] text_set(dirs@).contains(d) implies dirs_spec(keys_post, base).contains(d) by {
                    if dirs_pre.contains(d) {
                        let k = choose|k: Seq<char>| keys_pre.contains(k) && #[trigger] dir_of(k, base) == Some(d);
                        assert(keys_post.contains(k));
                    } else {
                        assert(dir_of(key@, base) == Some(d));
                    }
                }
                assert forall|d: Seq<char>| dirs_spec(keys_post, base).contains(d) implies #[trigger] text_set(dirs@).contains(d) by {
                    let k = choose|k: Seq<char>| keys_post.contains(k) && #[trigger] dir_of(k, base) == Some(d);
                    if k != key@ {
                        assert(keys_pre.contains(k));
                        assert(dirs_pre.contains(d));
                    }
                }
            }
        }
        if !has_key(&kept, key.as_str()) {
            let ghost kept_pre = kept@;
            kept.push((key, meta));
            proof {
                assert forall|t: int| 0 <= t < kept@.len() implies #[trigger] kept_origin(kept@, all, t) by {
                    if t < kept_pre.len() {
                        assert(kept_origin(kept_pre, all, t));
                        assert(kept@[t] == kept_pre[t]);
                    } else {
                        assert(all[j] == kept@[t]);
                    }
                }
                assert(file_keys(kept@) =~= file_keys(kept_pre).insert(key@)) by {
                    assert forall|k: Seq<char>| file_keys(kept@).contains(k) implies file_keys(kept_pre).insert(key@).contains(k) by {
                        let i = choose|i: int| 0 <= i < kept@.len() && #[trigger] kept@[i].0@ == k;
                        if i < kept_pre.len() {
                            assert(kept_pre[i].0@ == k);
                        }
                    }
                    assert forall|k: Seq<char>| file_keys(kept_pre).insert(key@).contains(k) implies file_keys(kept@).contains(k) by {
                        if k == key@ {
                            assert(kept@[kept_pre.len() as int].0@ == k);
                        } else {
                            let i = choose|i: int| 0 <= i < kept_pre.len() && #[trigger] kept_pre[i].0@ == k;
                            assert(kept@[i].0@ == k);
                        }
                    }
                }
                assert forall|a: int, b: int| 0 <= a < b < kept@.len() implies kept@[a].0@ != kept@[b].0@ by {
                    if b == kept_pre.len() {
                        assert(kept_pre[a].0@ == kept@[a].0@);
                        assert(file_keys(kept_pre).contains(kept_pre[a].0@));
                    } else {
                        assert(kept_pre[a] == kept@[a]);
                        assert(kept_pre[b] == kept@[b]);
                    }
                }
            }
        } else {
            proof {
                assert(file_keys(kept@) =~= keys_post);
            }
        }
        proof {
            assert(files@ =~= all.subrange(j + 1, all.len() as int));
            j = j + 1;
        }
    }
    let ghost mods_files = text_set(modules@);
    match skel.namespace.to_suffix() {
        Some(m) => add_text(&mut modules, m),
        None => {},
    }
    proof {
        assert(all.subrange(0, j) =~= all);
        assert(text_set(modules@) =~= modules_spec(file_keys(all), ns));
    }
    let ghost kept_v = kept@;
    let source_files = to_file_map(kept);
    proof {
        let sf = file_map_contents(source_files);
        assert forall|k: Seq<char>| #[trigger] sf.contains_key(k) implies exists|i: int|
            0 <= i < all.len() && all[i].0@ == k && #[trigger] all[i].1 == sf[k] by {
            let t = choose|t: int| 0 <= t < kept_v.len() && #[trigger] kept_v[t].0@ == k;
            assert(sf[kept_v[t].0@] == kept_v[t].1);
            assert(kept_origin(kept_v, all, t));
        }
    }
    let modules = to_text_set(modules);
    let dirs = to_text_set(dirs);
    Package {
        name: skel.name,
        bsconfig: skel.bsconfig,
        source_folders: skel.source_folders,
        source_files: Some(source_files),
        namespace: skel.namespace,
        modules: Some(modules),
        package_dir: skel.package_dir,
        dirs: Some(dirs),
        is_pinned_dep: skel.is_pinned_dep,
    }
}


/// Two scans of a package that find the same set of paths, in whatever
/// order and however often each, give the same package name, namespace,
/// modules and directories.
pub proof fn lemma_assembly_depends_on_paths_only(
    skel: Package,
    files1: Seq<(String, SourceFileMeta)>,
    files2: Seq<(String, SourceFileMeta)>,
    p1: Package,
    p2: Package,
)
    requires
        is_assembled(p1, skel, files1),
        is_assembled(p2, skel, files2),
        file_keys(files1) == file_keys(files2),
    ensures
        p1.name@ == p2.name@,
        p1.namespace@ == p2.namespace@,
        text_set_contents(p1.modules->Some_0) == text_set_contents(p2.modules->Some_0),
        text_set_contents(p1.dirs->Some_0) == text_set_contents(p2.dirs->Some_0),
        file_map_contents(p1.source_files->Some_0).dom() == file_map_contents(p2.source_files->Some_0).dom(),
{
}

/// The packages keyed by name. Where names are unique, as in a graph,
/// each package is found under its own name.
pub fn package_map(packages: Vec<Package>) -> (r: AHashMap<String, Package>)
    ensures
        package_map_contents(r).dom() == Set::new(|n: Seq<char>| has_package(packages@, n)),
        forall|i: int| 0 <= i < packages.len() ==> (#[trigger] package_map_contents(r)[packages@[i].name@]).name@ == packages@[i].name@,
        names_distinct(packages@) ==> forall|i: int| 0 <= i < packages.len() ==> #[trigger] package_map_contents(r)[packages@[i].name@] == packages@[i],
{
    let ghost all = packages@;
    let mut packages = packages;
    let mut m = new_package_map();
    let ghost mut j: int = 0;
    while packages.len() > 0
        invariant
            0 <= j <= all.len(),
            packages@ == all.subrange(j, all.len() as int),
            package_map_contents(m).dom() == Set::new(|n: Seq<char>| has_package(all.subrange(0, j), n)),
            forall|i: int| 0 <= i < j ==> (#[trigger] package_map_contents(m)[all[i].name@]).name@ == all[i].name@,
            names_distinct(all) ==> forall|i: int| 0 <= i < j ==> #[trigger] package_map_contents(m)[all[i].name@] == all[i],
        decreases packages.len(),
    {
        let p = packages.remove(0);
        proof {
            assert(all[j] == p);
        }
        let ghost pre = package_map_contents(m);
        let name = p.name.clone();
        package_map_insert(&mut m, name, p);
        proof {
            assert(package_map_contents(m).dom() =~= Set::new(|n: Seq<char>| has_package(all.subrange(0, j + 1), n))) by {
                assert forall|n: Seq<char>| #[trigger] package_map_contents(m).dom().contains(n) implies has_package(all.subrange(0, j + 1), n) by {
                    if n == all[j].name@ {
                        assert(all.subrange(0, j + 1)[j].name@ == n);
                    } else {
                        let i = choose|i: int| 0 <= i < j && #[trigger] all.subrange(0, j)[i].name@ == n;
                        assert(all.subrange(0, j + 1)[i].name@ == n);
                    }
                }
                assert forall|n: Seq<char>| has_package(all.subrange(0, j + 1), n) implies #[trigger] package_map_contents(m).dom().contains(n) by {
                    let i = choose|i: int| 0 <= i < j + 1 && #[trigger] all.subrange(0, j + 1)[i].name@ == n;
                    if i < j {
                        assert(all.subrange(0, j)[i].name@ == n);
                    }
                }
            }
            assert forall|i: int| 0 <= i < j + 1 implies (#[trigger] package_map_contents(m)[all[i].name@]).name@ == all[i].name@ by {
                if i < j && all[i].name@ != all[j].name@ {
                    assert(package_map_contents(m)[all[i].name@] == pre[all[i].name@]);
                }
            }
            if names_distinct(all) {
                assert forall|i: int| 0 <= i < j + 1 implies #[trigger] package_map_contents(m)[all[i].name@] == all[i] by {
                    if i < j {
                        assert(all[i].name@ != all[j].name@);
                    }
                }
            }
            assert(packages@ =~= all.subrange(j + 1, all.len() as int));
            j = j + 1;
        }
    }
    proof {
        assert(all.subrange(0, j) =~= all);
    }
    m
}


} // verus!
