//! The parts of a package's config that resolution reads, and the expansion
//! of its declared source specs into flat source folders.

use crate::namespace::NamespaceSetting;
use crate::paths::{join, join_spec};
use vstd::prelude::*;
use vstd::string::*;

verus! {

/// How deep below a source directory to look.
pub enum Subdirs {
    /// Nested source specs, each relative to the directory.
    Qualified(Vec<Source>),
    /// Whether to walk the whole tree below the directory.
    Recurse(bool),
}

/// A source spec with its options.
pub struct PackageSource {
    pub dir: String,
    pub subdirs: Option<Subdirs>,
    pub type_: Option<String>,
}

/// A declared source location: a bare directory, or one with options.
pub enum Source {
    Shorthand(String),
    Qualified(PackageSource),
}

/// The `sources` field of a config, which holds one spec or a list.
pub enum OneOrMore<T> {
    Single(T),
    Multiple(Vec<T>),
}

/// What resolution reads of a package's config.
pub struct Config {
    pub name: String,
    pub sources: OneOrMore<Source>,
    pub namespace: Option<NamespaceSetting>,
    pub namespace_entry: Option<String>,
    pub bs_dependencies: Option<Vec<String>>,
    pub pinned_dependencies: Option<Vec<String>>,
}

/// One place to scan: an absolute directory and the options of the spec that
/// declared it, without its nested specs.
pub struct SourceFolder {
    pub path: String,
    pub dir: String,
    /// The recursion flag, where the spec gave one.
    pub recurse: Option<bool>,
    pub type_: Option<String>,
}

/// A source folder as contracts see it.
pub struct FolderView {
    pub path: Seq<char>,
    pub dir: Seq<char>,
    pub recurse: Option<bool>,
    pub type_: Option<Seq<char>>,
}

pub open spec fn opt_view(o: Option<String>) -> Option<Seq<char>> {
    match o {
        Some(s) => Some(s@),
        None => None,
    }
}

impl View for SourceFolder {
    type V = FolderView;

    open spec fn view(&self) -> FolderView {
        FolderView {
            path: self.path@,
            dir: self.dir@,
            recurse: self.recurse,
            type_: opt_view(self.type_),
        }
    }
}

/// The directory that a spec names.
pub open spec fn source_dir(s: Source) -> Seq<char> {
    match s {
        Source::Shorthand(d) => d@,
        Source::Qualified(p) => p.dir@,
    }
}

/// The folder entry of the spec itself, found at `base`.
pub open spec fn own_folder(base: Seq<char>, s: Source) -> FolderView {
    match s {
        Source::Shorthand(d) => FolderView {
            path: join_spec(base, d@),
            dir: d@,
            recurse: None,
            type_: None,
        },
        Source::Qualified(p) => FolderView {
            path: join_spec(base, p.dir@),
            dir: p.dir@,
            recurse: match p.subdirs {
                Some(Subdirs::Recurse(b)) => Some(b),
                _ => None,
            },
            type_: opt_view(p.type_),
        },
    }
}

/// Whether `f` is one of the folders that the spec `s`, found at `base`,
/// expands to: its own entry, or one of the expansion of a nested spec
/// relative to its directory.
pub open spec fn in_expansion(base: Seq<char>, s: Source, f: FolderView) -> bool
    decreases s,
{
    f == own_folder(base, s) || match s {
        Source::Qualified(p) => match p.subdirs {
            Some(Subdirs::Qualified(children)) => exists|i: int|
                #![trigger children@[i]]
                0 <= i < children.len() && in_expansion(join_spec(base, p.dir@), children@[i], f),
            _ => false,
        },
        _ => false,
    }
}

/// The views of a list of folders, as a set.
pub open spec fn folder_set(v: Seq<SourceFolder>) -> Set<FolderView> {
    Set::new(|f: FolderView| exists|i: int| 0 <= i < v.len() && #[trigger] v[i]@ == f)
}

/// No two folders of the list are the same.
pub open spec fn folders_distinct(v: Seq<SourceFolder>) -> bool {
    forall|i: int, j: int| 0 <= i < j < v.len() ==> v[i]@ != v[j]@
}

fn clone_opt(o: &Option<String>) -> (r: Option<String>)
    ensures
        r == *o,
{
    match o {
        Some(s) => Some(s.clone()),
        None => None,
    }
}

fn same_opt(a: &Option<String>, b: &Option<String>) -> (r: bool)
    ensures
        r == (opt_view(*a) == opt_view(*b)),
{
    match (a, b) {
        (Some(x), Some(y)) => *x == *y,
        (None, None) => true,
        _ => false,
    }
}

fn same_folder(a: &SourceFolder, b: &SourceFolder) -> (r: bool)
    ensures
        r == (a@ == b@),
{
    a.path == b.path && a.dir == b.dir && a.recurse == b.recurse && same_opt(&a.type_, &b.type_)
}

/// Adds `f` to `v` unless an equal folder is there already.
fn add_folder(v: &mut Vec<SourceFolder>, f: SourceFolder)
    requires
        folders_distinct(old(v)@),
    ensures
        folders_distinct(final(v)@),
        folder_set(final(v)@) == folder_set(old(v)@).insert(f@),
{
    let mut i: usize = 0;
    while i < v.len()
        invariant
            0 <= i <= v@.len(),
            v@ == old(v)@,
            folders_distinct(v@),
            forall|j: int| 0 <= j < i ==> v@[j]@ != f@,
        decreases v.len() - i,
    {
        if same_folder(&v[i], &f) {
            assert(folder_set(v@).insert(f@) =~= folder_set(v@));
            return;
        }
        i = i + 1;
    }
    let ghost pre = v@;
    v.push(f);
    assert(folder_set(v@) =~= folder_set(pre).insert(f@)) by {
        assert forall|g: FolderView| folder_set(pre).insert(f@).contains(g) implies folder_set(
            v@,
        ).contains(g) by {
            if g == f@ {
                assert(v@[pre.len() as int]@ == g);
            } else {
                let k = choose|k: int| 0 <= k < pre.len() && pre[k]@ == g;
                assert(v@[k]@ == g);
            }
        }
        assert forall|g: FolderView| folder_set(v@).contains(g) implies folder_set(pre).insert(
            f@,
        ).contains(g) by {
            let k = choose|k: int| 0 <= k < v@.len() && v@[k]@ == g;
            if k < pre.len() {
                assert(pre[k]@ == g);
            }
        }
    }
}

/// Adds every folder of `w` to `v`.
fn add_folders(v: &mut Vec<SourceFolder>, w: Vec<SourceFolder>)
    requires
        folders_distinct(old(v)@),
    ensures
        folders_distinct(final(v)@),
        folder_set(final(v)@) == folder_set(old(v)@).union(folder_set(w@)),
{
    let ghost start = folder_set(v@);
    let ghost ws = w@;
    let mut w = w;
    while w.len() > 0
        invariant
            folders_distinct(v@),
            folder_set(v@).union(folder_set(w@)) == start.union(folder_set(ws)),
        decreases w.len(),
    {
        let ghost before = w@;
        let f = w.remove(0);
        proof {
            assert(before =~= seq![f].add(w@));
            assert(folder_set(before) =~= folder_set(w@).insert(f@)) by {
                assert forall|g: FolderView| folder_set(before).contains(g) implies folder_set(w@).insert(f@).contains(g) by {
                    let k = choose|k: int| 0 <= k < before.len() && before[k]@ == g;
                    if k > 0 {
                        assert(w@[k - 1]@ == g);
                    }
                }
                assert forall|g: FolderView| folder_set(w@).insert(f@).contains(g) implies folder_set(before).contains(g) by {
                    if g == f@ {
                        assert(before[0]@ == g);
                    } else {
                        let k = choose|k: int| 0 <= k < w@.len() && w@[k]@ == g;
                        assert(before[k + 1]@ == g);
                    }
                }
            }
        }
        add_folder(v, f);
        proof {
            assert(folder_set(v@).union(folder_set(w@)) =~= start.union(folder_set(ws)));
        }
    }
    proof {
        assert(folder_set(w@) =~= Set::empty());
        assert(folder_set(v@) =~= start.union(folder_set(ws)));
    }
}


proof fn lemma_nested_decreases(s: Source, i: int)
    requires
        s is Qualified,
        s->Qualified_0.subdirs matches Some(Subdirs::Qualified(c)) && 0 <= i < c.len(),
    ensures
        decreases_to!(s => s->Qualified_0.subdirs->Some_0->Qualified_0@[i]),
{
    match s {
        Source::Qualified(p) => match p.subdirs {
            Some(Subdirs::Qualified(c)) => {
                assert(decreases_to!(s => p));
                assert(decreases_to!(p => p.subdirs));
                assert(decreases_to!(p.subdirs => p.subdirs->Some_0));
                assert(decreases_to!(p.subdirs->Some_0 => c));
                assert(decreases_to!(c => c@));
                assert(decreases_to!(c@ => c@[i]));
            },
            _ => {},
        },
        _ => {},
    }
}

proof fn lemma_expansion_nested(base: Seq<char>, s: Source, f: FolderView)
    requires
        s is Qualified,
        s->Qualified_0.subdirs is Some,
        s->Qualified_0.subdirs->Some_0 is Qualified,
    ensures
        in_expansion(base, s, f) == (f == own_folder(base, s) || exists|i: int|
            #![trigger s->Qualified_0.subdirs->Some_0->Qualified_0@[i]]
            0 <= i < s->Qualified_0.subdirs->Some_0->Qualified_0.len() && in_expansion(
                join_spec(base, s->Qualified_0.dir@),
                s->Qualified_0.subdirs->Some_0->Qualified_0@[i],
                f,
            )),
{
}

fn own_entry(base: &str, source: &Source) -> (r: SourceFolder)
    ensures
        r@ == own_folder(base@, *source),
{
    match source {
        Source::Shorthand(d) => SourceFolder {
            path: join(base, d.as_str()),
            dir: d.clone(),
            recurse: None,
            type_: None,
        },
        Source::Qualified(p) => SourceFolder {
            path: join(base, p.dir.as_str()),
            dir: p.dir.clone(),
            recurse: match &p.subdirs {
                Some(Subdirs::Recurse(b)) => Some(*b),
                _ => None,
            },
            type_: clone_opt(&p.type_),
        },
    }
}

/// Expands one source spec found at `project_root` into the flat list of
/// folders that it declares, without touching the filesystem: the spec's own
/// directory, and for nested specs their expansions relative to it. A
/// recursion flag is carried on the entry, for the scan to honour.
pub fn get_source_dirs(project_root: &str, source: &Source) -> (r: Vec<SourceFolder>)
    ensures
        folders_distinct(r@),
        forall|f: FolderView| #[trigger]
            folder_set(r@).contains(f) <==> in_expansion(project_root@, *source, f),
    decreases source,
{
    let mut r: Vec<SourceFolder> = Vec::new();
    assert(folder_set(r@) =~= Set::empty());
    let own = own_entry(project_root, source);
    add_folder(&mut r, own);
    match source {
        Source::Qualified(p) => match &p.subdirs {
            Some(Subdirs::Qualified(children)) => {
                let full = join(project_root, p.dir.as_str());
                let mut i: usize = 0;
                while i < children.len()
                    invariant
                        i <= children@.len(),
                        folders_distinct(r@),
                        full@ == join_spec(project_root@, p.dir@),
                        *source is Qualified,
                        (*source)->Qualified_0 == *p,
                        p.subdirs == Some(Subdirs::Qualified(*children)),
                        forall|f: FolderView| #[trigger]
                            folder_set(r@).contains(f) <==> (f == own_folder(project_root@, *source)
                                || exists|j: int|
                                0 <= j < i && #[trigger] in_expansion(full@, children@[j], f)),
                    decreases children.len() - i,
                {
                    proof {
                        lemma_nested_decreases(*source, i as int);
                    }
                    let sub = get_source_dirs(full.as_str(), &children[i]);
                    let ghost pre = folder_set(r@);
                    add_folders(&mut r, sub);
                    proof {
                        assert forall|f: FolderView| #[trigger]
                            folder_set(r@).contains(f) <==> (f == own_folder(project_root@, *source)
                                || exists|j: int|
                                0 <= j < i + 1 && #[trigger] in_expansion(full@, children@[j], f)) by {
                            if exists|j: int| 0 <= j < i + 1 && #[trigger] in_expansion(full@, children@[j], f) {
                                let j = choose|j: int| 0 <= j < i + 1 && #[trigger] in_expansion(full@, children@[j], f);
                                if j < i {
                                    assert(pre.contains(f));
                                }
                            }
                        }
                    }
                    i = i + 1;
                }
                assert forall|f: FolderView| #[trigger]
                    folder_set(r@).contains(f) <==> in_expansion(project_root@, *source, f) by {
                    assert(i == children@.len());
                    lemma_expansion_nested(project_root@, *source, f);
                    if folder_set(r@).contains(f) && f != own_folder(project_root@, *source) {
                        let j = choose|j: int| 0 <= j < i && #[trigger] in_expansion(full@, children@[j], f);
                        assert(in_expansion(join_spec(project_root@, p.dir@), children@[j], f));
                    }
                    if in_expansion(project_root@, *source, f) && f != own_folder(project_root@, *source) {
                        let j = choose|j: int| #![trigger children@[j]] 0 <= j < children.len() && in_expansion(
                            join_spec(project_root@, p.dir@), children@[j], f);
                        assert(in_expansion(full@, children@[j], f));
                    }
                }
            },
            _ => {
                assert forall|f: FolderView| #[trigger]
                    folder_set(r@).contains(f) <==> in_expansion(project_root@, *source, f) by {
                    assert(folder_set(r@).contains(f) <==> f == own_folder(project_root@, *source));
                }
            },
        },
        _ => {
            assert forall|f: FolderView| #[trigger]
                folder_set(r@).contains(f) <==> in_expansion(project_root@, *source, f) by {
                assert(folder_set(r@).contains(f) <==> f == own_folder(project_root@, *source));
            }
        },
    }
    r
}

/// Whether `f` is one of the folders that a package at `base` declares.
pub open spec fn in_package_folders(base: Seq<char>, sources: OneOrMore<Source>, f: FolderView) -> bool {
    match sources {
        OneOrMore::Single(s) => in_expansion(base, s, f),
        OneOrMore::Multiple(v) => exists|i: int| 0 <= i < v.len() && #[trigger] in_expansion(base, v@[i], f),
    }
}

/// All the folders that the source specs of a package at `package_dir`
/// declare, each once.
pub fn package_source_folders(package_dir: &str, sources: &OneOrMore<Source>) -> (r: Vec<SourceFolder>)
    ensures
        folders_distinct(r@),
        forall|f: FolderView| #[trigger]
            folder_set(r@).contains(f) <==> in_package_folders(package_dir@, *sources, f),
{
    match sources {
        OneOrMore::Single(s) => get_source_dirs(package_dir, s),
        OneOrMore::Multiple(v) => {
            let mut r: Vec<SourceFolder> = Vec::new();
            assert(folder_set(r@) =~= Set::empty());
            let mut i: usize = 0;
            while i < v.len()
                invariant
                    i <= v@.len(),
                    folders_distinct(r@),
                    forall|f: FolderView| #[trigger]
                        folder_set(r@).contains(f) <==> exists|j: int|
                            0 <= j < i && #[trigger] in_expansion(package_dir@, v@[j], f),
                decreases v.len() - i,
            {
                let sub = get_source_dirs(package_dir, &v[i]);
                let ghost pre = folder_set(r@);
                add_folders(&mut r, sub);
                proof {
                    assert forall|f: FolderView| #[trigger]
                        folder_set(r@).contains(f) <==> exists|j: int|
                            0 <= j < i + 1 && #[trigger] in_expansion(package_dir@, v@[j], f) by {
                        if exists|j: int| 0 <= j < i + 1 && #[trigger] in_expansion(package_dir@, v@[j], f) {
                            let j = choose|j: int| 0 <= j < i + 1 && #[trigger] in_expansion(package_dir@, v@[j], f);
                            if j < i {
                                assert(pre.contains(f));
                            }
                        }
                    }
                }
                i = i + 1;
            }
            r
        },
    }
}

} // verus!
