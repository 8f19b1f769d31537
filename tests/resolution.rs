use package_tree::config::{Config, OneOrMore, PackageSource, Source, SourceFolder, Subdirs};
use package_tree::namespace::{namespace_from_package_name, resolve_namespace, Namespace, NamespaceSetting};
use package_tree::scan::{classify_entry, entry_action, matches_filter, scan_mode, EntryVerdict, Filter, SourceFileMeta};
use package_tree::tree::{assemble, make_skeleton, package_map, Package, PackageGraph};

fn config(name: &str, deps: &[&str], pinned: &[&str]) -> Config {
    Config {
        name: name.to_string(),
        sources: OneOrMore::Single(Source::Shorthand("src".to_string())),
        namespace: None,
        namespace_entry: None,
        bs_dependencies: Some(deps.iter().map(|d| d.to_string()).collect()),
        pinned_dependencies: Some(pinned.iter().map(|d| d.to_string()).collect()),
    }
}

fn count_named(pkgs: &[Package], name: &str) -> usize {
    pkgs.iter().filter(|p| p.name == name).count()
}

fn find<'a>(pkgs: &'a [Package], name: &str) -> &'a Package {
    pkgs.iter().find(|p| p.name == name).unwrap()
}

#[test]
fn diamond_dependency_gives_one_package() {
    let mut g = PackageGraph::start("/p", config("a", &["b", "c"], &[]));
    assert_eq!(
        g.pending_reads().unwrap(),
        vec!["/p/node_modules/b".to_string(), "/p/node_modules/c".to_string()]
    );
    g.accept(vec![
        ("/p/node_modules/b".to_string(), config("b", &["d"], &[])),
        ("/p/node_modules/c".to_string(), config("c", &["d"], &[])),
    ]);
    assert_eq!(g.pending_reads().unwrap(), vec!["/p/node_modules/d".to_string()]);
    g.accept(vec![("/p/node_modules/d".to_string(), config("d", &[], &[]))]);
    // c's dependency d is already there: nothing to read
    assert_eq!(g.pending_reads().unwrap(), Vec::<String>::new());
    g.accept(vec![]);
    assert_eq!(g.pending_reads().unwrap(), Vec::<String>::new());
    g.accept(vec![]);
    assert!(g.pending_reads().is_none());
    assert_eq!(g.packages.len(), 4);
    assert_eq!(count_named(&g.packages, "d"), 1);
    let d = find(&g.packages, "d");
    assert_eq!(d.source_folders.len(), 1);
}

#[test]
fn repeated_name_in_one_batch_is_added_once() {
    let mut g = PackageGraph::start("/p", config("a", &["b", "b"], &[]));
    g.accept(vec![
        ("/p/node_modules/b".to_string(), config("b", &[], &[])),
        ("/p/node_modules/b".to_string(), config("b", &["x"], &[])),
    ]);
    assert_eq!(count_named(&g.packages, "b"), 1);
    assert_eq!(g.queue.len(), 1);
}

#[test]
fn pinning_follows_the_direct_requester() {
    let mut g = PackageGraph::start("/p", config("a", &["b", "c"], &["b"]));
    g.accept(vec![
        ("/p/node_modules/b".to_string(), config("b", &["e"], &[])),
        ("/p/node_modules/c".to_string(), config("c", &[], &[])),
    ]);
    assert!(find(&g.packages, "a").is_pinned_dep);
    assert!(find(&g.packages, "b").is_pinned_dep);
    assert!(!find(&g.packages, "c").is_pinned_dep);
    g.accept(vec![("/p/node_modules/e".to_string(), config("e", &[], &[]))]);
    assert!(!find(&g.packages, "e").is_pinned_dep);
    assert_eq!(find(&g.packages, "e").package_dir, "/p/node_modules/e");
}

#[test]
fn namespace_is_derived_from_scoped_name() {
    // the scope marker goes and the separator becomes a word boundary
    assert_eq!(namespace_from_package_name("@scope/my-pkg"), "ScopeMyPkg");
    assert_eq!(namespace_from_package_name("my-pkg"), "MyPkg");
}

#[test]
fn namespace_true_without_entry() {
    let ns = resolve_namespace("my-pkg", &Some(NamespaceSetting::Bool(true)), &None);
    assert!(matches!(ns, Namespace::Namespace(ref n) if n == "MyPkg"));
    let mut c = config("my-pkg", &[], &[]);
    c.namespace = Some(NamespaceSetting::Bool(true));
    let skel = make_skeleton(c, "/p", true);
    let pkg = assemble(skel, vec![]);
    assert!(pkg.modules.unwrap().contains(&"MyPkg".to_string()));
}

#[test]
fn scoped_namespace_module_is_in_module_set() {
    let mut c = config("@scope/my-pkg", &[], &[]);
    c.namespace = Some(NamespaceSetting::Bool(true));
    let skel = make_skeleton(c, "/p", true);
    let files = vec![("/p/src/Foo.res".to_string(), SourceFileMeta { modified: 1 })];
    let pkg = assemble(skel, files);
    let modules = pkg.modules.unwrap();
    assert!(modules.contains(&"ScopeMyPkg".to_string()));
    assert!(modules.contains(&"Foo-ScopeMyPkg".to_string()));
    assert_eq!(modules.len(), 2);
}

#[test]
fn upper_flat_namespace_is_kept_verbatim() {
    let ns = resolve_namespace("pkg", &Some(NamespaceSetting::String("MODULENS".to_string())), &None);
    assert!(matches!(ns, Namespace::Namespace(ref n) if n == "MODULENS"));
}

#[test]
fn other_namespace_string_is_pascal_cased() {
    let ns = resolve_namespace("pkg", &Some(NamespaceSetting::String("my_ns".to_string())), &None);
    assert!(matches!(ns, Namespace::Namespace(ref n) if n == "MyNs"));
    let ns = resolve_namespace("my-pkg", &Some(NamespaceSetting::String("true".to_string())), &Some("Main".to_string()));
    assert!(matches!(ns, Namespace::NamespaceWithEntry { ref namespace, ref entry } if namespace == "MyPkg" && entry == "Main"));
    let ns = resolve_namespace("my-pkg", &Some(NamespaceSetting::Bool(false)), &Some("Main".to_string()));
    assert!(matches!(ns, Namespace::NoNamespace));
    let ns = resolve_namespace("my-pkg", &None, &None);
    assert!(matches!(ns, Namespace::NoNamespace));
}

fn folder(dir: &str, recurse: Option<bool>, type_: Option<&str>) -> SourceFolder {
    SourceFolder {
        path: format!("/p/{}", dir),
        dir: dir.to_string(),
        recurse,
        type_: type_.map(|t| t.to_string()),
    }
}

#[test]
fn recursion_flag_decides_descent() {
    let recursive = package_tree::config::get_source_dirs(
        "/p",
        &Source::Qualified(PackageSource { dir: "src".to_string(), subdirs: Some(Subdirs::Recurse(true)), type_: None }),
    );
    assert_eq!(recursive.len(), 1);
    assert_eq!(scan_mode(&recursive[0]), Some(true));
    let shorthand = package_tree::config::get_source_dirs("/p", &Source::Shorthand("src".to_string()));
    assert_eq!(shorthand.len(), 1);
    assert_eq!(shorthand[0].path, "/p/src");
    assert_eq!(scan_mode(&shorthand[0]), Some(false));
    assert!(classify_entry("a", true, true, true).descend);
    assert!(!classify_entry("a", true, false, true).descend);
}

#[test]
fn dev_folders_are_not_scanned() {
    assert_eq!(scan_mode(&folder("test", None, Some("dev"))), None);
    assert_eq!(scan_mode(&folder("test", Some(true), Some("dev"))), None);
    assert_eq!(scan_mode(&folder("src", Some(true), Some("lib"))), Some(true));
}

#[test]
fn filter_keeps_matching_names_only() {
    let filter = Some(Filter::new("^Foo").unwrap());
    assert!(matches_filter(&filter, "Foo.res"));
    assert!(!matches_filter(&filter, "Bar.res"));
    assert!(Filter::new("(").is_err());
    assert!(matches!(entry_action(&filter, "Foo.res", false, false).verdict, EntryVerdict::Included));
    assert!(matches!(entry_action(&filter, "Bar.res", false, false).verdict, EntryVerdict::Filtered));
    assert!(matches!(entry_action(&None, "Bar.res", false, false).verdict, EntryVerdict::Included));
    assert!(matches!(entry_action(&None, "Bar.txt", false, false).verdict, EntryVerdict::NotSource));
    assert!(matches!(entry_action(&None, "src.res", true, false).verdict, EntryVerdict::NotSource));
}

fn sorted(v: &ahash::AHashSet<String>) -> Vec<String> {
    let mut v: Vec<String> = v.iter().cloned().collect();
    v.sort();
    v
}

#[test]
fn assembly_is_the_same_for_the_same_files() {
    let files = vec![
        ("/p/src/a/Foo.res".to_string(), SourceFileMeta { modified: 5 }),
        ("/p/src/Bar.resi".to_string(), SourceFileMeta { modified: 6 }),
        ("/p/src/Bar.res".to_string(), SourceFileMeta { modified: 7 }),
    ];
    let mut reversed: Vec<(String, SourceFileMeta)> =
        files.iter().rev().map(|(k, m)| (k.clone(), SourceFileMeta { modified: m.modified })).collect();
    reversed.push(("/p/src/Bar.res".to_string(), SourceFileMeta { modified: 7 }));
    let p1 = assemble(make_skeleton(config("pkg", &[], &[]), "/p", true), files);
    let p2 = assemble(make_skeleton(config("pkg", &[], &[]), "/p", true), reversed);
    assert_eq!(p1.name, p2.name);
    assert_eq!(sorted(p1.modules.as_ref().unwrap()), sorted(p2.modules.as_ref().unwrap()));
    assert_eq!(sorted(p1.dirs.as_ref().unwrap()), sorted(p2.dirs.as_ref().unwrap()));
    assert_eq!(sorted(p1.modules.as_ref().unwrap()), vec!["Bar".to_string(), "Foo".to_string()]);
    assert_eq!(sorted(p1.dirs.as_ref().unwrap()), vec!["src".to_string(), "src/a".to_string()]);
    assert_eq!(p2.source_files.as_ref().unwrap().len(), 3);
}

#[test]
fn package_map_keys_by_name() {
    let mut g = PackageGraph::start("/p", config("a", &["b"], &[]));
    g.accept(vec![("/p/node_modules/b".to_string(), config("b", &[], &[]))]);
    let m = package_map(g.packages);
    assert_eq!(m.len(), 2);
    assert_eq!(m.get("b").unwrap().package_dir, "/p/node_modules/b");
    assert_eq!(m.get("a").unwrap().package_dir, "/p");
}
