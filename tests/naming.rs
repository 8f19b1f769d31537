use package_tree::assets::{get_ast_path, get_bs_compiler_asset, get_compiler_asset, get_iast_path};
use package_tree::config::{get_source_dirs, package_source_folders, OneOrMore, PackageSource, Source, Subdirs};
use package_tree::lexical::{get_abs_path, lexical_absolute, LexicalAbsolute};
use package_tree::namespace::{
    file_path_to_compiler_asset_basename, file_path_to_module_name, module_name_with_namespace, Namespace,
};
use package_tree::paths::{
    change_extension, contains_ascii_characters, get_basename, get_bs_build_path, get_build_path,
    get_mlmap_compile_path, get_mlmap_path, get_namespace_from_module_name, get_node_modules_path,
    get_package_path, get_path, is_interface_ast_file,
};
use package_tree::scan::{extension_of, file_key, is_implementation_file, is_interface_file, is_source_file};

fn ns(n: &str) -> Namespace {
    Namespace::Namespace(n.to_string())
}

fn with_entry(n: &str, e: &str) -> Namespace {
    Namespace::NamespaceWithEntry { namespace: n.to_string(), entry: e.to_string() }
}

#[test]
fn package_paths() {
    assert_eq!(get_package_path("/r", "dep"), "/r/node_modules/dep");
    assert_eq!(get_build_path("/r", "dep"), "/r/node_modules/dep/lib/ocaml");
    assert_eq!(get_bs_build_path("/r", "dep"), "/r/node_modules/dep/lib/bs");
    assert_eq!(get_node_modules_path("/r"), "/r/node_modules");
    assert_eq!(get_path("/r", "dep", "f.res"), "/r/dep/f.res");
    assert_eq!(get_mlmap_path("/r", "dep", "Ns"), "/r/node_modules/dep/lib/ocaml/Ns.mlmap");
    assert_eq!(get_mlmap_compile_path("/r", "dep", "Ns"), "/r/node_modules/dep/lib/ocaml/Ns.cmi");
    assert_eq!(file_key("/r/src", "A.res"), "/r/src/A.res");
}

#[test]
fn module_names() {
    assert_eq!(module_name_with_namespace("foo", &ns("Ns")), "Foo-Ns");
    assert_eq!(module_name_with_namespace("foo", &Namespace::NoNamespace), "Foo");
    assert_eq!(module_name_with_namespace("main", &with_entry("Ns", "main")), "Main");
    assert_eq!(module_name_with_namespace("other", &with_entry("Ns", "main")), "Other-Ns");
    assert_eq!(file_path_to_module_name("/p/src/foo.res", &ns("Ns")), Some("Foo-Ns".to_string()));
    assert_eq!(file_path_to_compiler_asset_basename("/p/src/foo.res", &ns("Ns")), Some("foo-Ns".to_string()));
    assert_eq!(file_path_to_module_name("/", &ns("Ns")), None);
    assert_eq!(ns("Ns").to_suffix(), Some("Ns".to_string()));
    assert_eq!(with_entry("Ns", "main").to_suffix(), Some("@Ns".to_string()));
    assert_eq!(Namespace::NoNamespace.to_suffix(), None);
}

#[test]
fn basenames_and_extensions() {
    assert_eq!(get_basename("/a/b/File.res"), Some("File".to_string()));
    assert_eq!(change_extension("/a/b/File.res", "cmj"), "/a/b/File.cmj");
    assert_eq!(extension_of("File.res"), Some("res".to_string()));
    assert_eq!(extension_of("a.b.resi"), Some("resi".to_string()));
    assert_eq!(extension_of(".res"), None);
    assert_eq!(extension_of(".."), None);
    assert_eq!(extension_of("README"), None);
    assert!(is_interface_file("resi") && is_interface_file("mli") && is_interface_file("rei"));
    assert!(is_implementation_file("res") && is_implementation_file("ml") && is_implementation_file("re"));
    assert!(!is_source_file("js"));
    assert!(is_source_file("re"));
    assert!(is_interface_ast_file("/a/B.iast"));
    assert!(!is_interface_ast_file("/a/B.ast"));
    assert!(!is_interface_ast_file("ast"));
}

#[test]
fn text_helpers() {
    assert!(contains_ascii_characters("--a--"));
    assert!(!contains_ascii_characters("--_ --"));
    assert!(!contains_ascii_characters(""));
    assert_eq!(get_namespace_from_module_name("Foo-Ns"), Some("Ns".to_string()));
    assert_eq!(get_namespace_from_module_name("Foo-Ns-Extra"), Some("Ns".to_string()));
    assert_eq!(get_namespace_from_module_name("Foo"), None);
    assert_eq!(get_namespace_from_module_name("Foo-"), Some("".to_string()));
}

#[test]
fn compiler_assets() {
    assert_eq!(
        get_compiler_asset("/p/src/foo.res", "dep", &ns("Ns"), "/r", "cmj"),
        Some("/r/node_modules/dep/lib/ocaml/foo-Ns.cmj".to_string())
    );
    assert_eq!(get_ast_path("/p/src/foo.res", "dep", "/r"), Some("/r/node_modules/dep/lib/ocaml/foo.ast".to_string()));
    assert_eq!(get_iast_path("/p/src/foo.resi", "dep", "/r"), Some("/r/node_modules/dep/lib/ocaml/foo.iast".to_string()));
    assert_eq!(
        get_bs_compiler_asset("/pkg/src/a/foo.res", "/pkg", "dep", &ns("Ns"), "/r", ".cmj"),
        Some("/r/node_modules/dep/lib/bs/src/a/foo-Ns.cmj".to_string())
    );
    assert_eq!(
        get_bs_compiler_asset("/pkg/src/foo.res", "/pkg", "dep", &ns("Ns"), "/r", "ast"),
        Some("/r/node_modules/dep/lib/bs/src/fooast".to_string())
    );
    assert_eq!(get_bs_compiler_asset("/other/foo.res", "/pkg", "dep", &ns("Ns"), "/r", ".cmj"), None);
}

#[test]
fn nested_source_specs_expand_flat() {
    let spec = Source::Qualified(PackageSource {
        dir: "src".to_string(),
        subdirs: Some(Subdirs::Qualified(vec![
            Source::Shorthand("a".to_string()),
            Source::Qualified(PackageSource {
                dir: "b".to_string(),
                subdirs: Some(Subdirs::Recurse(true)),
                type_: Some("dev".to_string()),
            }),
        ])),
        type_: None,
    });
    let folders = get_source_dirs("/p", &spec);
    let mut paths: Vec<String> = folders.iter().map(|f| f.path.clone()).collect();
    paths.sort();
    assert_eq!(paths, vec!["/p/src".to_string(), "/p/src/a".to_string(), "/p/src/b".to_string()]);
    let b = folders.iter().find(|f| f.path == "/p/src/b").unwrap();
    assert_eq!(b.recurse, Some(true));
    assert_eq!(b.type_, Some("dev".to_string()));
    let both = package_source_folders(
        "/p",
        &OneOrMore::Multiple(vec![Source::Shorthand("src".to_string()), Source::Shorthand("src".to_string())]),
    );
    assert_eq!(both.len(), 1);
}

#[test]
fn lexical_absolute_paths() {
    assert_eq!(lexical_absolute("/home/u", "a/./b/../c"), "/home/u/a/c");
    assert_eq!(lexical_absolute("/home/u", "/a/../../b"), "/b");
    assert_eq!(lexical_absolute("/", "."), "/");
    assert_eq!(get_abs_path("/w", "../x/y"), "/x/y");
    assert_eq!("src//a/".to_string().to_lexical_absolute("/w"), "/w/src/a");
}
