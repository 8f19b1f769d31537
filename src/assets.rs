//! Names of the files that the compiler writes for a source file.

use crate::namespace::{asset_basename_spec, file_path_to_compiler_asset_basename, Namespace, NamespaceView};
use crate::paths::{
    bs_build_path_spec, build_path_spec, get_bs_build_path, get_build_path, join, join_spec, parent,
    parent_of, path_join, path_join_of, strip_prefix, strip_prefix_of,
};
use crate::namespace::same_text;
use vstd::prelude::*;
use vstd::string::*;

verus! {

/// The output of the compiler for `source_file` with extension `extension`,
/// in the package's build directory.
pub open spec fn compiler_asset_spec(
    source_file: Seq<char>,
    package_name: Seq<char>,
    ns: NamespaceView,
    root_path: Seq<char>,
    extension: Seq<char>,
) -> Option<Seq<char>> {
    match asset_basename_spec(source_file, ns) {
        Some(b) => Some(join_spec(build_path_spec(root_path, package_name), b + seq!['.'] + extension)),
        None => None,
    }
}

/// The file the compiler writes with extension `extension` for
/// `source_file`. `None` where the path names no file.
pub fn get_compiler_asset(
    source_file: &str,
    package_name: &str,
    namespace: &Namespace,
    root_path: &str,
    extension: &str,
) -> (r: Option<String>)
    ensures
        match r {
            Some(s) => compiler_asset_spec(source_file@, package_name@, namespace@, root_path@, extension@) == Some(s@),
            None => compiler_asset_spec(source_file@, package_name@, namespace@, root_path@, extension@) is None,
        },
{
    match file_path_to_compiler_asset_basename(source_file, namespace) {
        Some(b) => {
            proof {
                reveal_strlit(".");
            }
            let f = b.concat(".").concat(extension);
            let d = get_build_path(root_path, package_name);
            Some(join(d.as_str(), f.as_str()))
        },
        None => None,
    }
}

/// The parse tree of an implementation file.
pub fn get_ast_path(source_file: &str, package_name: &str, root_path: &str) -> (r: Option<String>)
    ensures
        match r {
            Some(s) => compiler_asset_spec(source_file@, package_name@, NamespaceView::Absent, root_path@, "ast"@) == Some(s@),
            None => compiler_asset_spec(source_file@, package_name@, NamespaceView::Absent, root_path@, "ast"@) is None,
        },
{
    get_compiler_asset(source_file, package_name, &Namespace::NoNamespace, root_path, "ast")
}

/// The parse tree of an interface file.
pub fn get_iast_path(source_file: &str, package_name: &str, root_path: &str) -> (r: Option<String>)
    ensures
        match r {
            Some(s) => compiler_asset_spec(source_file@, package_name@, NamespaceView::Absent, root_path@, "iast"@) == Some(s@),
            None => compiler_asset_spec(source_file@, package_name@, NamespaceView::Absent, root_path@, "iast"@) is None,
        },
{
    get_compiler_asset(source_file, package_name, &Namespace::NoNamespace, root_path, "iast")
}

/// The namespace that an output with extension `extension` carries: parse
/// trees carry none.
pub open spec fn asset_namespace(ns: NamespaceView, extension: Seq<char>) -> NamespaceView {
    if extension == "ast"@ || extension == "iast"@ {
        NamespaceView::Absent
    } else {
        ns
    }
}

/// The output in the mirrored build tree for `source_file`, which lies in
/// the package whose directory, resolved on disk, is `package_path`.
pub open spec fn bs_compiler_asset_spec(
    source_file: Seq<char>,
    package_path: Seq<char>,
    package_name: Seq<char>,
    ns: NamespaceView,
    root_path: Seq<char>,
    extension: Seq<char>,
) -> Option<Seq<char>> {
    match strip_prefix_of(source_file, package_path) {
        Some(rel) => match parent_of(rel) {
            Some(dir) => match asset_basename_spec(source_file, asset_namespace(ns, extension)) {
                Some(b) => Some(path_join_of(
                    path_join_of(bs_build_path_spec(root_path, package_name), dir),
                    b + extension,
                )),
                None => None,
            },
            None => None,
        },
        None => None,
    }
}

/// The output with extension `extension` (given with its dot) that the
/// compiler writes for `source_file` in the mirrored build tree.
/// `package_path` is the package's directory as the filesystem resolves it.
/// `None` where the file does not lie in that directory.
pub fn get_bs_compiler_asset(
    source_file: &str,
    package_path: &str,
    package_name: &str,
    namespace: &Namespace,
    root_path: &str,
    extension: &str,
) -> (r: Option<String>)
    ensures
        match r {
            Some(s) => bs_compiler_asset_spec(source_file@, package_path@, package_name@, namespace@, root_path@, extension@) == Some(s@),
            None => bs_compiler_asset_spec(source_file@, package_path@, package_name@, namespace@, root_path@, extension@) is None,
        },
{
    let plain = Namespace::NoNamespace;
    let ns = if same_text(extension, "ast") || same_text(extension, "iast") {
        &plain
    } else {
        namespace
    };
    let rel = match strip_prefix(source_file, package_path) {
        Some(rel) => rel,
        None => return None,
    };
    let dir = match parent(rel.as_str()) {
        Some(dir) => dir,
        None => return None,
    };
    let base = match file_path_to_compiler_asset_basename(source_file, ns) {
        Some(b) => b,
        None => return None,
    };
    let build = get_bs_build_path(root_path, package_name);
    let d = path_join(build.as_str(), dir.as_str());
    let f = base.concat(extension);
    Some(path_join(d.as_str(), f.as_str()))
}

} // verus!
