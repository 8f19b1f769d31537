//! Paths of packages and of their build outputs, and the classification of
//! source files by extension.

use std::path::Path;
use crate::namespace::same_text;
use vstd::prelude::*;
use vstd::string::*;

verus! {

/// `a + "/" + b`.
pub open spec fn join_spec(a: Seq<char>, b: Seq<char>) -> Seq<char> {
    a + seq!['/'] + b
}

/// Where a dependency named `package_name` lives under `root`.
pub open spec fn package_path_spec(root: Seq<char>, package_name: Seq<char>) -> Seq<char> {
    join_spec(join_spec(root, "node_modules"@), package_name)
}

pub(crate) fn join(a: &str, b: &str) -> (r: String)
    ensures
        r@ == join_spec(a@, b@),
{
    let r = String::from_str(a);
    let r = r.concat("/");
    proof {
        reveal_strlit("/");
    }
    r.concat(b)
}

/// The directory of the dependency `package_name` of the project at `root`.
pub fn get_package_path(root: &str, package_name: &str) -> (r: String)
    ensures
        r@ == package_path_spec(root@, package_name@),
{
    let nm = join(root, "node_modules");
    join(nm.as_str(), package_name)
}


/// The `node_modules` directory of the project at `root`.
pub fn get_node_modules_path(root: &str) -> (r: String)
    ensures
        r@ == join_spec(root@, "node_modules"@),
{
    join(root, "node_modules")
}

/// Where the compiler's outputs for `package_name` go.
pub open spec fn build_path_spec(root: Seq<char>, package_name: Seq<char>) -> Seq<char> {
    join_spec(join_spec(package_path_spec(root, package_name), "lib"@), "ocaml"@)
}

/// Where the mirrored build tree of `package_name` goes.
pub open spec fn bs_build_path_spec(root: Seq<char>, package_name: Seq<char>) -> Seq<char> {
    join_spec(join_spec(package_path_spec(root, package_name), "lib"@), "bs"@)
}

/// The directory of the compiler's outputs for `package_name`.
pub fn get_build_path(root: &str, package_name: &str) -> (r: String)
    ensures
        r@ == build_path_spec(root@, package_name@),
{
    let p = get_package_path(root, package_name);
    let l = join(p.as_str(), "lib");
    join(l.as_str(), "ocaml")
}

/// The directory of the mirrored build tree of `package_name`.
pub fn get_bs_build_path(root: &str, package_name: &str) -> (r: String)
    ensures
        r@ == bs_build_path_spec(root@, package_name@),
{
    let p = get_package_path(root, package_name);
    let l = join(p.as_str(), "lib");
    join(l.as_str(), "bs")
}

/// `root/package_name/file`.
pub fn get_path(root: &str, package_name: &str, file: &str) -> (r: String)
    ensures
        r@ == join_spec(join_spec(root@, package_name@), file@),
{
    let p = join(root, package_name);
    join(p.as_str(), file)
}

/// The module map of a namespace.
pub fn get_mlmap_path(root_path: &str, package_name: &str, namespace: &str) -> (r: String)
    ensures
        r@ == join_spec(build_path_spec(root_path@, package_name@), namespace@ + ".mlmap"@),
{
    let b = get_build_path(root_path, package_name);
    let f = String::from_str(namespace).concat(".mlmap");
    join(b.as_str(), f.as_str())
}

/// The compiled interface of a namespace's module map.
pub fn get_mlmap_compile_path(root_path: &str, package_name: &str, namespace: &str) -> (r: String)
    ensures
        r@ == join_spec(build_path_spec(root_path@, package_name@), namespace@ + ".cmi"@),
{
    let b = get_build_path(root_path, package_name);
    let f = String::from_str(namespace).concat(".cmi");
    join(b.as_str(), f.as_str())
}

/// The stem of the file name of a path, as `Path::file_stem` gives it.
pub uninterp spec fn file_stem_of(path: Seq<char>) -> Option<Seq<char>>;

/// `path` relative to `base`, as `Path::strip_prefix` gives it.
pub uninterp spec fn strip_prefix_of(path: Seq<char>, base: Seq<char>) -> Option<Seq<char>>;

/// The parent of a path, as `Path::parent` gives it.
pub uninterp spec fn parent_of(path: Seq<char>) -> Option<Seq<char>>;

/// Whether `s` ends with `suffix`.
pub open spec fn ends_with(s: Seq<char>, suffix: Seq<char>) -> bool {
    suffix.len() <= s.len() && s.subrange(s.len() - suffix.len(), s.len() as int) == suffix
}

/// Whether `file` is the parse tree of an interface.
pub fn is_interface_ast_file(file: &str) -> (r: bool)
    ensures
        r == ends_with(file@, ".iast"@),
{
    proof {
        reveal_strlit(".iast");
    }
    let n = file.unicode_len();
    if n < 5 {
        false
    } else {
        let tail = file.substring_char(n - 5, n);
        same_text(tail, ".iast")
    }
}

/// Whether `c` is an ASCII letter or digit.
pub open spec fn is_ascii_alnum(c: char) -> bool {
    ('0' <= c && c <= '9') || ('a' <= c && c <= 'z') || ('A' <= c && c <= 'Z')
}

/// Whether `s` holds an ASCII letter or digit.
pub fn contains_ascii_characters(s: &str) -> (r: bool)
    ensures
        r == exists|i: int| 0 <= i < s@.len() && is_ascii_alnum(#[trigger] s@[i]),
{
    let n = s.unicode_len();
    let mut i: usize = 0;
    while i < n
        invariant
            i <= n,
            n == s@.len(),
            forall|j: int| 0 <= j < i ==> !is_ascii_alnum(#[trigger] s@[j]),
        decreases n - i,
    {
        let c = s.get_char(i);
        if ('0' <= c && c <= '9') || ('a' <= c && c <= 'z') || ('A' <= c && c <= 'Z') {
            return true;
        }
        i = i + 1;
    }
    false
}

/// The index of the first `c` in `s`, or -1.
pub open spec fn first_index_of(s: Seq<char>, c: char) -> int
    decreases s.len(),
{
    if s.len() == 0 {
        -1
    } else if s[0] == c {
        0
    } else {
        let k = first_index_of(s.drop_first(), c);
        if k < 0 {
            -1
        } else {
            k + 1
        }
    }
}

proof fn lemma_first_index(s: Seq<char>, c: char, i: int)
    requires
        0 <= i <= s.len(),
        forall|j: int| 0 <= j < i ==> s[j] != c,
    ensures
        i < s.len() && s[i] == c ==> first_index_of(s, c) == i,
        i == s.len() ==> first_index_of(s, c) == -1,
    decreases i,
{
    if i > 0 {
        lemma_first_index(s.drop_first(), c, i - 1);
    }
}

fn find_char(s: &str, c: char, from: usize) -> (r: usize)
    requires
        from <= s@.len(),
    ensures
        from <= r <= s@.len(),
        first_index_of(s@.subrange(from as int, s@.len() as int), c) == if r == s@.len() {
            -1
        } else {
            r - from
        },
{
    let n = s.unicode_len();
    let mut i: usize = from;
    let ghost t = s@.subrange(from as int, n as int);
    while i < n
        invariant
            from <= i <= n,
            n == s@.len(),
            t == s@.subrange(from as int, n as int),
            forall|j: int| 0 <= j < i - from ==> t[j] != c,
        decreases n - i,
    {
        if s.get_char(i) == c {
            proof {
                lemma_first_index(t, c, i - from);
            }
            return i;
        }
        i = i + 1;
    }
    proof {
        lemma_first_index(t, c, n - from);
    }
    n
}

/// The namespace part of a module name `Module-Namespace`: what follows its
/// first `-`, up to the next one.
pub open spec fn namespace_of_module_spec(m: Seq<char>) -> Option<Seq<char>> {
    let k = first_index_of(m, '-');
    if k < 0 {
        None
    } else {
        let rest = m.subrange(k + 1, m.len() as int);
        let e = first_index_of(rest, '-');
        Some(rest.subrange(0, if e < 0 { rest.len() as int } else { e }))
    }
}

/// The namespace that a module name carries, if any.
pub fn get_namespace_from_module_name(module_name: &str) -> (r: Option<String>)
    ensures
        match r {
            Some(s) => namespace_of_module_spec(module_name@) == Some(s@),
            None => namespace_of_module_spec(module_name@) is None,
        },
{
    let n = module_name.unicode_len();
    let k = find_char(module_name, '-', 0);
    proof {
        assert(module_name@.subrange(0, n as int) =~= module_name@);
    }
    if k == n {
        None
    } else {
        let e = find_char(module_name, '-', k + 1);
        proof {
            let rest = module_name@.subrange(k + 1, n as int);
            assert(rest.subrange(0, e - (k + 1)) =~= module_name@.subrange(k + 1, e as int));
            assert(rest.subrange(0, rest.len() as int) =~= rest);
        }
        Some(String::from_str(module_name.substring_char(k + 1, e)))
    }
}

/// `a` joined with `b`, as `Path::join` gives it.
pub uninterp spec fn path_join_of(a: Seq<char>, b: Seq<char>) -> Seq<char>;

/// Relies on `Path::join`: `b` appended to `a` as a path component, or `b`
/// itself where it is absolute.
#[verifier::external_body]
pub(crate) fn path_join(a: &str, b: &str) -> (r: String)
    ensures
        r@ == path_join_of(a@, b@),
{
    Path::new(a).join(b).to_string_lossy().into_owned()
}

/// `path` with its extension replaced, as `Path::with_extension` gives it.
pub uninterp spec fn with_extension_of(path: Seq<char>, extension: Seq<char>) -> Seq<char>;

/// Relies on `Path::with_extension`.
#[verifier::external_body]
fn with_extension(path: &str, extension: &str) -> (r: String)
    ensures
        r@ == with_extension_of(path@, extension@),
{
    Path::new(path).with_extension(extension).to_string_lossy().into_owned()
}

/// `path` with its extension replaced by `new_extension`.
pub fn change_extension(path: &str, new_extension: &str) -> (r: String)
    ensures
        r@ == with_extension_of(path@, new_extension@),
{
    with_extension(path, new_extension)
}

/// Relies on `Path::file_stem`: the file name without its extension, if the
/// path has a file name. A stem of a `&str` path is valid UTF-8.
#[verifier::external_body]
fn file_stem(path: &str) -> (r: Option<String>)
    ensures
        match r {
            Some(s) => file_stem_of(path@) == Some(s@),
            None => file_stem_of(path@) is None,
        },
{
    Path::new(path).file_stem().map(|s| s.to_string_lossy().into_owned())
}

/// Relies on `Path::strip_prefix`: the rest of `path` after the components
/// of `base`, if `base` is a prefix of it.
#[verifier::external_body]
pub(crate) fn strip_prefix(path: &str, base: &str) -> (r: Option<String>)
    ensures
        match r {
            Some(s) => strip_prefix_of(path@, base@) == Some(s@),
            None => strip_prefix_of(path@, base@) is None,
        },
{
    Path::new(path).strip_prefix(base).ok().map(|p| p.to_string_lossy().into_owned())
}

/// Relies on `Path::parent`: the path without its last component, if it has
/// one.
#[verifier::external_body]
pub(crate) fn parent(path: &str) -> (r: Option<String>)
    ensures
        match r {
            Some(s) => parent_of(path@) == Some(s@),
            None => parent_of(path@) is None,
        },
{
    Path::new(path).parent().map(|p| p.to_string_lossy().into_owned())
}

/// The stem of the file that `path` names, or `None` where the path names no
/// file.
pub fn get_basename(path: &str) -> (r: Option<String>)
    ensures
        match r {
            Some(s) => file_stem_of(path@) == Some(s@),
            None => file_stem_of(path@) is None,
        },
{
    file_stem(path)
}

} // verus!
