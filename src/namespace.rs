//! Namespaces of packages and the module names of their source files.

use convert_case::{Case, Casing};
use crate::paths::{file_stem_of, get_basename};
use vstd::prelude::*;
use vstd::string::*;

verus! {

/// How the modules of a package are grouped under one compiled name.
pub enum Namespace {
    Namespace(String),
    NamespaceWithEntry { namespace: String, entry: String },
    NoNamespace,
}

/// The `namespace` field of a package's config.
pub enum NamespaceSetting {
    Bool(bool),
    String(String),
}

/// What a namespace looks like to contracts.
pub enum NamespaceView {
    Plain(Seq<char>),
    WithEntry(Seq<char>, Seq<char>),
    Absent,
}

impl View for Namespace {
    type V = NamespaceView;

    open spec fn view(&self) -> NamespaceView {
        match self {
            Namespace::Namespace(n) => NamespaceView::Plain(n@),
            Namespace::NamespaceWithEntry { namespace, entry } => NamespaceView::WithEntry(
                namespace@,
                entry@,
            ),
            Namespace::NoNamespace => NamespaceView::Absent,
        }
    }
}

/// The PascalCase form of a string, as convert_case computes it.
pub uninterp spec fn pascal_of(s: Seq<char>) -> Seq<char>;

/// The UPPERFLATCASE form of a string, as convert_case computes it.
pub uninterp spec fn upper_flat_of(s: Seq<char>) -> Seq<char>;

/// The upper-case form of one character, as `char::to_uppercase` yields it.
pub uninterp spec fn upper_char_of(c: char) -> Seq<char>;

/// Relies on convert_case's `Casing::to_case` with `Case::Pascal`.
#[verifier::external_body]
fn to_pascal(s: &str) -> (r: String)
    ensures
        r@ == pascal_of(s@),
{
    s.to_case(Case::Pascal)
}

/// Relies on convert_case's `Casing::is_case`, which compares the string with
/// its `to_case` conversion.
#[verifier::external_body]
fn is_upper_flat(s: &str) -> (r: bool)
    ensures
        r == (upper_flat_of(s@) == s@),
{
    s.is_case(Case::UpperFlat)
}

/// Relies on `char::to_uppercase`, collected into a string.
#[verifier::external_body]
fn upper_char(c: char) -> (r: String)
    ensures
        r@ == upper_char_of(c),
{
    c.to_uppercase().collect::<String>()
}

/// `s` with its first character in upper case.
pub open spec fn capitalize_spec(s: Seq<char>) -> Seq<char> {
    if s.len() == 0 {
        s
    } else {
        upper_char_of(s[0]) + s.drop_first()
    }
}

/// Capitalizes the first character in s.
fn capitalize(s: &str) -> (r: String)
    ensures
        r@ == capitalize_spec(s@),
{
    let n = s.unicode_len();
    if n == 0 {
        String::new()
    } else {
        let first = upper_char(s.get_char(0));
        let rest = s.substring_char(1, n);
        proof {
            assert(rest@ =~= s@.drop_first());
        }
        first.concat(rest)
    }
}

/// `s` with every occurrence of `from` replaced by `to`.
pub open spec fn replace_char(s: Seq<char>, from: char, to: Seq<char>) -> Seq<char>
    decreases s.len(),
{
    if s.len() == 0 {
        s
    } else {
        let head = if s[0] == from {
            to
        } else {
            seq![s[0]]
        };
        head + replace_char(s.drop_first(), from, to)
    }
}

proof fn lemma_replace_char_push(s: Seq<char>, from: char, to: Seq<char>, c: char)
    ensures
        replace_char(s.push(c), from, to) == replace_char(s, from, to) + (if c == from {
            to
        } else {
            seq![c]
        }),
    decreases s.len(),
{
    if s.len() == 0 {
        assert(s.push(c).drop_first() =~= s);
    } else {
        assert(s.push(c).drop_first() =~= s.drop_first().push(c));
        lemma_replace_char_push(s.drop_first(), from, to, c);
    }
}

/// The package name with scope markers dropped and path separators turned
/// into underscores, before the case conversion.
pub open spec fn flatten_package_name(name: Seq<char>) -> Seq<char> {
    replace_char(replace_char(name, '@', seq![]), '/', seq!['_'])
}

/// The namespace that a package named `name` gets by default.
pub open spec fn derived_namespace(name: Seq<char>) -> Seq<char> {
    pascal_of(flatten_package_name(name))
}

fn replace_all(s: &str, from: char, to: &str) -> (r: String)
    ensures
        r@ == replace_char(s@, from, to@),
{
    let n = s.unicode_len();
    let mut r = String::new();
    let mut i: usize = 0;
    while i < n
        invariant
            n == s@.len(),
            i <= n,
            r@ == replace_char(s@.subrange(0, i as int), from, to@),
        decreases n - i,
    {
        let c = s.get_char(i);
        proof {
            assert(s@.subrange(0, i + 1) =~= s@.subrange(0, i as int).push(c));
            lemma_replace_char_push(s@.subrange(0, i as int), from, to@, c);
        }
        if c == from {
            r.append(to);
        } else {
            let mut buf = String::new();
            buf.append(s.substring_char(i, i + 1));
            proof {
                assert(buf@ =~= seq![c]);
            }
            r.append(buf.as_str());
        }
        i = i + 1;
    }
    proof {
        assert(s@.subrange(0, n as int) =~= s@);
    }
    r
}

/// The default namespace of a package: its name without `@`, with `/` turned
/// into `_`, in PascalCase.
pub fn namespace_from_package_name(package_name: &str) -> (r: String)
    ensures
        r@ == derived_namespace(package_name@),
{
    let a = replace_all(package_name, '@', "");
    let b = replace_all(a.as_str(), '/', "_");
    proof {
        reveal_strlit("");
        reveal_strlit("_");
        assert(""@ =~= Seq::<char>::empty());
        assert("_"@ =~= seq!['_']);
    }
    to_pascal(b.as_str())
}


/// Whether two strings hold the same characters.
pub fn same_text(a: &str, b: &str) -> (r: bool)
    ensures
        r == (a@ == b@),
{
    String::from_str(a) == String::from_str(b)
}

/// The namespace name that a string setting stands for, in a package named
/// `name`.
pub open spec fn namespace_name_spec(setting: Seq<char>, name: Seq<char>) -> Seq<char> {
    if setting == "true"@ {
        derived_namespace(name)
    } else if upper_flat_of(setting) == setting {
        setting
    } else {
        pascal_of(setting)
    }
}

/// The namespace of a package named `name`, from its config's `namespace`
/// and `entry` fields.
pub open spec fn namespace_spec(
    name: Seq<char>,
    setting: Option<NamespaceSetting>,
    entry: Option<String>,
) -> NamespaceView {
    let ns = match setting {
        None => None,
        Some(NamespaceSetting::Bool(false)) => None,
        Some(NamespaceSetting::Bool(true)) => Some(derived_namespace(name)),
        Some(NamespaceSetting::String(s)) => Some(namespace_name_spec(s@, name)),
    };
    match ns {
        None => NamespaceView::Absent,
        Some(n) => match entry {
            None => NamespaceView::Plain(n),
            Some(e) => NamespaceView::WithEntry(n, e@),
        },
    }
}

fn namespace_name(setting: &str, name: &str) -> (r: String)
    ensures
        r@ == namespace_name_spec(setting@, name@),
{
    if same_text(setting, "true") {
        namespace_from_package_name(name)
    } else if is_upper_flat(setting) {
        String::from_str(setting)
    } else {
        to_pascal(setting)
    }
}

/// The namespace of a package named `name`: none when the setting is absent
/// or false; the name derived from the package name when it is true or the
/// string "true"; a string that is already UPPERFLATCASE as it stands; any
/// other string in PascalCase. An entry makes it a namespace with an entry.
pub fn resolve_namespace(
    name: &str,
    setting: &Option<NamespaceSetting>,
    entry: &Option<String>,
) -> (r: Namespace)
    ensures
        r@ == namespace_spec(name@, *setting, *entry),
{
    let ns = match setting {
        None => None,
        Some(NamespaceSetting::Bool(false)) => None,
        Some(NamespaceSetting::Bool(true)) => Some(namespace_from_package_name(name)),
        Some(NamespaceSetting::String(s)) => Some(namespace_name(s.as_str(), name)),
    };
    match ns {
        None => Namespace::NoNamespace,
        Some(n) => match entry {
            None => Namespace::Namespace(n),
            Some(e) => Namespace::NamespaceWithEntry { namespace: n, entry: e.clone() },
        },
    }
}

/// The module that a namespace adds to its package: the namespace itself, or
/// `"@"` and the namespace where it has an entry.
pub open spec fn suffix_spec(ns: NamespaceView) -> Option<Seq<char>> {
    match ns {
        NamespaceView::Plain(n) => Some(n),
        NamespaceView::WithEntry(n, _) => Some(seq!['@'] + n),
        NamespaceView::Absent => None,
    }
}

impl Namespace {
    /// The synthetic module name of this namespace, if any.
    pub fn to_suffix(&self) -> (r: Option<String>)
        ensures
            match r {
                None => suffix_spec(self@) is None,
                Some(s) => suffix_spec(self@) == Some(s@),
            },
    {
        match self {
            Namespace::Namespace(namespace) => Some(namespace.clone()),
            Namespace::NamespaceWithEntry { namespace, .. } => {
                proof {
                    reveal_strlit("@");
                }
                Some(String::from_str("@").concat(namespace.as_str()))
            },
            Namespace::NoNamespace => None,
        }
    }
}

/// `base` with the namespace attached by `-`, except for the namespace's
/// entry file, which keeps its bare name.
pub open spec fn add_suffix_spec(base: Seq<char>, ns: NamespaceView) -> Seq<char> {
    match ns {
        NamespaceView::WithEntry(n, e) => if e == base {
            base
        } else {
            base + seq!['-'] + n
        },
        NamespaceView::Plain(n) => base + seq!['-'] + n,
        NamespaceView::Absent => base,
    }
}

fn add_suffix(base: &str, namespace: &Namespace) -> (r: String)
    ensures
        r@ == add_suffix_spec(base@, namespace@),
{
    proof {
        reveal_strlit("-");
    }
    match namespace {
        Namespace::NamespaceWithEntry { namespace, entry } => {
            if same_text(entry.as_str(), base) {
                String::from_str(base)
            } else {
                String::from_str(base).concat("-").concat(namespace.as_str())
            }
        },
        Namespace::Namespace(namespace) => String::from_str(base).concat("-").concat(
            namespace.as_str(),
        ),
        Namespace::NoNamespace => String::from_str(base),
    }
}

/// The module name of a module called `module_name` in a package with this
/// namespace.
pub fn module_name_with_namespace(module_name: &str, namespace: &Namespace) -> (r: String)
    ensures
        r@ == capitalize_spec(add_suffix_spec(module_name@, namespace@)),
{
    let s = add_suffix(module_name, namespace);
    capitalize(s.as_str())
}


/// The base name of the compiler's outputs for the source file at `path`:
/// its stem with the namespace attached.
pub open spec fn asset_basename_spec(path: Seq<char>, ns: NamespaceView) -> Option<Seq<char>> {
    match file_stem_of(path) {
        Some(b) => Some(add_suffix_spec(b, ns)),
        None => None,
    }
}

/// The module name of the source file at `path`.
pub open spec fn module_of(path: Seq<char>, ns: NamespaceView) -> Option<Seq<char>> {
    match asset_basename_spec(path, ns) {
        Some(b) => Some(capitalize_spec(b)),
        None => None,
    }
}

/// The base name of the compiler's outputs for the file at `path`; unlike
/// the module name it keeps the case of the file name. `None` where the path
/// names no file.
pub fn file_path_to_compiler_asset_basename(path: &str, namespace: &Namespace) -> (r: Option<String>)
    ensures
        match r {
            Some(s) => asset_basename_spec(path@, namespace@) == Some(s@),
            None => asset_basename_spec(path@, namespace@) is None,
        },
{
    match get_basename(path) {
        Some(base) => Some(add_suffix(base.as_str(), namespace)),
        None => None,
    }
}

/// The module name of the source file at `path`. `None` where the path
/// names no file.
pub fn file_path_to_module_name(path: &str, namespace: &Namespace) -> (r: Option<String>)
    ensures
        match r {
            Some(s) => module_of(path@, namespace@) == Some(s@),
            None => module_of(path@, namespace@) is None,
        },
{
    match file_path_to_compiler_asset_basename(path, namespace) {
        Some(b) => Some(capitalize(b.as_str())),
        None => None,
    }
}

} // verus!
