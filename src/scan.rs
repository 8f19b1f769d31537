//! What a scan of a source folder keeps: which folders are read and how deep,
//! and which directory entries become source files.

use crate::config::{FolderView, SourceFolder};
use crate::paths::{join, join_spec};
use crate::namespace::same_text;
use regex::Regex;
use vstd::prelude::*;
use vstd::string::*;

verus! {

#[verifier::external_type_specification]
#[verifier::external_body]
pub struct ExRegex(Regex);

#[verifier::external_type_specification]
#[verifier::external_body]
pub struct ExRegexError(regex::Error);

/// Whether the regular expression `pattern` matches somewhere in `text`.
pub uninterp spec fn regex_accepts(pattern: Seq<char>, text: Seq<char>) -> bool;

/// A file-name filter: a regular expression and the pattern it was compiled
/// from.
pub struct Filter {
    pattern: String,
    re: Regex,
}

impl Filter {
    /// The pattern of the filter.
    pub closed spec fn pattern(&self) -> Seq<char> {
        self.pattern@
    }

    /// Compiles `pattern`; a pattern that is not a valid regular expression
    /// gives the compiler's error.
    pub fn new(pattern: &str) -> (r: Result<Filter, regex::Error>)
        ensures
            r matches Ok(f) ==> f.pattern() == pattern@,
    {
        match compile(pattern) {
            Ok(re) => Ok(Filter { pattern: String::from_str(pattern), re }),
            Err(e) => Err(e),
        }
    }
}

/// Relies on `regex::Regex::new`.
#[verifier::external_body]
fn compile(pattern: &str) -> (r: Result<Regex, regex::Error>) {
    Regex::new(pattern)
}

/// Relies on `regex::Regex::is_match`: whether the filter's expression,
/// which `Filter::new` compiled from its pattern, matches somewhere in
/// `text`.
#[verifier::external_body]
fn regex_is_match(f: &Filter, text: &str) -> (r: bool)
    ensures
        r == regex_accepts(f.pattern(), text@),
{
    f.re.is_match(text)
}

/// Whether a name passes the filter.
pub open spec fn filter_accepts(filter: Option<Filter>, text: Seq<char>) -> bool {
    match filter {
        Some(f) => regex_accepts(f.pattern(), text),
        None => true,
    }
}

/// The key of a file named `name` found in the directory `dir`.
pub fn file_key(dir: &str, name: &str) -> (r: String)
    ensures
        r@ == join_spec(dir@, name@),
{
    join(dir, name)
}

/// The time a file was last modified, in nanoseconds since the Unix epoch.
pub struct SourceFileMeta {
    pub modified: u128,
}

/// Whether a file name passes the filter; every name passes when there is
/// none.
pub fn matches_filter(filter: &Option<Filter>, path: &str) -> (r: bool)
    ensures
        r == filter_accepts(*filter, path@),
{
    match filter {
        Some(re) => regex_is_match(re, path),
        None => true,
    }
}

/// How a source folder is scanned: not at all (`None`) when it holds
/// development sources, else with the recursion flag of its spec.
pub open spec fn scan_mode_spec(f: FolderView) -> Option<bool> {
    if f.type_ == Some("dev"@) {
        None
    } else {
        Some(f.recurse == Some(true))
    }
}

/// Whether and how deep to read a source folder: development folders are
/// left out of the scan, others are walked recursively exactly when their
/// spec asks for it.
pub fn scan_mode(folder: &SourceFolder) -> (r: Option<bool>)
    ensures
        r == scan_mode_spec(folder@),
{
    let dev = match &folder.type_ {
        Some(t) => same_text(t.as_str(), "dev"),
        None => false,
    };
    if dev {
        None
    } else {
        Some(
            match folder.recurse {
                Some(b) => b,
                None => false,
            },
        )
    }
}

/// The index of the last `c` in `s`, or -1.
pub open spec fn last_index_of(s: Seq<char>, c: char) -> int
    decreases s.len(),
{
    if s.len() == 0 {
        -1
    } else if s.last() == c {
        s.len() - 1
    } else {
        last_index_of(s.drop_last(), c)
    }
}

proof fn lemma_last_index_bounds(s: Seq<char>, c: char)
    ensures
        -1 <= last_index_of(s, c) < s.len(),
        last_index_of(s, c) >= 0 ==> s[last_index_of(s, c)] == c,
    decreases s.len(),
{
    if s.len() > 0 && s.last() != c {
        lemma_last_index_bounds(s.drop_last(), c);
    }
}

/// The extension of a file name: what follows its last dot, where that dot
/// is not its first character; `..` has none.
pub open spec fn extension_spec(name: Seq<char>) -> Option<Seq<char>> {
    let k = last_index_of(name, '.');
    if name == ".."@ || k <= 0 {
        None
    } else {
        Some(name.subrange(k + 1, name.len() as int))
    }
}

/// The extension of the file name `name`.
pub fn extension_of(name: &str) -> (r: Option<String>)
    ensures
        match r {
            Some(e) => extension_spec(name@) == Some(e@),
            None => extension_spec(name@) is None,
        },
{
    let n = name.unicode_len();
    let mut k: usize = n;
    let mut found = false;
    proof {
        assert(name@.subrange(0, n as int) =~= name@);
    }
    while k > 0 && !found
        invariant
            k <= n,
            n == name@.len(),
            last_index_of(name@, '.') == (if found {
                k - 1
            } else {
                last_index_of(name@.subrange(0, k as int), '.')
            }),
            found ==> k > 0,
        decreases k + (if found { 0int } else { 1int }),
    {
        let c = name.get_char(k - 1);
        proof {
            assert(name@.subrange(0, k - 1) =~= name@.subrange(0, k as int).drop_last());
        }
        if c == '.' {
            found = true;
        } else {
            k = k - 1;
        }
    }
    proof {
        lemma_last_index_bounds(name@, '.');
        if !found {
            assert(name@.subrange(0, 0) =~= Seq::<char>::empty());
        }
    }
    if !found {
        k = 0;
    }
    // k is one past the last dot, or 0 when there is none
    if same_text(name, "..") || k <= 1 {
        None
    } else {
        Some(String::from_str(name.substring_char(k, n)))
    }
}


/// The extensions of interface sources.
pub open spec fn is_interface_ext(e: Seq<char>) -> bool {
    e == "resi"@ || e == "mli"@ || e == "rei"@
}

/// The extensions of implementation sources.
pub open spec fn is_implementation_ext(e: Seq<char>) -> bool {
    e == "res"@ || e == "ml"@ || e == "re"@
}

/// Whether `extension` is that of an interface source.
pub fn is_interface_file(extension: &str) -> (r: bool)
    ensures
        r == is_interface_ext(extension@),
{
    same_text(extension, "resi") || same_text(extension, "mli") || same_text(extension, "rei")
}

/// Whether `extension` is that of an implementation source.
pub fn is_implementation_file(extension: &str) -> (r: bool)
    ensures
        r == is_implementation_ext(extension@),
{
    same_text(extension, "res") || same_text(extension, "ml") || same_text(extension, "re")
}

/// Whether `extension` is that of a source file of either kind.
pub fn is_source_file(extension: &str) -> (r: bool)
    ensures
        r == (is_interface_ext(extension@) || is_implementation_ext(extension@)),
{
    is_interface_file(extension) || is_implementation_file(extension)
}

/// Whether a file name has the extension of a source file.
pub open spec fn has_source_ext(name: Seq<char>) -> bool {
    match extension_spec(name) {
        Some(e) => is_interface_ext(e) || is_implementation_ext(e),
        None => false,
    }
}

/// What a scan makes of a file that is not a source file, of one that it
/// keeps, and of one that the filter leaves out.
pub enum EntryVerdict {
    NotSource,
    Included,
    Filtered,
}

/// What a scan does with one directory entry: whether it walks into it, and
/// what it makes of it as a file.
pub struct EntryAction {
    pub descend: bool,
    pub verdict: EntryVerdict,
}

/// The verdict on an entry named `name`, where `name_matches` says whether
/// the filter accepts the name.
pub open spec fn verdict_spec(name: Seq<char>, is_dir: bool, name_matches: bool) -> EntryVerdict {
    if is_dir || !has_source_ext(name) {
        EntryVerdict::NotSource
    } else if name_matches {
        EntryVerdict::Included
    } else {
        EntryVerdict::Filtered
    }
}

/// Decides on one directory entry: a directory is walked into only in a
/// recursive scan; a file is kept when its extension is that of a source
/// and its name passes the filter, and reported as filtered when only the
/// filter refuses it.
pub fn classify_entry(name: &str, is_dir: bool, recurse: bool, name_matches: bool) -> (r: EntryAction)
    ensures
        r.descend == (is_dir && recurse),
        r.verdict == verdict_spec(name@, is_dir, name_matches),
{
    let source = match extension_of(name) {
        Some(e) => is_source_file(e.as_str()),
        None => false,
    };
    let verdict = if is_dir || !source {
        EntryVerdict::NotSource
    } else if name_matches {
        EntryVerdict::Included
    } else {
        EntryVerdict::Filtered
    };
    EntryAction { descend: is_dir && recurse, verdict }
}

/// Decides on one directory entry, asking the filter about its name.
pub fn entry_action(filter: &Option<Filter>, name: &str, is_dir: bool, recurse: bool) -> (r: EntryAction)
    ensures
        r.descend == (is_dir && recurse),
        r.verdict == verdict_spec(name@, is_dir, filter_accepts(*filter, name@)),
{
    let m = matches_filter(filter, name);
    classify_entry(name, is_dir, recurse, m)
}

} // verus!
