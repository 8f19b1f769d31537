//! Absolute paths computed from the text of a path alone, without asking the
//! filesystem: `.` is dropped and `..` removes the component before it.

use crate::namespace::same_text;
use std::path::Path;
use vstd::prelude::*;
use vstd::string::*;

verus! {

/// The components of a path, as `Path::components` yields them, each as
/// text: `/` for the root, `.` and `..`, and the plain names.
pub uninterp spec fn components_of(path: Seq<char>) -> Seq<Seq<char>>;

/// Relies on `Path::components`, with each component's text.
#[verifier::external_body]
fn components(path: &str) -> (r: Vec<String>)
    ensures
        r@.map_values(|c: String| c@) == components_of(path@),
{
    Path::new(path).components().map(|c| c.as_os_str().to_string_lossy().into_owned()).collect()
}

/// The directories below the root after one more component.
pub open spec fn step(stack: Seq<Seq<char>>, c: Seq<char>) -> Seq<Seq<char>> {
    if c == "/"@ {
        Seq::empty()
    } else if c == "."@ {
        stack
    } else if c == ".."@ {
        if stack.len() > 0 {
            stack.drop_last()
        } else {
            stack
        }
    } else {
        stack.push(c)
    }
}

/// The directories below the root after the components `comps`, from
/// `stack`.
pub open spec fn walk(stack: Seq<Seq<char>>, comps: Seq<Seq<char>>) -> Seq<Seq<char>>
    decreases comps.len(),
{
    if comps.len() == 0 {
        stack
    } else {
        step(walk(stack, comps.drop_last()), comps.last())
    }
}

/// The absolute path of the directories `segs` below the root.
pub open spec fn render(segs: Seq<Seq<char>>) -> Seq<char>
    decreases segs.len(),
{
    if segs.len() == 0 {
        "/"@
    } else if segs.len() == 1 {
        "/"@ + segs[0]
    } else {
        render(segs.drop_last()) + "/"@ + segs.last()
    }
}

/// The absolute form of `path`, relative paths being taken from the
/// absolute directory `cwd`.
pub open spec fn lexical_absolute_spec(cwd: Seq<char>, path: Seq<char>) -> Seq<char> {
    render(walk(walk(Seq::empty(), components_of(cwd)), components_of(path)))
}

fn walk_exec(stack: &mut Vec<String>, comps: &Vec<String>)
    ensures
        final(stack)@.map_values(|c: String| c@) == walk(
            old(stack)@.map_values(|c: String| c@),
            comps@.map_values(|c: String| c@),
        ),
{
    let ghost start = stack@.map_values(|c: String| c@);
    let ghost cs = comps@.map_values(|c: String| c@);
    let mut i: usize = 0;
    while i < comps.len()
        invariant
            i <= comps@.len(),
            cs == comps@.map_values(|c: String| c@),
            stack@.map_values(|c: String| c@) == walk(start, cs.subrange(0, i as int)),
        decreases comps.len() - i,
    {
        let c = comps[i].as_str();
        let ghost pre = stack@.map_values(|c: String| c@);
        proof {
            assert(cs.subrange(0, i + 1).drop_last() =~= cs.subrange(0, i as int));
            assert(cs.subrange(0, i + 1).last() == c@);
        }
        if same_text(c, "/") {
            stack.clear();
            assert(stack@.map_values(|c: String| c@) =~= Seq::<Seq<char>>::empty());
        } else if same_text(c, ".") {
        } else if same_text(c, "..") {
            if stack.len() > 0 {
                stack.pop();
                assert(stack@.map_values(|c: String| c@) =~= pre.drop_last());
            }
        } else {
            stack.push(String::from_str(c));
            assert(stack@.map_values(|c: String| c@) =~= pre.push(c@));
        }
        i = i + 1;
    }
    assert(cs.subrange(0, comps@.len() as int) =~= cs);
}

/// The absolute form of `path`, from its text alone: relative paths are
/// taken from `cwd`, which is absolute; `.` components are dropped and `..`
/// removes the directory before it, never going above the root.
pub fn lexical_absolute(cwd: &str, path: &str) -> (r: String)
    ensures
        r@ == lexical_absolute_spec(cwd@, path@),
{
    let mut stack: Vec<String> = Vec::new();
    assert(stack@.map_values(|c: String| c@) =~= Seq::<Seq<char>>::empty());
    let base = components(cwd);
    walk_exec(&mut stack, &base);
    let comps = components(path);
    walk_exec(&mut stack, &comps);
    let ghost segs = stack@.map_values(|c: String| c@);
    proof {
        reveal_strlit("/");
    }
    let mut r = String::from_str("/");
    let mut i: usize = 0;
    while i < stack.len()
        invariant
            i <= stack@.len(),
            segs == stack@.map_values(|c: String| c@),
            i == 0 ==> r@ == "/"@,
            i > 0 ==> r@ == render(segs.subrange(0, i as int)),
        decreases stack.len() - i,
    {
        proof {
            assert(segs.subrange(0, i + 1).drop_last() =~= segs.subrange(0, i as int));
            assert(segs.subrange(0, i + 1).last() == stack@[i as int]@);
        }
        if i > 0 {
            r.append("/");
        }
        r.append(stack[i].as_str());
        i = i + 1;
    }
    proof {
        assert(segs.subrange(0, segs.len() as int) =~= segs);
    }
    r
}

/// The absolute form of `path`, taking relative paths from `cwd`.
pub fn get_abs_path(cwd: &str, path: &str) -> (r: String)
    ensures
        r@ == lexical_absolute_spec(cwd@, path@),
{
    lexical_absolute(cwd, path)
}

/// Paths that can be made absolute from their text alone.
pub trait LexicalAbsolute {
    /// The absolute form of `self`, taking a relative path from `cwd`.
    fn to_lexical_absolute(&self, cwd: &str) -> (r: String);
}

impl LexicalAbsolute for String {
    fn to_lexical_absolute(&self, cwd: &str) -> (r: String)
        ensures
            r@ == lexical_absolute_spec(cwd@, self@),
    {
        lexical_absolute(cwd, self.as_str())
    }
}

} // verus!
