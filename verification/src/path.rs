//! Lexical path operations with Unix semantics (`/` separates components).
//!
//! Paths are plain strings. A path is absolute when it starts with `/`; its
//! components are the non-empty pieces between separators. Nothing here
//! touches the filesystem.
use vstd::prelude::*;
use crate::text::{split_nonempty, split_nonempty_exec, join_with, join_strings, concat2, concat3, chars_of, eq_str};

verus! {

/// Whether `p` is absolute (starts with `/`).
pub open spec fn is_abs(p: Seq<char>) -> bool {
    p.len() > 0 && p[0] == '/'
}

/// Whether `p` is absolute (executable).
pub fn is_abs_exec(p: &str) -> (r: bool)
    ensures
        r == is_abs(p@),
{
    p.unicode_len() > 0 && p.get_char(0) == '/'
}

/// The components of `p`: the non-empty pieces between `/` separators.
pub open spec fn components(p: Seq<char>) -> Seq<Seq<char>> {
    split_nonempty(p, '/')
}

/// `base` joined with `seg`: an absolute `seg` replaces `base`; otherwise
/// `seg` is appended after a separator (none is added when `base` is empty
/// or already ends with `/`).
pub open spec fn path_join(base: Seq<char>, seg: Seq<char>) -> Seq<char> {
    if is_abs(seg) {
        seg
    } else if base.len() == 0 || base.last() == '/' {
        base + seg
    } else {
        base + "/"@ + seg
    }
}

/// `base` joined with `seg` (executable).
pub fn path_join_exec(base: &str, seg: &str) -> (r: String)
    ensures
        r@ == path_join(base@, seg@),
{
    if is_abs_exec(seg) {
        return seg.to_owned();
    }
    let n = base.unicode_len();
    if n == 0 || base.get_char(n - 1) == '/' {
        concat2(base, seg)
    } else {
        concat3(base, "/", seg)
    }
}

/// One step of lexical normalization: `..` removes the previous normal
/// component (or is kept when there is none), `.` is dropped.
pub open spec fn normalize_step(acc: Seq<Seq<char>>, c: Seq<char>) -> Seq<Seq<char>> {
    if c == ".."@ {
        if acc.len() > 0 && acc.last() != ".."@ {
            acc.drop_last()
        } else {
            acc.push(c)
        }
    } else if c == "."@ {
        acc
    } else {
        acc.push(c)
    }
}

/// Lexical normalization of a component sequence.
pub open spec fn normalize_components(cs: Seq<Seq<char>>) -> Seq<Seq<char>>
    decreases cs.len(),
{
    if cs.len() == 0 {
        Seq::empty()
    } else {
        normalize_step(normalize_components(cs.drop_last()), cs.last())
    }
}

/// The path written from an absolute flag and components.
pub open spec fn render_path(abs: bool, cs: Seq<Seq<char>>) -> Seq<char> {
    if abs {
        "/"@ + join_with(cs, "/"@)
    } else {
        join_with(cs, "/"@)
    }
}

/// `p` with `.` and `..` resolved lexically.
pub open spec fn normalize_path(p: Seq<char>) -> Seq<char> {
    render_path(is_abs(p), normalize_components(components(p)))
}

/// Whether the normalized form of `p` lies at or below the normalized form
/// of `root`, comparing whole components.
pub open spec fn normalized_within(p: Seq<char>, root: Seq<char>) -> bool {
    let pc = normalize_components(components(p));
    let rc = normalize_components(components(root));
    is_abs(p) == is_abs(root) && rc.len() <= pc.len() && pc.subrange(0, rc.len() as int) == rc
}

/// Normalized components of `p` (executable).
fn normalized_components_exec(p: &str) -> (r: Vec<String>)
    ensures
        r@.map_values(|x: String| x@) == normalize_components(components(p@)),
{
    let cs = split_nonempty_exec(p, '/');
    let ghost cv = cs@.map_values(|x: String| x@);
    let mut acc: Vec<String> = Vec::new();
    let mut i: usize = 0;
    while i < cs.len()
        invariant
            i <= cs.len(),
            cv == cs@.map_values(|x: String| x@),
            cv == components(p@),
            acc@.map_values(|x: String| x@) == normalize_components(cv.subrange(0, i as int)),
        decreases cs.len() - i,
    {
        let ghost before = acc@.map_values(|x: String| x@);
        assert(cv.subrange(0, i + 1).drop_last() =~= cv.subrange(0, i as int));
        let c = cs[i].as_str();
        if eq_str(c, "..") {
            let n = acc.len();
            if n > 0 && !eq_str(acc[n - 1].as_str(), "..") {
                acc.pop();
                assert(acc@.map_values(|x: String| x@) =~= before.drop_last());
            } else {
                acc.push(c.to_owned());
                assert(acc@.map_values(|x: String| x@) =~= before.push(c@));
            }
        } else if eq_str(c, ".") {
        } else {
            acc.push(c.to_owned());
            assert(acc@.map_values(|x: String| x@) =~= before.push(c@));
        }
        i = i + 1;
    }
    assert(cv.subrange(0, cs.len() as int) =~= cv);
    acc
}

/// Simple path normalization that resolves `.` and `..` without touching the filesystem.
///
/// This is a logical normalization only; it does not follow symlinks.
pub fn normalize_path_exec(p: &str) -> (r: String)
    ensures
        r@ == normalize_path(p@),
{
    let cs = normalized_components_exec(p);
    let joined = join_strings(&cs, "/");
    if is_abs_exec(p) {
        concat2("/", joined.as_str())
    } else {
        joined
    }
}

/// Whether the normalized form of `p` lies at or below that of `root` (executable).
pub fn normalized_within_exec(p: &str, root: &str) -> (r: bool)
    ensures
        r == normalized_within(p@, root@),
{
    let pc = normalized_components_exec(p);
    let rc = normalized_components_exec(root);
    let ghost pv = pc@.map_values(|x: String| x@);
    let ghost rv = rc@.map_values(|x: String| x@);
    if is_abs_exec(p) != is_abs_exec(root) {
        return false;
    }
    if rc.len() > pc.len() {
        assert(rv.len() > pv.len());
        return false;
    }
    let mut i: usize = 0;
    while i < rc.len()
        invariant
            i <= rc.len(),
            rc.len() <= pc.len(),
            pv == pc@.map_values(|x: String| x@),
            rv == rc@.map_values(|x: String| x@),
            pv == normalize_components(components(p@)),
            rv == normalize_components(components(root@)),
            is_abs(p@) == is_abs(root@),
            forall|j: int| 0 <= j < i ==> pv[j] == rv[j],
        decreases rc.len() - i,
    {
        if !eq_str(pc[i].as_str(), rc[i].as_str()) {
            assert(pv.subrange(0, rv.len() as int)[i as int] != rv[i as int]);
            return false;
        }
        i = i + 1;
    }
    assert(pv.subrange(0, rv.len() as int) =~= rv);
    true
}

} // verus!
