//! The mathematical model of paths and lexical containment.
//!
//! A path is a sequence of characters; `/` separates segments.  A candidate
//! path is contained in a root when its lexical normal form (`.` and `..`
//! segments resolved, empty segments dropped) still begins with the root at a
//! segment boundary.  This is a purely lexical check: symlinks inside the root
//! that point outside it are not resolved and not guarded against.

use vstd::prelude::*;

verus! {

/// The segments of `s`, split on `/`.  Splitting the empty sequence yields one
/// empty segment, as `str::split` does.
pub open spec fn seg_split(s: Seq<char>) -> Seq<Seq<char>>
    decreases s.len(),
{
    if s.len() == 0 {
        seq![Seq::<char>::empty()]
    } else if s.last() == '/' {
        seg_split(s.drop_last()).push(Seq::<char>::empty())
    } else {
        let prev = seg_split(s.drop_last());
        prev.update(prev.len() - 1, prev.last().push(s.last()))
    }
}

/// The one-character segment `.`.
pub open spec fn dot() -> Seq<char> {
    seq!['.']
}

/// The two-character segment `..`.
pub open spec fn dotdot() -> Seq<char> {
    seq!['.', '.']
}

/// A segment that names a real path component: non-empty and neither `.` nor
/// `..`.
pub open spec fn plain_seg(s: Seq<char>) -> bool {
    s.len() > 0 && s != dot() && s != dotdot()
}

/// No `/` occurs in `s`.
pub open spec fn no_slash(s: Seq<char>) -> bool {
    forall|k: int| 0 <= k < s.len() ==> s[k] != '/'
}

/// Lexical resolution of the segment list: empty and `.` segments are dropped,
/// `..` pops the segment before it (or is dropped at the top, as `/..` is `/`),
/// every other segment is kept.
pub open spec fn norm_stack(segs: Seq<Seq<char>>) -> Seq<Seq<char>>
    decreases segs.len(),
{
    if segs.len() == 0 {
        Seq::<Seq<char>>::empty()
    } else {
        let prev = norm_stack(segs.drop_last());
        let s = segs.last();
        if s.len() == 0 || s == dot() {
            prev
        } else if s == dotdot() {
            if prev.len() > 0 {
                prev.drop_last()
            } else {
                prev
            }
        } else {
            prev.push(s)
        }
    }
}

/// `/a/b` from the segment list `[a, b]`: each segment is preceded by `/`.
/// The empty list gives the empty sequence.
pub open spec fn join_segs(segs: Seq<Seq<char>>) -> Seq<char>
    decreases segs.len(),
{
    if segs.len() == 0 {
        Seq::<char>::empty()
    } else {
        join_segs(segs.drop_last()) + seq!['/'] + segs.last()
    }
}

/// The lexical normal form of an absolute path: its resolved segments joined
/// by `/`, or `/` itself when nothing remains.
pub open spec fn normal_form(s: Seq<char>) -> Seq<char> {
    let segs = norm_stack(seg_split(s));
    if segs.len() == 0 {
        seq!['/']
    } else {
        join_segs(segs)
    }
}

/// `p` begins with `root`, and the first character after the shared prefix
/// (if any) starts a new segment.
pub open spec fn begins_at_boundary(root: Seq<char>, p: Seq<char>) -> bool {
    &&& root.len() <= p.len()
    &&& p.subrange(0, root.len() as int) == root
    &&& (p.len() == root.len() || root.len() == 0 || root.last() == '/' || p[root.len() as int]
        == '/')
}

/// The path-containment property: the candidate, lexically resolved, still
/// begins with the root.  Ordinary `..` segments in a joined candidate are
/// neutralized by the resolution; symlinks are not.
pub open spec fn contained_in(root: Seq<char>, candidate: Seq<char>) -> bool {
    begins_at_boundary(root, normal_form(candidate))
}

/// Joining a root and a relative segment: a single `/` in between.
pub open spec fn joined(root: Seq<char>, rel: Seq<char>) -> Seq<char> {
    root + seq!['/'] + rel
}

/// A root in normal form: absolute and fixed by lexical normalization, so it
/// can serve as a prefix-containment boundary.
pub open spec fn is_normal_root(root: Seq<char>) -> bool {
    &&& root.len() > 0
    &&& root[0] == '/'
    &&& normal_form(root) == root
}

/// A client-supplied relative path that tries to be absolute (leading `/`, or
/// a leading `\` as Windows clients write it) is never joined.
pub open spec fn has_leading_sep(rel: Seq<char>) -> bool {
    rel.len() > 0 && (rel[0] == '/' || rel[0] == '\\')
}

/// When a client-supplied relative path is accepted against a root: it does
/// not pose as an absolute path, and the joined candidate stays inside the
/// root.
pub open spec fn rel_allowed(root: Seq<char>, rel: Seq<char>) -> bool {
    !has_leading_sep(rel) && contained_in(root, joined(root, rel))
}

/// `rel` contains no parent-directory (`..`) segment.
pub open spec fn no_parent_segments(rel: Seq<char>) -> bool {
    forall|i: int| 0 <= i < seg_split(rel).len() ==> seg_split(rel)[i] != dotdot()
}

/// The root prefix of `p`, stripped once if present.
pub open spec fn strip_prefix_once(root: Seq<char>, p: Seq<char>) -> Seq<char> {
    if root.len() <= p.len() && p.subrange(0, root.len() as int) == root {
        p.subrange(root.len() as int, p.len() as int)
    } else {
        p
    }
}

/// Leading separators (`/`, and `\` for paths written by Windows tools)
/// removed.
pub open spec fn strip_leading_seps(p: Seq<char>) -> Seq<char>
    decreases p.len(),
{
    if p.len() > 0 && (p[0] == '/' || p[0] == '\\') {
        strip_leading_seps(p.subrange(1, p.len() as int))
    } else {
        p
    }
}

/// The prefix of `p` before its last separator: the directory that holds the
/// file `p` names.  `/` is its own parent here; a path with no separator has
/// none.
pub open spec fn parent_path(p: Seq<char>) -> Option<Seq<char>>
    decreases p.len(),
{
    if p.len() == 0 {
        None
    } else if p.last() == '/' {
        if p.len() == 1 {
            Some(seq!['/'])
        } else {
            Some(p.drop_last())
        }
    } else {
        parent_path(p.drop_last())
    }
}

/// How an enumerated file path is made root-relative: the root prefix is
/// stripped once, then any leading separators.
pub open spec fn rel_of(root: Seq<char>, p: Seq<char>) -> Seq<char> {
    strip_leading_seps(strip_prefix_once(root, p))
}

} // verus!
