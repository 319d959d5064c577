//! Executable path handling, proved against the model in `path_model`:
//! joining, lexical normalization, the containment guard, relativization for
//! the enumerator, and the parent-directory prefix.

use vstd::prelude::*;
use vstd::string::StrSliceExecFns;
use vstd::string::StringExecFns;
use crate::path_model::{
    seg_split, dot, dotdot, norm_stack, join_segs, normal_form, begins_at_boundary, contained_in,
    joined, strip_prefix_once, strip_leading_seps, rel_of, parent_path, is_normal_root,
};

verus! {

/// The segments of `s` named by index pairs into `s`.
pub open spec fn pairs_view(s: Seq<char>, pairs: Seq<(usize, usize)>) -> Seq<Seq<char>> {
    pairs.map_values(|p: (usize, usize)| s.subrange(p.0 as int, p.1 as int))
}

/// Every pair is an in-bounds, well-ordered index range into `s`.
pub open spec fn pairs_wf(s: Seq<char>, pairs: Seq<(usize, usize)>) -> bool {
    forall|k: int| 0 <= k < pairs.len() ==> (#[trigger] pairs[k]).0 <= pairs[k].1 <= s.len()
}

/// Split `s` into its `/`-separated segments, as index pairs.
fn split_segments(s: &str) -> (pairs: Vec<(usize, usize)>)
    ensures
        pairs_view(s@, pairs@) == seg_split(s@),
        pairs_wf(s@, pairs@),
{
    let n = s.unicode_len();
    let mut pairs: Vec<(usize, usize)> = Vec::new();
    let mut start: usize = 0;
    let mut i: usize = 0;
    proof {
        assert(s@.subrange(0, 0).len() == 0);
        assert(pairs_view(s@, pairs@).push(s@.subrange(0, 0)) =~~= seg_split(s@.subrange(0, 0)));
    }
    while i < n
        invariant
            n == s@.len(),
            start <= i <= n,
            pairs_wf(s@, pairs@),
            forall|k: int| 0 <= k < pairs@.len() ==> pairs@[k].1 <= i,
            pairs_view(s@, pairs@).push(s@.subrange(start as int, i as int)) == seg_split(
                s@.subrange(0, i as int),
            ),
        decreases n - i,
    {
        let c = s.get_char(i);
        let ghost pairs0 = pairs@;
        proof {
            assert(s@.subrange(0, (i + 1) as int).drop_last() =~= s@.subrange(0, i as int));
            assert(s@.subrange(0, (i + 1) as int).last() == s@[i as int]);
        }
        if c == '/' {
            pairs.push((start, i));
            proof {
                assert(pairs_view(s@, pairs@) =~~= pairs_view(s@, pairs0).push(
                    s@.subrange(start as int, i as int),
                ));
                assert(s@.subrange((i + 1) as int, (i + 1) as int) =~= Seq::<char>::empty());
                assert(pairs_view(s@, pairs@).push(
                    s@.subrange((i + 1) as int, (i + 1) as int),
                ) =~~= seg_split(s@.subrange(0, (i + 1) as int)));
            }
            start = i + 1;
        } else {
            proof {
                let prev = seg_split(s@.subrange(0, i as int));
                assert(prev == pairs_view(s@, pairs0).push(s@.subrange(start as int, i as int)));
                assert(prev.last() == s@.subrange(start as int, i as int));
                assert(s@.subrange(start as int, i as int).push(s@[i as int]) =~= s@.subrange(
                    start as int,
                    (i + 1) as int,
                ));
                assert(prev.update(prev.len() - 1, prev.last().push(s@[i as int]))
                    =~~= pairs_view(s@, pairs0).push(s@.subrange(start as int, (i + 1) as int)));
            }
        }
        i += 1;
    }
    let ghost pairs0 = pairs@;
    pairs.push((start, n));
    proof {
        assert(s@.subrange(0, n as int) =~= s@);
        assert(pairs_view(s@, pairs@) =~~= pairs_view(s@, pairs0).push(
            s@.subrange(start as int, n as int),
        ));
    }
    pairs
}

/// Resolve `.`, `..` and empty segments over a stack, as `norm_stack` does.
fn resolve_segments(s: &str, pairs: &Vec<(usize, usize)>) -> (stack: Vec<(usize, usize)>)
    requires
        pairs_wf(s@, pairs@),
    ensures
        pairs_view(s@, stack@) == norm_stack(pairs_view(s@, pairs@)),
        pairs_wf(s@, stack@),
{
    let mut stack: Vec<(usize, usize)> = Vec::new();
    let mut j: usize = 0;
    proof {
        assert(pairs_view(s@, pairs@).subrange(0, 0) =~~= Seq::<Seq<char>>::empty());
        assert(pairs_view(s@, stack@) =~~= Seq::<Seq<char>>::empty());
    }
    while j < pairs.len()
        invariant
            pairs_wf(s@, pairs@),
            pairs_wf(s@, stack@),
            j <= pairs@.len(),
            pairs_view(s@, stack@) == norm_stack(pairs_view(s@, pairs@).subrange(0, j as int)),
        decreases pairs@.len() - j,
    {
        let (a, b) = pairs[j];
        let ghost full = pairs_view(s@, pairs@);
        let ghost seg = s@.subrange(a as int, b as int);
        proof {
            assert(full.subrange(0, (j + 1) as int).drop_last() =~~= full.subrange(0, j as int));
            assert(full.subrange(0, (j + 1) as int).last() == full[j as int]);
            assert(full[j as int] == seg);
        }
        let is_empty = b == a;
        let is_dot = b - a == 1 && s.get_char(a) == '.';
        let is_dotdot = b - a == 2 && s.get_char(a) == '.' && s.get_char(a + 1) == '.';
        proof {
            assert(seg.len() == b - a);
            if is_dot {
                assert(seg =~= dot());
            }
            if seg == dot() {
                assert(seg[0] == '.');
                assert(s@[a as int] == '.');
            }
            if is_dotdot {
                assert(seg =~= dotdot());
            }
            if seg == dotdot() {
                assert(seg[0] == '.' && seg[1] == '.');
                assert(s@[a as int] == '.' && s@[a as int + 1] == '.');
            }
            assert(is_dot <==> seg == dot());
            assert(is_dotdot <==> seg == dotdot());
        }
        let ghost stack0 = stack@;
        if is_empty || is_dot {
            // dropped
        } else if is_dotdot {
            if stack.len() > 0 {
                let _ = stack.pop();
                proof {
                    assert(pairs_view(s@, stack@) =~~= pairs_view(s@, stack0).drop_last());
                }
            }
        } else {
            stack.push((a, b));
            proof {
                assert(pairs_view(s@, stack@) =~~= pairs_view(s@, stack0).push(seg));
            }
        }
        j += 1;
    }
    proof {
        assert(pairs_view(s@, pairs@).subrange(0, pairs@.len() as int) =~~= pairs_view(
            s@,
            pairs@,
        ));
    }
    stack
}

/// The lexical normal form of `s` as a fresh string.
pub fn normal_form_string(s: &str) -> (r: String)
    ensures
        r@ == normal_form(s@),
{
    let pairs = split_segments(s);
    let stack = resolve_segments(s, &pairs);
    let mut out = String::new();
    if stack.len() == 0 {
        out.append("/");
        proof {
            reveal_strlit("/");
            assert(out@ =~= seq!['/']);
        }
        return out;
    }
    let ghost sv = pairs_view(s@, stack@);
    proof {
        assert(sv.subrange(0, 0) =~~= Seq::<Seq<char>>::empty());
        assert(out@ =~= join_segs(sv.subrange(0, 0)));
    }
    let mut t: usize = 0;
    while t < stack.len()
        invariant
            pairs_wf(s@, stack@),
            t <= stack@.len(),
            sv == pairs_view(s@, stack@),
            out@ == join_segs(sv.subrange(0, t as int)),
        decreases stack@.len() - t,
    {
        let (a, b) = stack[t];
        out.append("/");
        out.append(s.substring_char(a, b));
        proof {
            reveal_strlit("/");
            assert(sv.subrange(0, (t + 1) as int).drop_last() =~~= sv.subrange(0, t as int));
            assert(sv.subrange(0, (t + 1) as int).last() == sv[t as int]);
            assert(out@ =~= join_segs(sv.subrange(0, (t + 1) as int)));
        }
        t += 1;
    }
    proof {
        assert(sv.subrange(0, stack@.len() as int) =~~= sv);
        assert(sv.len() > 0);
    }
    out
}

/// Does `p` begin with the characters of `root`?
fn is_str_prefix(root: &str, p: &str) -> (b: bool)
    ensures
        b == (root@.len() <= p@.len() && p@.subrange(0, root@.len() as int) == root@),
{
    let rl = root.unicode_len();
    let pl = p.unicode_len();
    if rl > pl {
        return false;
    }
    let mut k: usize = 0;
    while k < rl
        invariant
            k <= rl,
            rl == root@.len(),
            pl == p@.len(),
            rl <= pl,
            forall|m: int| 0 <= m < k ==> p@[m] == root@[m],
        decreases rl - k,
    {
        if root.get_char(k) != p.get_char(k) {
            proof {
                assert(p@.subrange(0, rl as int)[k as int] == p@[k as int]);
            }
            return false;
        }
        k += 1;
    }
    proof {
        assert(p@.subrange(0, rl as int) =~= root@);
    }
    true
}

/// Does `p` begin with `root` at a segment boundary?
pub fn begins_at_boundary_exec(root: &str, p: &str) -> (b: bool)
    ensures
        b == begins_at_boundary(root@, p@),
{
    if !is_str_prefix(root, p) {
        return false;
    }
    let rl = root.unicode_len();
    let pl = p.unicode_len();
    if pl == rl {
        return true;
    }
    if rl == 0 {
        return true;
    }
    if root.get_char(rl - 1) == '/' {
        proof {
            assert(root@.last() == root@[rl - 1]);
        }
        return true;
    }
    if p.get_char(rl) == '/' {
        return true;
    }
    proof {
        assert(root@.last() == root@[rl - 1]);
    }
    false
}

/// The PathGuard check: the candidate's lexical normal form still begins with
/// the root at a segment boundary.
pub fn is_contained(root: &str, candidate: &str) -> (b: bool)
    ensures
        b == contained_in(root@, candidate@),
{
    let n = normal_form_string(candidate);
    begins_at_boundary_exec(root, n.as_str())
}

/// Join a root and a relative segment with a single `/`.
pub fn join_path(root: &str, rel: &str) -> (r: String)
    ensures
        r@ == joined(root@, rel@),
{
    let mut out = root.to_owned();
    out.append("/");
    out.append(rel);
    proof {
        reveal_strlit("/");
        assert(out@ =~= joined(root@, rel@));
    }
    out
}

/// Make an enumerated path root-relative: strip the root prefix once, then any
/// leading separators.
pub fn relativize(root: &str, p: &str) -> (r: String)
    ensures
        r@ == rel_of(root@, p@),
{
    let pl = p.unicode_len();
    let start: usize = if is_str_prefix(root, p) {
        root.unicode_len()
    } else {
        0
    };
    proof {
        assert(p@.subrange(start as int, pl as int) =~= strip_prefix_once(root@, p@));
    }
    let mut s2: usize = start;
    loop
        invariant
            start <= s2 <= pl,
            pl == p@.len(),
            strip_leading_seps(p@.subrange(start as int, pl as int)) == strip_leading_seps(
                p@.subrange(s2 as int, pl as int),
            ),
        ensures
            start <= s2 <= pl,
            strip_leading_seps(p@.subrange(start as int, pl as int)) == p@.subrange(
                s2 as int,
                pl as int,
            ),
        decreases pl - s2,
    {
        if s2 >= pl {
            proof {
                assert(p@.subrange(s2 as int, pl as int).len() == 0);
            }
            break;
        }
        let c = p.get_char(s2);
        if c != '/' && c != '\\' {
            proof {
                assert(p@.subrange(s2 as int, pl as int)[0] == p@[s2 as int]);
            }
            break;
        }
        proof {
            assert(p@.subrange(s2 as int, pl as int)[0] == p@[s2 as int]);
            assert(p@.subrange(s2 as int, pl as int).subrange(
                1,
                p@.subrange(s2 as int, pl as int).len() as int,
            ) =~= p@.subrange((s2 + 1) as int, pl as int));
        }
        s2 += 1;
    }
    p.substring_char(s2, pl).to_owned()
}

/// The prefix of `p` before its last separator, or `None` when `p` holds no
/// separator.
pub fn parent_of(p: &str) -> (r: Option<String>)
    ensures
        r is None ==> parent_path(p@) is None,
        r matches Some(q) ==> parent_path(p@) == Some(q@),
{
    let pl = p.unicode_len();
    let mut i: usize = pl;
    proof {
        assert(p@.subrange(0, pl as int) =~= p@);
    }
    loop
        invariant
            0 <= i <= pl,
            pl == p@.len(),
            parent_path(p@) == parent_path(p@.subrange(0, i as int)),
        ensures
            0 <= i <= pl,
            parent_path(p@) == parent_path(p@.subrange(0, i as int)),
            i == 0 || p@[i as int - 1] == '/',
            i == 0 ==> parent_path(p@) is None,
        decreases i,
    {
        if i == 0 {
            proof {
                assert(p@.subrange(0, 0).len() == 0);
            }
            break;
        }
        let c = p.get_char(i - 1);
        proof {
            assert(p@.subrange(0, i as int).last() == p@[i as int - 1]);
            assert(p@.subrange(0, i as int).drop_last() =~= p@.subrange(0, i as int - 1));
        }
        if c == '/' {
            break;
        }
        i -= 1;
    }
    if i == 0 {
        return None;
    }
    proof {
        assert(p@.subrange(0, i as int).last() == p@[i as int - 1]);
        assert(p@.subrange(0, i as int).drop_last() =~= p@.subrange(0, i as int - 1));
    }
    if i == 1 {
        let mut slash = String::new();
        slash.append("/");
        proof {
            reveal_strlit("/");
            assert(slash@ =~= seq!['/']);
        }
        Some(slash)
    } else {
        Some(p.substring_char(0, i - 1).to_owned())
    }
}

/// Is `root` fit to serve as a containment boundary: absolute and already in
/// its lexical normal form?
pub fn is_normal_root_check(root: &str) -> (b: bool)
    ensures
        b == is_normal_root(root@),
{
    if root.unicode_len() == 0 || root.get_char(0) != '/' {
        return false;
    }
    let n = normal_form_string(root);
    str_eq(n.as_str(), root)
}

/// Are the two strings equal, character for character?
pub fn str_eq(a: &str, b: &str) -> (r: bool)
    ensures
        r == (a@ == b@),
{
    let al = a.unicode_len();
    let bl = b.unicode_len();
    if al != bl {
        return false;
    }
    let mut k: usize = 0;
    while k < al
        invariant
            k <= al,
            al == a@.len(),
            bl == b@.len(),
            al == bl,
            forall|m: int| 0 <= m < k ==> a@[m] == b@[m],
        decreases al - k,
    {
        if a.get_char(k) != b.get_char(k) {
            return false;
        }
        k += 1;
    }
    proof {
        assert(a@ =~= b@);
    }
    true
}

} // verus!
