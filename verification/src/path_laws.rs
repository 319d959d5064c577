//! Laws of the path model, proved once and for all: joining a root with a
//! relative path free of parent segments always stays contained, and a
//! leading parent segment escapes; normalization is idempotent, so a
//! normalized path can serve as a root.

use vstd::prelude::*;
use crate::path_model::{
    seg_split, dot, dotdot, plain_seg, no_slash, norm_stack, join_segs, normal_form,
    begins_at_boundary, contained_in, joined, is_normal_root, no_parent_segments, rel_of,
    strip_leading_seps, has_leading_sep,
};

verus! {

/// Splitting never yields an empty segment list.
pub proof fn lemma_seg_split_len(s: Seq<char>)
    ensures
        seg_split(s).len() >= 1,
    decreases s.len(),
{
    if s.len() > 0 {
        lemma_seg_split_len(s.drop_last());
    }
}

/// No segment of a split contains a separator.
pub proof fn lemma_seg_split_no_slash(s: Seq<char>)
    ensures
        forall|i: int| 0 <= i < seg_split(s).len() ==> no_slash(#[trigger] seg_split(s)[i]),
    decreases s.len(),
{
    if s.len() == 0 {
    } else {
        lemma_seg_split_no_slash(s.drop_last());
        lemma_seg_split_len(s.drop_last());
        let prev = seg_split(s.drop_last());
        if s.last() == '/' {
            assert(no_slash(Seq::<char>::empty()));
        } else {
            assert forall|i: int| 0 <= i < seg_split(s).len() implies no_slash(
                #[trigger] seg_split(s)[i],
            ) by {
                if i == prev.len() - 1 {
                    assert(seg_split(s)[i] == prev.last().push(s.last()));
                    assert(no_slash(prev[prev.len() - 1]));
                } else {
                    assert(seg_split(s)[i] == prev[i]);
                }
            }
        }
    }
}

/// Splitting distributes over joining with a single separator.
pub proof fn lemma_seg_split_concat(x: Seq<char>, y: Seq<char>)
    ensures
        seg_split(x + seq!['/'] + y) == seg_split(x) + seg_split(y),
    decreases y.len(),
{
    let z = x + seq!['/'] + y;
    if y.len() == 0 {
        assert(z =~= x.push('/'));
        assert(z.drop_last() =~= x);
        assert(z.last() == '/');
        assert(seg_split(z) == seg_split(x).push(Seq::<char>::empty()));
        assert(seg_split(x).push(Seq::<char>::empty()) =~~= seg_split(x) + seg_split(y));
    } else {
        lemma_seg_split_concat(x, y.drop_last());
        lemma_seg_split_len(y.drop_last());
        assert(z.drop_last() =~= x + seq!['/'] + y.drop_last());
        assert(z.last() == y.last());
        let p = seg_split(x);
        let q = seg_split(y.drop_last());
        assert(seg_split(z.drop_last()) == p + q);
        if y.last() == '/' {
            assert(seg_split(z) == (p + q).push(Seq::<char>::empty()));
            assert(seg_split(y) == q.push(Seq::<char>::empty()));
            assert((p + q).push(Seq::<char>::empty()) =~~= p + q.push(Seq::<char>::empty()));
        } else {
            let c = y.last();
            assert(seg_split(z) == (p + q).update(p.len() + q.len() - 1, (p + q).last().push(c)));
            assert(seg_split(y) == q.update(q.len() - 1, q.last().push(c)));
            assert((p + q).last() == q.last());
            assert((p + q).update(p.len() + q.len() - 1, q.last().push(c)) =~~= p + q.update(
                q.len() - 1,
                q.last().push(c),
            ));
        }
    }
}

/// A separator-free sequence splits into itself alone.
pub proof fn lemma_seg_split_whole(s: Seq<char>)
    requires
        no_slash(s),
    ensures
        seg_split(s) == seq![s],
    decreases s.len(),
{
    if s.len() == 0 {
        assert(seg_split(s) =~~= seq![s]);
    } else {
        assert(no_slash(s.drop_last()));
        lemma_seg_split_whole(s.drop_last());
        assert(s.last() != '/');
        assert(seg_split(s) == seq![s.drop_last()].update(0, s.drop_last().push(s.last())));
        assert(s.drop_last().push(s.last()) =~= s);
        assert(seg_split(s) =~~= seq![s]);
    }
}

/// Resolving more segments that contain no parent segment only extends the
/// resolved stack.
pub proof fn lemma_norm_stack_app_no_parent(a: Seq<Seq<char>>, b: Seq<Seq<char>>)
    requires
        forall|i: int| 0 <= i < b.len() ==> #[trigger] b[i] != dotdot(),
    ensures
        norm_stack(a).is_prefix_of(norm_stack(a + b)),
    decreases b.len(),
{
    if b.len() == 0 {
        assert(a + b =~~= a);
        assert(norm_stack(a).is_prefix_of(norm_stack(a))) by {
            assert(norm_stack(a).subrange(0, norm_stack(a).len() as int) =~~= norm_stack(a));
        }
    } else {
        let bdl = b.drop_last();
        lemma_norm_stack_app_no_parent(a, bdl);
        assert((a + b).drop_last() =~~= a + bdl);
        assert((a + b).last() == b.last());
        let prev = norm_stack(a + bdl);
        let s = b.last();
        assert(s != dotdot());
        if s.len() == 0 || s == dot() {
            assert(norm_stack(a + b) == prev);
        } else {
            assert(norm_stack(a + b) == prev.push(s));
            assert(norm_stack(a).is_prefix_of(prev.push(s))) by {
                assert(prev.push(s).subrange(0, norm_stack(a).len() as int) =~~= prev.subrange(
                    0,
                    norm_stack(a).len() as int,
                ));
            }
        }
    }
}

/// Resolving further segments that are all plain appends them unchanged.
pub proof fn lemma_norm_stack_app_plain(a: Seq<Seq<char>>, b: Seq<Seq<char>>)
    requires
        forall|i: int| 0 <= i < b.len() ==> plain_seg(#[trigger] b[i]),
    ensures
        norm_stack(a + b) == norm_stack(a) + b,
    decreases b.len(),
{
    if b.len() == 0 {
        assert(a + b =~~= a);
        assert(norm_stack(a) + b =~~= norm_stack(a));
    } else {
        let bdl = b.drop_last();
        lemma_norm_stack_app_plain(a, bdl);
        assert((a + b).drop_last() =~~= a + bdl);
        assert((a + b).last() == b.last());
        let s = b.last();
        assert(plain_seg(s));
        assert(norm_stack(a + b) == (norm_stack(a) + bdl).push(s));
        assert((norm_stack(a) + bdl).push(s) =~~= norm_stack(a) + b);
    }
}

/// Every segment the resolution keeps is plain, and separator-free when the
/// input segments are.
pub proof fn lemma_norm_stack_elems(x: Seq<Seq<char>>)
    requires
        forall|i: int| 0 <= i < x.len() ==> no_slash(#[trigger] x[i]),
    ensures
        forall|i: int|
            0 <= i < norm_stack(x).len() ==> plain_seg(#[trigger] norm_stack(x)[i]) && no_slash(
                norm_stack(x)[i],
            ),
    decreases x.len(),
{
    if x.len() == 0 {
    } else {
        assert(forall|i: int| 0 <= i < x.drop_last().len() ==> no_slash(
            #[trigger] x.drop_last()[i],
        ));
        lemma_norm_stack_elems(x.drop_last());
        let prev = norm_stack(x.drop_last());
        let s = x.last();
        if s.len() == 0 || s == dot() {
        } else if s == dotdot() {
            if prev.len() > 0 {
                assert(forall|i: int|
                    0 <= i < prev.drop_last().len() ==> #[trigger] prev.drop_last()[i] == prev[i]);
            }
        } else {
            assert(no_slash(s));
            assert(forall|i: int|
                0 <= i < prev.len() ==> #[trigger] prev.push(s)[i] == prev[i]);
        }
    }
}

/// A joined segment list starts with a separator.
pub proof fn lemma_join_segs_first(b: Seq<Seq<char>>)
    requires
        b.len() > 0,
    ensures
        join_segs(b).len() > 0,
        join_segs(b)[0] == '/',
    decreases b.len(),
{
    if b.len() == 1 {
        assert(join_segs(b.drop_last()).len() == 0);
        assert(join_segs(b)[0] == '/');
    } else {
        lemma_join_segs_first(b.drop_last());
        assert(join_segs(b)[0] == join_segs(b.drop_last())[0]);
    }
}

/// Joining a longer segment list extends the joined shorter one at a
/// boundary.
pub proof fn lemma_join_segs_boundary(a: Seq<Seq<char>>, b: Seq<Seq<char>>)
    requires
        a.is_prefix_of(b),
    ensures
        begins_at_boundary(join_segs(a), join_segs(b)),
    decreases b.len(),
{
    let ja = join_segs(a);
    if a.len() == b.len() {
        assert(a =~~= b);
        assert(ja.subrange(0, ja.len() as int) =~= ja);
    } else {
        let bdl = b.drop_last();
        assert(a.is_prefix_of(bdl)) by {
            assert(bdl.subrange(0, a.len() as int) =~~= b.subrange(0, a.len() as int));
        }
        lemma_join_segs_boundary(a, bdl);
        let jb = join_segs(b);
        let jbdl = join_segs(bdl);
        assert(jb == jbdl + seq!['/'] + b.last());
        assert(jb.subrange(0, ja.len() as int) =~= jbdl.subrange(0, ja.len() as int));
        if ja.len() == jbdl.len() {
            assert(jb[ja.len() as int] == '/');
        } else {
            assert(ja.len() < jbdl.len());
            if ja.len() > 0 && ja.last() != '/' {
                assert(jbdl[ja.len() as int] == '/');
                assert(jb[ja.len() as int] == jbdl[ja.len() as int]);
            }
        }
    }
}

/// Joining a root with a relative path that has no parent-directory segment
/// always stays contained in the root.
pub proof fn lemma_join_without_parent_contained(root: Seq<char>, rel: Seq<char>)
    requires
        is_normal_root(root),
        no_parent_segments(rel),
    ensures
        contained_in(root, joined(root, rel)),
{
    let rs = seg_split(root);
    let ys = seg_split(rel);
    lemma_seg_split_concat(root, rel);
    assert(seg_split(joined(root, rel)) == rs + ys);
    let a = norm_stack(rs);
    let b = norm_stack(rs + ys);
    lemma_norm_stack_app_no_parent(rs, ys);
    if a.len() == 0 {
        assert(normal_form(root) == seq!['/']);
        assert(root == seq!['/']);
        if b.len() == 0 {
            assert(normal_form(joined(root, rel)) == seq!['/']);
            assert(seq!['/'].subrange(0, 1) =~= seq!['/']);
        } else {
            lemma_join_segs_first(b);
            let p = join_segs(b);
            assert(normal_form(joined(root, rel)) == p);
            assert(p.subrange(0, 1) =~= seq!['/']);
        }
    } else {
        assert(join_segs(a) == root);
        lemma_join_segs_boundary(a, b);
        assert(b.len() >= a.len());
        assert(normal_form(joined(root, rel)) == join_segs(b));
    }
}

/// The tail of a relative path after a leading `../`, when it is made only
/// of plain segments.
pub open spec fn plain_tail(q: Seq<char>) -> bool {
    forall|i: int| 0 <= i < seg_split(q).len() ==> plain_seg(#[trigger] seg_split(q)[i])
}

/// The innermost directory name of a normal root: the last segment its
/// resolution keeps.
pub open spec fn last_kept_segment(root: Seq<char>) -> Seq<char> {
    norm_stack(seg_split(root)).last()
}

/// A relative path with a leading parent segment escapes the root: the joined
/// candidate is not contained.  This holds for `..` itself, for `../`, and
/// for `../` followed by plain segments whose first differs from the root's
/// innermost directory name (a tail that walks straight back into that
/// directory is contained again, and is left out here).
pub proof fn lemma_leading_parent_escapes(root: Seq<char>, rel: Seq<char>)
    requires
        is_normal_root(root),
        root.len() > 1,
        rel == dotdot() || rel == dotdot().push('/') || (rel.len() > 3 && rel.subrange(0, 3)
            == dotdot().push('/') && plain_tail(rel.subrange(3, rel.len() as int)) && seg_split(
            rel.subrange(3, rel.len() as int),
        )[0] != last_kept_segment(root)),
    ensures
        !contained_in(root, joined(root, rel)),
{
    let rs = seg_split(root);
    lemma_seg_split_no_slash(root);
    lemma_norm_stack_elems(rs);
    let a = norm_stack(rs);
    if a.len() == 0 {
        assert(normal_form(root) == seq!['/']);
        assert(root.len() == 1);
    }
    assert(a.len() > 0);
    assert(join_segs(a) == root);
    let c = a.drop_last();
    let rlast = a.last();
    assert(plain_seg(rlast) && no_slash(rlast));
    let jc = join_segs(c);
    assert(root == jc + seq!['/'] + rlast);
    let m = jc.len() + 1;
    assert(root.len() == m + rlast.len());
    assert(root.last() == rlast.last());
    assert(rlast.last() != '/');

    // the resolved candidate's segments
    assert(no_slash(dotdot()));
    lemma_seg_split_whole(dotdot());
    lemma_seg_split_concat(root, dotdot());
    assert((rs + seq![dotdot()]).drop_last() =~~= rs);
    assert((rs + seq![dotdot()]).last() == dotdot());
    assert(norm_stack(rs + seq![dotdot()]) == c);

    if rel == dotdot() {
        assert(seg_split(joined(root, rel)) == rs + seq![dotdot()]);
        lemma_not_contained_in_shorter(root, c, jc, m as int, rlast);
    } else if rel == dotdot().push('/') {
        assert(rel.drop_last() =~= dotdot());
        assert(rel.last() == '/');
        assert(seg_split(rel) == seq![dotdot()].push(Seq::<char>::empty()));
        lemma_seg_split_concat(root, rel);
        assert(seg_split(joined(root, rel)) =~~= (rs + seq![dotdot()]).push(
            Seq::<char>::empty(),
        ));
        assert(seg_split(joined(root, rel)).drop_last() =~~= rs + seq![dotdot()]);
        assert(norm_stack(seg_split(joined(root, rel))) == c);
        lemma_not_contained_in_shorter(root, c, jc, m as int, rlast);
    } else {
        let q = rel.subrange(3, rel.len() as int);
        let qs = seg_split(q);
        lemma_seg_split_len(q);
        lemma_seg_split_no_slash(q);
        assert(rel[0] == '.' && rel[1] == '.' && rel[2] == '/') by {
            assert(rel.subrange(0, 3)[0] == rel[0]);
            assert(rel.subrange(0, 3)[1] == rel[1]);
            assert(rel.subrange(0, 3)[2] == rel[2]);
            assert(dotdot().push('/')[0] == '.');
            assert(dotdot().push('/')[1] == '.');
            assert(dotdot().push('/')[2] == '/');
        }
        assert(rel =~= dotdot() + seq!['/'] + q);
        lemma_seg_split_concat(dotdot(), q);
        assert(seg_split(rel) == seq![dotdot()] + qs);
        lemma_seg_split_concat(root, rel);
        assert(seg_split(joined(root, rel)) == rs + (seq![dotdot()] + qs));
        assert(rs + (seq![dotdot()] + qs) =~~= (rs + seq![dotdot()]) + qs);
        lemma_norm_stack_app_plain(rs + seq![dotdot()], qs);
        let n = c + qs;
        assert(norm_stack(seg_split(joined(root, rel))) == n);
        assert(n.len() > 0);
        let p = join_segs(n);
        assert(normal_form(joined(root, rel)) == p);

        let q0 = qs[0];
        assert(plain_seg(q0) && no_slash(q0));
        assert(q0 != rlast);
        let d = c.push(q0);
        assert(d.is_prefix_of(n)) by {
            assert(n.subrange(0, d.len() as int) =~~= d);
        }
        lemma_join_segs_boundary(d, n);
        let jq = join_segs(d);
        assert(d.drop_last() =~~= c);
        assert(jq == jc + seq!['/'] + q0);
        assert(jq.len() == m + q0.len());
        assert(jq.last() == q0.last());
        assert(jq.last() != '/');

        if begins_at_boundary(root, p) {
            if rlast.len() == q0.len() {
                assert(root.len() == jq.len());
                assert forall|k: int| 0 <= k < rlast.len() implies rlast[k] == q0[k] by {
                    assert(root[m + k] == rlast[k]);
                    assert(jq[m + k] == q0[k]);
                    assert(p.subrange(0, root.len() as int)[m + k] == root[m + k]);
                    assert(p.subrange(0, jq.len() as int)[m + k] == jq[m + k]);
                }
                assert(rlast =~= q0);
                assert(false);
            } else if rlast.len() < q0.len() {
                assert(root.len() < jq.len() <= p.len());
                assert(p[root.len() as int] == '/');
                assert(p.subrange(0, jq.len() as int)[root.len() as int] == jq[root.len() as int]);
                assert(jq[m + rlast.len() as int] == q0[rlast.len() as int]);
                assert(q0[rlast.len() as int] != '/');
                assert(false);
            } else {
                assert(root.len() > jq.len());
                if p.len() == jq.len() {
                    assert(root.len() > p.len());
                    assert(false);
                } else {
                    assert(p[jq.len() as int] == '/');
                    assert(p.subrange(0, root.len() as int)[jq.len() as int] == root[jq.len() as int]);
                    assert(root[m + q0.len() as int] == rlast[q0.len() as int]);
                    assert(rlast[q0.len() as int] != '/');
                    assert(false);
                }
            }
        }
    }
}

/// Helper: a candidate whose resolution is the root's parent is shorter than
/// the root, so it cannot begin with it.
proof fn lemma_not_contained_in_shorter(
    root: Seq<char>,
    c: Seq<Seq<char>>,
    jc: Seq<char>,
    m: int,
    rlast: Seq<char>,
)
    requires
        root == jc + seq!['/'] + rlast,
        jc == join_segs(c),
        m == jc.len() + 1,
        rlast.len() > 0,
    ensures
        c.len() == 0 ==> !begins_at_boundary(root, seq!['/']),
        c.len() > 0 ==> !begins_at_boundary(root, join_segs(c)),
{
    assert(root.len() == m + rlast.len());
    if c.len() == 0 {
        assert(jc.len() == 0);
        assert(root.len() > 1);
    } else {
        assert(jc.len() < root.len());
    }
}

/// Resolving the single empty segment leaves nothing.
proof fn lemma_norm_stack_single_empty()
    ensures
        norm_stack(seq![Seq::<char>::empty()]) == Seq::<Seq<char>>::empty(),
{
    let one = seq![Seq::<char>::empty()];
    assert(one.drop_last() =~~= Seq::<Seq<char>>::empty());
    assert(norm_stack(Seq::<Seq<char>>::empty()) == Seq::<Seq<char>>::empty());
    assert(one.last() == Seq::<char>::empty());
    assert(one.last().len() == 0);
    assert(norm_stack(one) == norm_stack(one.drop_last()));
}

/// Joining a list of plain, separator-free segments and resolving it again
/// gives the list back.
pub proof fn lemma_norm_stack_reconstruct(t: Seq<Seq<char>>)
    requires
        forall|i: int| 0 <= i < t.len() ==> plain_seg(#[trigger] t[i]) && no_slash(t[i]),
    ensures
        norm_stack(seg_split(join_segs(t))) == t,
    decreases t.len(),
{
    if t.len() == 0 {
        assert(join_segs(t).len() == 0);
        assert(seg_split(join_segs(t)) == seq![Seq::<char>::empty()]);
        lemma_norm_stack_single_empty();
        assert(norm_stack(seq![Seq::<char>::empty()]) =~~= t);
    } else {
        let tdl = t.drop_last();
        let x = t.last();
        assert(forall|i: int| 0 <= i < tdl.len() ==> plain_seg(#[trigger] tdl[i]) && no_slash(
            tdl[i],
        ));
        lemma_norm_stack_reconstruct(tdl);
        assert(join_segs(t) == join_segs(tdl) + seq!['/'] + x);
        lemma_seg_split_concat(join_segs(tdl), x);
        lemma_seg_split_whole(x);
        let a = seg_split(join_segs(tdl));
        assert(seg_split(join_segs(t)) == a + seq![x]);
        assert((a + seq![x]).drop_last() =~~= a);
        assert((a + seq![x]).last() == x);
        assert(plain_seg(x));
        assert(norm_stack(a + seq![x]) == norm_stack(a).push(x));
        assert(tdl.push(x) =~~= t);
    }
}

/// The normal form of any path is itself a normal root: absolute, and fixed
/// by a second normalization.
pub proof fn lemma_normal_form_normal(s: Seq<char>)
    ensures
        is_normal_root(normal_form(s)),
{
    let n = norm_stack(seg_split(s));
    lemma_seg_split_no_slash(s);
    lemma_norm_stack_elems(seg_split(s));
    if n.len() == 0 {
        assert(normal_form(s) == seq!['/']);
        let sl = seq!['/'];
        assert(sl.drop_last() =~= Seq::<char>::empty());
        assert(sl.last() == '/');
        assert(seg_split(sl) == seg_split(Seq::<char>::empty()).push(Seq::<char>::empty()));
        assert(seg_split(Seq::<char>::empty()) == seq![Seq::<char>::empty()]);
        let two = seq![Seq::<char>::empty()].push(Seq::<char>::empty());
        assert(two.drop_last() =~~= seq![Seq::<char>::empty()]);
        lemma_norm_stack_single_empty();
        assert(two.last() == Seq::<char>::empty());
        assert(two.last().len() == 0);
        assert(norm_stack(two) == norm_stack(two.drop_last()));
        assert(norm_stack(two) =~~= Seq::<Seq<char>>::empty());
        assert(normal_form(sl) == seq!['/']);
    } else {
        let p = join_segs(n);
        assert(normal_form(s) == p);
        lemma_join_segs_first(n);
        lemma_norm_stack_reconstruct(n);
        assert(norm_stack(seg_split(p)) == n);
        assert(normal_form(p) == p);
    }
}

/// Relativization inverts joining: an enumerated path built by joining the
/// root with a relative path comes back out as exactly that relative path, so
/// every returned entry, joined back to the root, names the file it came
/// from.
pub proof fn lemma_rel_of_roundtrip(root: Seq<char>, x: Seq<char>)
    requires
        !has_leading_sep(x),
    ensures
        rel_of(root, joined(root, x)) == x,
{
    let p = joined(root, x);
    assert(root.len() <= p.len());
    assert(p.subrange(0, root.len() as int) =~= root);
    let tail = p.subrange(root.len() as int, p.len() as int);
    assert(tail =~= seq!['/'] + x);
    assert(tail[0] == '/');
    assert(tail.subrange(1, tail.len() as int) =~= x);
    assert(strip_leading_seps(tail) == strip_leading_seps(x));
    assert(strip_leading_seps(x) == x);
}

} // verus!
