//! Small sequence combinators shared by the mixer and the scheduler.
//!
//! `keep_map` selects the elements of a sequence that satisfy a
//! predicate and maps each survivor, preserving order. The mixer's
//! render pass and the scheduler's queue pass are both instances of it,
//! so its lemmas (push, concatenation, indexing, counting) carry the
//! bulk of the proofs in this crate.

use vstd::prelude::*;

verus! {

/// The elements of `s` satisfying `keep`, each mapped through `f`,
/// in their original order.
pub open spec fn keep_map<A, B>(s: Seq<A>, keep: spec_fn(A) -> bool, f: spec_fn(A) -> B) -> Seq<B>
    decreases s.len(),
{
    if s.len() == 0 {
        Seq::empty()
    } else if keep(s[0]) {
        seq![f(s[0])] + keep_map(s.drop_first(), keep, f)
    } else {
        keep_map(s.drop_first(), keep, f)
    }
}

/// The elements of `s` satisfying `keep`, in their original order.
pub open spec fn kept<A>(s: Seq<A>, keep: spec_fn(A) -> bool) -> Seq<A> {
    keep_map(s, keep, |a: A| a)
}

/// How many elements of `s` equal `x`.
pub open spec fn count_of<A>(s: Seq<A>, x: A) -> nat
    decreases s.len(),
{
    if s.len() == 0 {
        0
    } else {
        (if s[0] == x {
            1nat
        } else {
            0nat
        }) + count_of(s.drop_first(), x)
    }
}

pub proof fn lemma_keep_map_len<A, B>(s: Seq<A>, keep: spec_fn(A) -> bool, f: spec_fn(A) -> B)
    ensures
        keep_map(s, keep, f).len() <= s.len(),
    decreases s.len(),
{
    if s.len() > 0 {
        lemma_keep_map_len(s.drop_first(), keep, f);
    }
}

/// Appending one element at the back passes through `keep_map`.
pub proof fn lemma_keep_map_push<A, B>(
    s: Seq<A>,
    keep: spec_fn(A) -> bool,
    f: spec_fn(A) -> B,
    x: A,
)
    ensures
        keep_map(s.push(x), keep, f) == if keep(x) {
            keep_map(s, keep, f).push(f(x))
        } else {
            keep_map(s, keep, f)
        },
    decreases s.len(),
{
    if s.len() == 0 {
        assert(s =~= Seq::<A>::empty());
        assert(s.push(x)[0] == x);
        assert(s.push(x).drop_first() =~= Seq::<A>::empty());
        assert(keep_map(Seq::<A>::empty(), keep, f) == Seq::<B>::empty());
        if keep(x) {
            assert(keep_map(s.push(x), keep, f) == seq![f(x)] + Seq::<B>::empty());
            assert(seq![f(x)] + Seq::<B>::empty() =~= Seq::<B>::empty().push(f(x)));
        }
    } else {
        assert(s.push(x)[0] == s[0]);
        assert(s.push(x).drop_first() =~= s.drop_first().push(x));
        lemma_keep_map_push(s.drop_first(), keep, f, x);
        let rest = keep_map(s.drop_first(), keep, f);
        if keep(s[0]) {
            assert(keep_map(s, keep, f) == seq![f(s[0])] + rest);
            if keep(x) {
                assert(keep_map(s.push(x), keep, f) == seq![f(s[0])] + rest.push(f(x)));
                assert(seq![f(s[0])] + rest.push(f(x)) =~= (seq![f(s[0])] + rest).push(f(x)));
            } else {
                assert(keep_map(s.push(x), keep, f) == seq![f(s[0])] + rest);
            }
        } else {
            assert(keep_map(s, keep, f) == rest);
        }
    }
}

/// `keep_map` distributes over concatenation.
pub proof fn lemma_keep_map_concat<A, B>(
    a: Seq<A>,
    b: Seq<A>,
    keep: spec_fn(A) -> bool,
    f: spec_fn(A) -> B,
)
    ensures
        keep_map(a + b, keep, f) == keep_map(a, keep, f) + keep_map(b, keep, f),
    decreases a.len(),
{
    if a.len() == 0 {
        assert(a + b =~= b);
        assert(keep_map(a, keep, f) + keep_map(b, keep, f) =~= keep_map(b, keep, f));
    } else {
        assert((a + b)[0] == a[0]);
        assert((a + b).drop_first() =~= a.drop_first() + b);
        lemma_keep_map_concat(a.drop_first(), b, keep, f);
        if keep(a[0]) {
            assert(seq![f(a[0])] + (keep_map(a.drop_first(), keep, f) + keep_map(b, keep, f))
                =~= (seq![f(a[0])] + keep_map(a.drop_first(), keep, f)) + keep_map(b, keep, f));
        }
    }
}

/// A kept element of `s` appears in `keep_map(s)` at the position given
/// by the number of kept elements before it.
pub proof fn lemma_keep_map_index<A, B>(
    s: Seq<A>,
    keep: spec_fn(A) -> bool,
    f: spec_fn(A) -> B,
    i: int,
)
    requires
        0 <= i < s.len(),
        keep(s[i]),
    ensures
        keep_map(s.subrange(0, i), keep, f).len() < keep_map(s, keep, f).len(),
        keep_map(s, keep, f)[keep_map(s.subrange(0, i), keep, f).len() as int] == f(s[i]),
    decreases s.len(),
{
    let pre = s.subrange(0, i);
    let post = s.subrange(i, s.len() as int);
    assert(s =~= pre + post);
    lemma_keep_map_concat(pre, post, keep, f);
    assert(post[0] == s[i]);
    assert(keep_map(post, keep, f)[0] == f(s[i]));
    let p = keep_map(pre, keep, f).len() as int;
    assert(keep_map(s, keep, f)[p] == keep_map(post, keep, f)[0]);
}

/// Kept positions keep their relative order: more kept elements lie
/// before a later cut than before an earlier one, strictly so when the
/// earlier cut sits on a kept element.
pub proof fn lemma_keep_map_pos_strict<A, B>(
    s: Seq<A>,
    keep: spec_fn(A) -> bool,
    f: spec_fn(A) -> B,
    i: int,
    j: int,
)
    requires
        0 <= i < j <= s.len(),
        keep(s[i]),
    ensures
        keep_map(s.subrange(0, i), keep, f).len() < keep_map(s.subrange(0, j), keep, f).len(),
{
    let pre = s.subrange(0, i);
    let mid = s.subrange(i, j);
    assert(s.subrange(0, j) =~= pre + mid);
    lemma_keep_map_concat(pre, mid, keep, f);
    assert(mid[0] == s[i]);
    assert(keep_map(mid, keep, f).len() >= 1);
}

pub proof fn lemma_kept_len<A>(s: Seq<A>, keep: spec_fn(A) -> bool)
    ensures
        kept(s, keep).len() <= s.len(),
{
    lemma_keep_map_len(s, keep, |a: A| a);
}

/// Appending one element at the back passes through `kept`.
pub proof fn lemma_kept_push<A>(s: Seq<A>, keep: spec_fn(A) -> bool, x: A)
    ensures
        kept(s.push(x), keep) == if keep(x) {
            kept(s, keep).push(x)
        } else {
            kept(s, keep)
        },
{
    lemma_keep_map_push(s, keep, |a: A| a, x);
}

/// A kept element appears in the filtered sequence, at the position
/// given by the number of kept elements before it.
pub proof fn lemma_kept_index<A>(s: Seq<A>, keep: spec_fn(A) -> bool, i: int)
    requires
        0 <= i < s.len(),
        keep(s[i]),
    ensures
        kept(s.subrange(0, i), keep).len() < kept(s, keep).len(),
        kept(s, keep)[kept(s.subrange(0, i), keep).len() as int] == s[i],
{
    lemma_keep_map_index(s, keep, |a: A| a, i);
}

/// Strict monotonicity of kept positions across a kept element.
pub proof fn lemma_kept_pos_strict<A>(s: Seq<A>, keep: spec_fn(A) -> bool, i: int, j: int)
    requires
        0 <= i < j <= s.len(),
        keep(s[i]),
    ensures
        kept(s.subrange(0, i), keep).len() < kept(s.subrange(0, j), keep).len(),
{
    lemma_keep_map_pos_strict(s, keep, |a: A| a, i, j);
}

/// Filtering never changes how often a kept value occurs.
pub proof fn lemma_kept_count<A>(s: Seq<A>, keep: spec_fn(A) -> bool, x: A)
    requires
        keep(x),
    ensures
        count_of(kept(s, keep), x) == count_of(s, x),
    decreases s.len(),
{
    if s.len() > 0 {
        lemma_kept_count(s.drop_first(), keep, x);
        if keep(s[0]) {
            let rest = keep_map(s.drop_first(), keep, |a: A| a);
            assert(kept(s, keep)[0] == s[0]);
            assert(kept(s, keep).drop_first() =~= rest);
        } else {
            assert(s[0] != x);
        }
    }
}

/// A value the predicate rejects never occurs in the filtered sequence.
pub proof fn lemma_kept_count_absent<A>(s: Seq<A>, keep: spec_fn(A) -> bool, x: A)
    requires
        !keep(x),
    ensures
        count_of(kept(s, keep), x) == 0,
    decreases s.len(),
{
    if s.len() > 0 {
        lemma_kept_count_absent(s.drop_first(), keep, x);
        if keep(s[0]) {
            let rest = keep_map(s.drop_first(), keep, |a: A| a);
            assert(kept(s, keep)[0] == s[0]);
            assert(kept(s, keep).drop_first() =~= rest);
            assert(s[0] != x);
        }
    }
}

/// Occurring in a sequence is the same as occurring a positive number
/// of times.
pub proof fn lemma_count_contains<A>(s: Seq<A>, x: A)
    ensures
        s.contains(x) <==> count_of(s, x) > 0,
    decreases s.len(),
{
    if s.len() > 0 {
        lemma_count_contains(s.drop_first(), x);
        if s[0] == x {
            assert(s.contains(x));
        } else {
            assert(s.contains(x) <==> s.drop_first().contains(x)) by {
                if s.contains(x) {
                    let k = choose|k: int| 0 <= k < s.len() && s[k] == x;
                    assert(s.drop_first()[k - 1] == x);
                }
                if s.drop_first().contains(x) {
                    let k = choose|k: int| 0 <= k < s.drop_first().len() && s.drop_first()[k] == x;
                    assert(s[k + 1] == x);
                }
            }
        }
    }
}

} // verus!
