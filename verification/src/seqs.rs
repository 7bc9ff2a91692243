//! Small sequence lemmas shared by the loop proofs of this crate.

use vstd::prelude::*;

verus! {

/// Extending a prefix `s.take(i)` by one element yields `s.take(i + 1)`:
/// the loops of this crate build their results left to right and relate the
/// partial result to a recursive specification through this fact.
pub proof fn lemma_take_succ<A>(s: Seq<A>, i: int)
    requires
        0 <= i < s.len(),
    ensures
        s.take(i + 1).drop_last() =~= s.take(i),
        s.take(i + 1).last() == s[i],
{
}

/// A sequence is its own full prefix.
pub proof fn lemma_take_full<A>(s: Seq<A>)
    ensures
        s.take(s.len() as int) =~= s,
{
}

/// How many elements of `s` satisfy `f`.
pub open spec fn count_matching<A>(s: Seq<A>, f: spec_fn(A) -> bool) -> nat
    decreases s.len(),
{
    if s.len() == 0 {
        0
    } else {
        count_matching(s.drop_last(), f) + if f(s.last()) {
            1nat
        } else {
            0nat
        }
    }
}

/// The count of a predicate never exceeds the length of the sequence.
pub proof fn lemma_count_le_len<A>(s: Seq<A>, f: spec_fn(A) -> bool)
    ensures
        count_matching(s, f) <= s.len(),
    decreases s.len(),
{
    if s.len() > 0 {
        lemma_count_le_len(s.drop_last(), f);
    }
}


/// The elements of `s` that satisfy `f`, in order.
pub open spec fn keep_matching<A>(s: Seq<A>, f: spec_fn(A) -> bool) -> Seq<A>
    decreases s.len(),
{
    if s.len() == 0 {
        Seq::empty()
    } else {
        let rest = keep_matching(s.drop_last(), f);
        if f(s.last()) {
            rest.push(s.last())
        } else {
            rest
        }
    }
}

/// Filtering distributes over concatenation.
pub proof fn lemma_keep_concat<A>(a: Seq<A>, b: Seq<A>, f: spec_fn(A) -> bool)
    ensures
        keep_matching(a + b, f) =~= keep_matching(a, f) + keep_matching(b, f),
    decreases b.len(),
{
    if b.len() == 0 {
        assert(a + b =~= a);
    } else {
        lemma_keep_concat(a, b.drop_last(), f);
        assert((a + b).drop_last() =~= a + b.drop_last());
        assert((a + b).last() == b.last());
    }
}



/// A sequence longer than its finite universe repeats an element.
pub proof fn lemma_dup_in_seq<A>(s: Seq<A>, u: Set<A>)
    requires
        u.finite(),
        forall|k: int| 0 <= k < s.len() ==> u.contains(#[trigger] s[k]),
        s.len() > u.len(),
    ensures
        exists|i: int, j: int| 0 <= i < j < s.len() && s[i] == s[j],
    decreases s.len(),
{
    broadcast use vstd::set::group_set_axioms;

    if exists|j: int| 1 <= j < s.len() && #[trigger] s[j] == s[0] {
        let j = choose|j: int| 1 <= j < s.len() && #[trigger] s[j] == s[0];
        assert(0 <= 0 < j < s.len() && s[0] == s[j]);
    } else {
        let s2 = s.skip(1);
        let u2 = u.remove(s[0]);
        assert(u.contains(s[0]));
        assert(u2.len() == u.len() - 1);
        assert forall|k: int| 0 <= k < s2.len() implies u2.contains(#[trigger] s2[k]) by {
            assert(s2[k] == s[k + 1]);
            assert(!(1 <= k + 1 < s.len() && s[k + 1] == s[0]));
            assert(s[k + 1] != s[0]);
        }
        lemma_dup_in_seq(s2, u2);
        let (i, j) = choose|i: int, j: int| 0 <= i < j < s2.len() && s2[i] == s2[j];
        assert(s[i + 1] == s2[i] && s[j + 1] == s2[j]);
        assert(0 <= i + 1 < j + 1 < s.len() && s[i + 1] == s[j + 1]);
    }
}

} // verus!
