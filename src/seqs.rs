//! Sequences picked out of other sequences.
use vstd::prelude::*;

verus! {

/// The values that `f` gives for the elements of `s`, in order, where it
/// gives one.
pub open spec fn pick<A, B>(s: Seq<A>, f: spec_fn(A) -> Option<B>) -> Seq<B>
    decreases s.len(),
{
    if s.len() == 0 {
        Seq::empty()
    } else {
        let r = pick(s.drop_last(), f);
        match f(s.last()) {
            Some(b) => r.push(b),
            None => r,
        }
    }
}

/// A value is in `pick(s, f)` exactly when `f` gives it for some element of
/// `s`.
pub proof fn lemma_pick_contains<A, B>(s: Seq<A>, f: spec_fn(A) -> Option<B>, b: B)
    ensures
        pick(s, f).contains(b) <==> exists|j: int| 0 <= j < s.len() && f(#[trigger] s[j]) == Some(b),
    decreases s.len(),
{
    if s.len() > 0 {
        let t = s.drop_last();
        lemma_pick_contains(t, f, b);
        let r = pick(t, f);
        if pick(s, f).contains(b) {
            let k = choose|k: int| 0 <= k < pick(s, f).len() && pick(s, f)[k] == b;
            if k < r.len() {
                assert(r[k] == b);
                let j = choose|j: int| 0 <= j < t.len() && f(#[trigger] t[j]) == Some(b);
                assert(s[j] == t[j]);
            } else {
                assert(f(s[s.len() - 1]) == Some(b));
            }
        }
        if exists|j: int| 0 <= j < s.len() && f(#[trigger] s[j]) == Some(b) {
            let j = choose|j: int| 0 <= j < s.len() && f(#[trigger] s[j]) == Some(b);
            if j < t.len() {
                assert(t[j] == s[j]);
                let k = choose|k: int| 0 <= k < r.len() && r[k] == b;
                assert(pick(s, f)[k] == b);
            } else {
                assert(pick(s, f) == r.push(b));
                assert(pick(s, f)[r.len() as int] == b);
            }
        }
    }
}

/// Each element of `pick(s, f)` is what `f` gives for some element of `s`.
pub proof fn lemma_pick_from<A, B>(s: Seq<A>, f: spec_fn(A) -> Option<B>, k: int)
    requires
        0 <= k < pick(s, f).len(),
    ensures
        exists|j: int| 0 <= j < s.len() && f(#[trigger] s[j]) == Some(pick(s, f)[k]),
{
    assert(pick(s, f).contains(pick(s, f)[k]));
    lemma_pick_contains(s, f, pick(s, f)[k]);
}

/// Picking out of two sequences with the same elements gives two sequences
/// with the same elements, whatever the order of either.
pub proof fn lemma_pick_same_elements<A, B>(s1: Seq<A>, s2: Seq<A>, f: spec_fn(A) -> Option<B>)
    requires
        s1.to_set() == s2.to_set(),
    ensures
        pick(s1, f).to_set() == pick(s2, f).to_set(),
{
    assert forall|b: B| pick(s1, f).to_set().contains(b) <==> pick(s2, f).to_set().contains(b) by {
        lemma_pick_contains(s1, f, b);
        lemma_pick_contains(s2, f, b);
        if exists|j: int| 0 <= j < s1.len() && f(#[trigger] s1[j]) == Some(b) {
            let j = choose|j: int| 0 <= j < s1.len() && f(#[trigger] s1[j]) == Some(b);
            assert(s1.to_set().contains(s1[j]));
            assert(s2.to_set().contains(s1[j]));
            let i = choose|i: int| 0 <= i < s2.len() && s2[i] == s1[j];
            assert(f(s2[i]) == Some(b));
        }
        if exists|j: int| 0 <= j < s2.len() && f(#[trigger] s2[j]) == Some(b) {
            let j = choose|j: int| 0 <= j < s2.len() && f(#[trigger] s2[j]) == Some(b);
            assert(s2.to_set().contains(s2[j]));
            assert(s1.to_set().contains(s2[j]));
            let i = choose|i: int| 0 <= i < s1.len() && s1[i] == s2[j];
            assert(f(s1[i]) == Some(b));
        }
    }
    assert(pick(s1, f).to_set() =~= pick(s2, f).to_set());
}

} // verus!
