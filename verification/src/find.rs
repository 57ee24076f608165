//! Finding the item of a sequence that counts.
//!
//! Where several items of a sequence answer to the same key, the last one
//! counts: it was put there last.

use vstd::prelude::*;

verus! {

/// The index of the last item of `s` that `hit` holds of.
pub open spec fn last_where<T>(s: Seq<T>, hit: spec_fn(T) -> bool) -> Option<int>
    decreases s.len(),
{
    if s.len() == 0 {
        None
    } else if hit(s.last()) {
        Some(s.len() - 1)
    } else {
        last_where(s.drop_last(), hit)
    }
}

/// What `last_where` finds is an item that `hit` holds of, and it holds of
/// none behind it; where `last_where` finds nothing it holds of none.
pub proof fn lemma_last_where<T>(s: Seq<T>, hit: spec_fn(T) -> bool)
    ensures
        match last_where(s, hit) {
            Some(i) => 0 <= i < s.len() && hit(s[i]) && forall|j: int|
                i < j < s.len() ==> !hit(#[trigger] s[j]),
            None => forall|j: int| 0 <= j < s.len() ==> !hit(#[trigger] s[j]),
        },
    decreases s.len(),
{
    if s.len() > 0 && !hit(s.last()) {
        let t = s.drop_last();
        lemma_last_where(t, hit);
        assert(forall|j: int| 0 <= j < t.len() ==> s[j] == t[j]);
    }
}

} // verus!
