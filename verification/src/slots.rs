//! Fixed tables of optional slots: how many are occupied.
use vstd::prelude::*;

verus! {

/// Number of occupied slots.
pub open spec fn count_some<T>(s: Seq<Option<T>>) -> nat
    decreases s.len(),
{
    if s.len() == 0 { 0 } else { count_some(s.drop_last()) + if s.last() is Some { 1nat } else { 0nat } }
}

/// Replacing one slot changes the count by what left and what came.
pub proof fn lemma_count_some_update<T>(s: Seq<Option<T>>, i: int, v: Option<T>)
    requires 0 <= i < s.len(),
    ensures
        count_some(s.update(i, v)) == count_some(s) - (if s[i] is Some { 1int } else { 0int })
            + (if v is Some { 1int } else { 0int }),
    decreases s.len(),
{
    if i == s.len() - 1 {
        assert(s.update(i, v).drop_last() =~= s.drop_last());
    } else {
        lemma_count_some_update(s.drop_last(), i, v);
        assert(s.update(i, v).drop_last() =~= s.drop_last().update(i, v));
    }
}

/// There are no more occupied slots than slots.
pub proof fn lemma_count_some_bound<T>(s: Seq<Option<T>>)
    ensures count_some(s) <= s.len(),
    decreases s.len(),
{
    if s.len() > 0 { lemma_count_some_bound(s.drop_last()); }
}

/// A table with every slot occupied counts all its slots.
pub proof fn lemma_count_full<T>(s: Seq<Option<T>>)
    requires forall|i: int| 0 <= i < s.len() ==> #[trigger] s[i] is Some,
    ensures count_some(s) == s.len(),
    decreases s.len(),
{
    if s.len() > 0 {
        assert forall|i: int| 0 <= i < s.drop_last().len() implies #[trigger] s.drop_last()[i] is Some by {
            assert(s[i] is Some);
        }
        lemma_count_full(s.drop_last());
        assert(s[s.len() - 1] is Some);
    }
}

/// A table with a free slot has fewer occupied slots than slots.
pub proof fn lemma_count_lt<T>(s: Seq<Option<T>>, j: int)
    requires 0 <= j < s.len(), s[j] is None,
    ensures count_some(s) < s.len(),
    decreases s.len(),
{
    if j == s.len() - 1 {
        lemma_count_some_bound(s.drop_last());
    } else {
        lemma_count_lt(s.drop_last(), j);
    }
}

/// A table with an occupied slot has a positive count.
pub proof fn lemma_count_pos<T>(s: Seq<Option<T>>, j: int)
    requires 0 <= j < s.len(), s[j] is Some,
    ensures count_some(s) > 0,
    decreases s.len(),
{
    if j < s.len() - 1 {
        lemma_count_pos(s.drop_last(), j);
    }
}

} // verus!
