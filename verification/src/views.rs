//! Sequences of values, seen through the view of each.

use vstd::prelude::*;

verus! {

/// The views of the values of `s`, in the same order.
pub open spec fn views<T: View>(s: Seq<T>) -> Seq<T::V> {
    Seq::new(s.len(), |i: int| s[i]@)
}

/// One more value at the end shows as one more view at the end.
pub proof fn lemma_views_push<T: View>(s: Seq<T>, last: T)
    ensures
        views(s.push(last)) == views(s).push(last@),
{
    assert(views(s.push(last)) =~= views(s).push(last@));
}

/// With the last value gone, the last view is gone.
pub proof fn lemma_views_drop_last<T: View>(s: Seq<T>)
    requires
        s.len() > 0,
    ensures
        views(s.drop_last()) == views(s).drop_last(),
        views(s).last() == s.last()@,
{
    assert(views(s.drop_last()) =~= views(s).drop_last());
}

} // verus!
