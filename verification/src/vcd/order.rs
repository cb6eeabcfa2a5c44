//! Facts about sequences that are kept in order.

use vstd::prelude::*;

verus! {

/// Where exactly the elements from `lo` up to `hi` satisfy a predicate,
/// filtering by it cuts out that stretch.
pub proof fn lemma_filter_is_subrange<A>(s: Seq<A>, pred: spec_fn(A) -> bool, lo: int, hi: int)
    requires
        0 <= lo <= hi <= s.len(),
        forall|i: int| 0 <= i < s.len() ==> (pred(#[trigger] s[i]) <==> lo <= i < hi),
    ensures
        s.filter(pred) == s.subrange(lo, hi),
    decreases s.len(),
{
    reveal(Seq::filter);
    if s.len() == 0 {
        assert(s.filter(pred) =~= s.subrange(lo, hi));
    } else {
        let rest = s.drop_last();
        let n = s.len() as int;
        assert forall|i: int| 0 <= i < rest.len() implies rest[i] == s[i] by {}
        if hi == n && lo < n {
            lemma_filter_is_subrange(rest, pred, lo, n - 1);
            assert(pred(s[n - 1]));
            assert(s.filter(pred) =~= s.subrange(lo, hi));
        } else if hi == n {
            lemma_filter_is_subrange(rest, pred, n - 1, n - 1);
            assert(!pred(s[n - 1]));
            assert(s.filter(pred) =~= s.subrange(lo, hi));
        } else {
            lemma_filter_is_subrange(rest, pred, lo, hi);
            assert(!pred(s[n - 1]));
            assert(s.filter(pred) =~= s.subrange(lo, hi));
        }
    }
}

} // verus!
