//! Facts about filtered sequences that the rest of the crate builds on.

use vstd::prelude::*;

verus! {

/// Filtering a sequence without repeated items leaves no repeated items.
pub proof fn lemma_filter_no_duplicates<A>(s: Seq<A>, pred: spec_fn(A) -> bool)
    requires
        s.no_duplicates(),
    ensures
        s.filter(pred).no_duplicates(),
    decreases s.len(),
{
    reveal(Seq::filter);
    if s.len() > 0 {
        let front = s.drop_last();
        lemma_filter_no_duplicates(front, pred);
        if pred(s.last()) {
            let kept = front.filter(pred);
            assert forall|i: int| 0 <= i < kept.len() implies kept[i] != s.last() by {
                assert(kept.contains(kept[i]));
                front.lemma_filter_contains_rev(pred, kept[i]);
                let j = choose|j: int| 0 <= j < front.len() && front[j] == kept[i];
                assert(s[j] == kept[i]);
            }
        }
    }
}

/// Filtering by one test and then by another keeps what passes both.
pub proof fn lemma_filter_twice<A>(
    s: Seq<A>,
    first: spec_fn(A) -> bool,
    second: spec_fn(A) -> bool,
    both: spec_fn(A) -> bool,
)
    requires
        forall|x: A| #[trigger] both(x) == (first(x) && second(x)),
    ensures
        s.filter(first).filter(second) == s.filter(both),
    decreases s.len(),
{
    if s.len() == 0 {
        s.lemma_filter_len(first);
        s.lemma_filter_len(both);
        s.filter(first).lemma_filter_len(second);
        assert(s.filter(first).filter(second) =~= s.filter(both));
    } else {
        let front = s.drop_last();
        let last = s.last();
        assert(s =~= front.push(last));
        front.lemma_filter_push(last, first);
        front.lemma_filter_push(last, both);
        front.filter(first).lemma_filter_push(last, second);
        lemma_filter_twice(front, first, second, both);
    }
}

/// Filtering keeps the order of what it keeps: two kept items stand in
/// the filtered sequence as they stand in the sequence itself.
pub proof fn lemma_filter_keeps_order<A>(s: Seq<A>, pred: spec_fn(A) -> bool, i: int, j: int)
    requires
        0 <= i < j < s.len(),
        pred(s[i]),
        pred(s[j]),
    ensures
        exists|m: int, n: int|
            0 <= m < n < s.filter(pred).len() && #[trigger] s.filter(pred)[m] == s[i]
                && #[trigger] s.filter(pred)[n] == s[j],
    decreases s.len(),
{
    let front = s.drop_last();
    let kept = front.filter(pred);
    assert(s =~= front.push(s.last()));
    front.lemma_filter_push(s.last(), pred);
    if j == s.len() - 1 {
        front.lemma_filter_contains(pred, i);
        let m = choose|m: int| 0 <= m < kept.len() && kept[m] == front[i];
        let n = kept.len() as int;
        assert(s.filter(pred)[m] == s[i] && s.filter(pred)[n] == s[j]);
    } else {
        lemma_filter_keeps_order(front, pred, i, j);
        let (m, n) = choose|m: int, n: int|
            0 <= m < n < kept.len() && #[trigger] kept[m] == front[i] && #[trigger] kept[n]
                == front[j];
        assert(s.filter(pred)[m] == s[i] && s.filter(pred)[n] == s[j]);
    }
}

} // verus!
