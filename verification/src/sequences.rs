//! Facts about flattened and filtered sequences that the proofs on motif
//! sequences share.

use vstd::prelude::*;
use vstd::seq_lib::lemma_no_dup_in_concat;
use crate::graph::ascending;

verus! {

/// Every item of the flattened rows is an item of one of the rows: the
/// result is the row and the place in it.
pub proof fn lemma_flatten_item<A>(rows: Seq<Seq<A>>, k: int) -> (at: (int, int))
    requires
        0 <= k < rows.flatten().len(),
    ensures
        0 <= at.0 < rows.len(),
        0 <= at.1 < rows[at.0].len(),
        rows.flatten()[k] == rows[at.0][at.1],
    decreases rows.len(),
{
    if k < rows.first().len() {
        (0, k)
    } else {
        let rest = lemma_flatten_item(rows.drop_first(), k - rows.first().len());
        (rest.0 + 1, rest.1)
    }
}

/// Every item of a row is an item of the flattened rows.
pub proof fn lemma_flatten_holds<A>(rows: Seq<Seq<A>>, i: int, j: int) -> (k: int)
    requires
        0 <= i < rows.len(),
        0 <= j < rows[i].len(),
    ensures
        0 <= k < rows.flatten().len(),
        rows.flatten()[k] == rows[i][j],
    decreases rows.len(),
{
    if i == 0 {
        j
    } else {
        let rest = lemma_flatten_holds(rows.drop_first(), i - 1, j);
        rows.first().len() + rest
    }
}

/// Rows without a repeated item, no two of which share an item, flatten to a
/// sequence without a repeated item.
pub proof fn lemma_flatten_no_duplicates<A>(rows: Seq<Seq<A>>)
    requires
        forall|i: int| 0 <= i < rows.len() ==> (#[trigger] rows[i]).no_duplicates(),
        forall|i: int, j: int, a: int, b: int|
            0 <= i < j < rows.len() && 0 <= a < rows[i].len() && 0 <= b < rows[j].len()
                ==> #[trigger] rows[i][a] != #[trigger] rows[j][b],
    ensures
        rows.flatten().no_duplicates(),
    decreases rows.len(),
{
    if rows.len() > 0 {
        let head = rows.first();
        let tail = rows.drop_first();
        assert forall|i: int| 0 <= i < tail.len() implies (#[trigger] tail[i]).no_duplicates() by {
            assert(tail[i] == rows[i + 1]);
        }
        assert forall|i: int, j: int, a: int, b: int|
            0 <= i < j < tail.len() && 0 <= a < tail[i].len() && 0 <= b < tail[j].len()
                implies #[trigger] tail[i][a] != #[trigger] tail[j][b] by {
            assert(tail[i] == rows[i + 1]);
            assert(tail[j] == rows[j + 1]);
            assert(rows[i + 1][a] != rows[j + 1][b]);
        }
        lemma_flatten_no_duplicates(tail);
        assert forall|a: int, k: int| 0 <= a < head.len() && 0 <= k < tail.flatten().len()
            implies head[a] != tail.flatten()[k] by {
            let at = lemma_flatten_item(tail, k);
            assert(tail[at.0] == rows[at.0 + 1]);
            assert(rows[0][a] != rows[at.0 + 1][at.1]);
        }
        lemma_no_dup_in_concat(head, tail.flatten());
    }
}

/// Filtering an ascending list leaves an ascending list.
pub proof fn lemma_filter_ascending(list: Seq<usize>, keep: spec_fn(usize) -> bool)
    requires
        ascending(list),
    ensures
        ascending(list.filter(keep)),
    decreases list.len(),
{
    reveal(Seq::filter);
    if list.len() > 0 {
        let front = list.drop_last();
        lemma_filter_ascending(front, keep);
        if keep(list.last()) {
            let kept = front.filter(keep);
            assert forall|i: int, j: int| 0 <= i < j < kept.push(list.last()).len() implies kept.push(
                list.last(),
            )[i] < kept.push(list.last())[j] by {
                if j == kept.len() {
                    assert(kept.contains(kept[i]));
                    front.lemma_filter_contains_rev(keep, kept[i]);
                    let at = choose|at: int| 0 <= at < front.len() && front[at] == kept[i];
                    assert(list[at] < list[list.len() - 1]);
                }
            }
        }
    }
}

/// Every item of a filtered list is an item of the list that the filter
/// keeps.
pub proof fn lemma_filter_item<A>(list: Seq<A>, keep: spec_fn(A) -> bool, k: int) -> (at: int)
    requires
        0 <= k < list.filter(keep).len(),
    ensures
        0 <= at < list.len(),
        list[at] == list.filter(keep)[k],
        keep(list[at]),
{
    let kept = list.filter(keep);
    list.lemma_filter_pred(keep, k);
    assert(kept.contains(kept[k]));
    list.lemma_filter_contains_rev(keep, kept[k]);
    choose|at: int| 0 <= at < list.len() && list[at] == kept[k]
}

} // verus!
