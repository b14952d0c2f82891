//! Counting the occurrences of each category.

use vstd::prelude::*;
use crate::category::{
    basic_category, determine_motif_category_basic, determine_motif_category_by_node_type,
    node_type_category, ClassifyError, MotifCategoryBasic, MotifCategoryByNodeType,
    BASIC_CATEGORIES, NODE_TYPE_CATEGORIES,
};
use crate::graph::{node_views, Node, NodeView};
use crate::motif::MotifShape;

verus! {

/// Holds of `k` alone.
pub open spec fn same_as(k: nat) -> spec_fn(nat) -> bool {
    |o: nat| o == k
}

/// How often `k` stands in the sequence.
pub open spec fn occurrences(ordinals: Seq<nat>, k: nat) -> nat {
    ordinals.filter(same_as(k)).len()
}

/// For each of the first `categories` ordinals, how often it stands in the
/// sequence.
pub open spec fn tally(ordinals: Seq<nat>, categories: nat) -> Seq<nat> {
    Seq::new(categories, |k: int| occurrences(ordinals, k as nat))
}

/// The sum of the counts.
pub open spec fn total(counts: Seq<nat>) -> nat
    decreases counts.len(),
{
    if counts.len() == 0 {
        0
    } else {
        total(counts.drop_last()) + counts.last()
    }
}

/// Counters as numbers.
pub open spec fn as_nats(counts: Seq<usize>) -> Seq<nat> {
    Seq::new(counts.len(), |k: int| counts[k] as nat)
}

/// The ordinal of the category by shape of each occurrence.
pub open spec fn basic_ordinals(motifs: Seq<MotifShape>) -> Seq<nat> {
    Seq::new(motifs.len(), |i: int| basic_category(motifs[i]).ordinal())
}

/// The ordinal of the category by shape and polarity of each occurrence, or
/// the error of the first occurrence that has no such category.
pub open spec fn node_type_ordinals(nodes: Seq<NodeView>, motifs: Seq<MotifShape>) -> Result<
    Seq<nat>,
    ClassifyError,
>
    decreases motifs.len(),
{
    if motifs.len() == 0 {
        Ok(Seq::empty())
    } else {
        match node_type_ordinals(nodes, motifs.drop_last()) {
            Err(e) => Err(e),
            Ok(ordinals) => match node_type_category(nodes, motifs.last()) {
                Err(e) => Err(e),
                Ok(category) => Ok(ordinals.push(category.ordinal())),
            },
        }
    }
}

proof fn lemma_occurrences_push(ordinals: Seq<nat>, next: nat, k: nat)
    ensures
        occurrences(ordinals.push(next), k) == occurrences(ordinals, k) + if next == k {
            1nat
        } else {
            0nat
        },
        occurrences(ordinals, k) <= ordinals.len(),
{
    ordinals.lemma_filter_push(next, same_as(k));
    ordinals.lemma_filter_len(same_as(k));
}

proof fn lemma_occurrences_empty(k: nat)
    ensures
        occurrences(Seq::<nat>::empty(), k) == 0,
{
    Seq::<nat>::empty().lemma_filter_len(same_as(k));
}

proof fn lemma_total_zero(counts: Seq<nat>)
    requires
        forall|k: int| 0 <= k < counts.len() ==> counts[k] == 0,
    ensures
        total(counts) == 0,
    decreases counts.len(),
{
    if counts.len() > 0 {
        lemma_total_zero(counts.drop_last());
    }
}

proof fn lemma_total_update(counts: Seq<nat>, at: int)
    requires
        0 <= at < counts.len(),
    ensures
        total(counts.update(at, counts[at] + 1)) == total(counts) + 1,
    decreases counts.len(),
{
    let bumped = counts.update(at, counts[at] + 1);
    if at == counts.len() - 1 {
        assert(bumped.drop_last() =~= counts.drop_last());
    } else {
        lemma_total_update(counts.drop_last(), at);
        assert(bumped.drop_last() =~= counts.drop_last().update(at, counts[at] + 1));
    }
}

proof fn lemma_tally_push(ordinals: Seq<nat>, next: nat, categories: nat)
    requires
        next < categories,
    ensures
        tally(ordinals.push(next), categories) == tally(ordinals, categories).update(
            next as int,
            tally(ordinals, categories)[next as int] + 1,
        ),
        tally(ordinals, categories)[next as int] <= ordinals.len(),
{
    let counts = tally(ordinals, categories);
    assert forall|k: int| 0 <= k < categories implies tally(ordinals.push(next), categories)[k]
        == counts.update(next as int, counts[next as int] + 1)[k] by {
        lemma_occurrences_push(ordinals, next, k as nat);
    }
    lemma_occurrences_push(ordinals, next, next);
    assert(tally(ordinals.push(next), categories) =~= counts.update(
        next as int,
        counts[next as int] + 1,
    ));
}

proof fn lemma_tally_empty(categories: nat)
    ensures
        forall|k: int|
            0 <= k < categories ==> (#[trigger] tally(Seq::<nat>::empty(), categories)[k]) == 0,
{
    assert forall|k: int| 0 <= k < categories implies (#[trigger] tally(
        Seq::<nat>::empty(),
        categories,
    )[k]) == 0 by {
        lemma_occurrences_empty(k as nat);
    }
}

/// The counts of a sequence of ordinals, all below `categories`, sum to the
/// length of the sequence.
pub proof fn lemma_tally_total(ordinals: Seq<nat>, categories: nat)
    requires
        forall|i: int| 0 <= i < ordinals.len() ==> ordinals[i] < categories,
    ensures
        total(tally(ordinals, categories)) == ordinals.len(),
    decreases ordinals.len(),
{
    if ordinals.len() == 0 {
        assert(ordinals =~= Seq::<nat>::empty());
        lemma_tally_empty(categories);
        lemma_total_zero(tally(ordinals, categories));
    } else {
        let front = ordinals.drop_last();
        let last = ordinals.last();
        lemma_tally_total(front, categories);
        assert(ordinals =~= front.push(last));
        lemma_tally_push(front, last, categories);
        lemma_total_update(tally(front, categories), last as int);
    }
}

/// The counts by shape sum to the number of occurrences.
pub proof fn lemma_basic_counts_total(motifs: Seq<MotifShape>)
    ensures
        total(tally(basic_ordinals(motifs), BASIC_CATEGORIES as nat)) == motifs.len(),
{
    lemma_tally_total(basic_ordinals(motifs), BASIC_CATEGORIES as nat);
}

/// Where every occurrence has a category by shape and polarity, there is one
/// ordinal for each occurrence, and the counts sum to the number of
/// occurrences.
pub proof fn lemma_node_type_counts_total(nodes: Seq<NodeView>, motifs: Seq<MotifShape>)
    requires
        node_type_ordinals(nodes, motifs) is Ok,
    ensures
        node_type_ordinals(nodes, motifs)->Ok_0.len() == motifs.len(),
        forall|i: int|
            0 <= i < motifs.len() ==> node_type_ordinals(nodes, motifs)->Ok_0[i]
                < NODE_TYPE_CATEGORIES,
        total(tally(node_type_ordinals(nodes, motifs)->Ok_0, NODE_TYPE_CATEGORIES as nat))
            == motifs.len(),
    decreases motifs.len(),
{
    if motifs.len() > 0 {
        lemma_node_type_counts_total(nodes, motifs.drop_last());
    }
    lemma_tally_total(node_type_ordinals(nodes, motifs)->Ok_0, NODE_TYPE_CATEGORIES as nat);
}

/// Every occurrence has a category by shape and polarity exactly where each
/// of them has one.
pub proof fn lemma_node_type_ordinals_ok(nodes: Seq<NodeView>, motifs: Seq<MotifShape>)
    ensures
        node_type_ordinals(nodes, motifs) is Ok <==> forall|i: int|
            0 <= i < motifs.len() ==> node_type_category(nodes, #[trigger] motifs[i]) is Ok,
    decreases motifs.len(),
{
    if motifs.len() > 0 {
        let front = motifs.drop_last();
        lemma_node_type_ordinals_ok(nodes, front);
        if node_type_ordinals(nodes, motifs) is Ok {
            assert forall|i: int| 0 <= i < motifs.len() implies node_type_category(
                nodes,
                #[trigger] motifs[i],
            ) is Ok by {
                if i < front.len() {
                    assert(front[i] == motifs[i]);
                }
            }
        }
        if forall|i: int|
            0 <= i < motifs.len() ==> node_type_category(nodes, #[trigger] motifs[i]) is Ok {
            assert forall|i: int| 0 <= i < front.len() implies node_type_category(
                nodes,
                #[trigger] front[i],
            ) is Ok by {
                assert(front[i] == motifs[i]);
            }
            assert(node_type_category(nodes, motifs[motifs.len() - 1]) is Ok);
        }
    }
}

/// Counts the occurrences of each category by shape. The counter of a
/// category stands at the ordinal of the category.
pub fn count_basic(motifs: &Vec<MotifShape>) -> (counts: [usize; 4])
    ensures
        as_nats(counts@) == tally(basic_ordinals(motifs@), BASIC_CATEGORIES as nat),
{
    let mut counts: [usize; 4] = [0usize; 4];
    let n: usize = motifs.len();
    let mut i: usize = 0;
    proof {
        assert(basic_ordinals(motifs@.take(0)) =~= Seq::<nat>::empty());
        lemma_tally_empty(4);
        assert(as_nats(counts@) =~= tally(basic_ordinals(motifs@.take(0)), 4));
    }
    while i < n
        invariant
            n == motifs@.len(),
            i <= n,
            as_nats(counts@) == tally(basic_ordinals(motifs@.take(i as int)), 4),
        decreases n - i,
    {
        let slot: usize = determine_motif_category_basic(&motifs[i]).int_value();
        let ghost seen = basic_ordinals(motifs@.take(i as int));
        let ghost before = counts@;
        proof {
            assert(basic_ordinals(motifs@.take(i + 1)) =~= seen.push(slot as nat));
            lemma_tally_push(seen, slot as nat, 4);
            assert(as_nats(before)[slot as int] == before[slot as int]);
        }
        let count: usize = counts[slot];
        counts[slot] = count + 1;
        proof {
            assert(as_nats(counts@) =~= as_nats(before).update(slot as int, (count + 1) as nat));
        }
        i += 1;
    }
    proof {
        assert(motifs@.take(n as int) =~= motifs@);
    }
    counts
}

/// Counts the occurrences of each category by shape and polarity. The
/// counter of a category stands at the ordinal of the category. Where an
/// occurrence has no such category, the error of the first one is returned.
pub fn count_by_node_type(nodes: &Vec<Node>, motifs: &Vec<MotifShape>) -> (counted: Result<
    [usize; 12],
    ClassifyError,
>)
    ensures
        match counted {
            Ok(counts) => node_type_ordinals(node_views(nodes@), motifs@) matches Ok(ordinals)
                && as_nats(counts@) == tally(ordinals, NODE_TYPE_CATEGORIES as nat),
            Err(e) => node_type_ordinals(node_views(nodes@), motifs@) == Err::<
                Seq<nat>,
                ClassifyError,
            >(e),
        },
{
    let ghost views = node_views(nodes@);
    let mut counts: [usize; 12] = [0usize; 12];
    let n: usize = motifs.len();
    let mut i: usize = 0;
    proof {
        assert(motifs@.take(0) =~= Seq::<MotifShape>::empty());
        lemma_tally_empty(12);
        assert(as_nats(counts@) =~= tally(Seq::<nat>::empty(), 12));
    }
    while i < n
        invariant
            n == motifs@.len(),
            i <= n,
            views == node_views(nodes@),
            node_type_ordinals(views, motifs@.take(i as int)) matches Ok(ordinals) && ordinals.len()
                == i && as_nats(counts@) == tally(ordinals, 12),
        decreases n - i,
    {
        let ghost seen = node_type_ordinals(views, motifs@.take(i as int))->Ok_0;
        let ghost before = counts@;
        proof {
            assert(motifs@.take(i + 1).drop_last() =~= motifs@.take(i as int));
            assert(motifs@.take(i + 1).last() == motifs@[i as int]);
        }
        match determine_motif_category_by_node_type(nodes, &motifs[i]) {
            Err(e) => {
                proof {
                    lemma_node_type_error_stays(views, motifs@, i + 1);
                }
                return Err(e);
            },
            Ok(category) => {
                let slot: usize = category.int_value();
                proof {
                    lemma_tally_push(seen, slot as nat, 12);
                    assert(as_nats(before)[slot as int] == before[slot as int]);
                }
                let count: usize = counts[slot];
                counts[slot] = count + 1;
                proof {
                    assert(as_nats(counts@) =~= as_nats(before).update(
                        slot as int,
                        (count + 1) as nat,
                    ));
                }
            },
        }
        i += 1;
    }
    proof {
        assert(motifs@.take(n as int) =~= motifs@);
    }
    Ok(counts)
}

proof fn lemma_node_type_error_stays(nodes: Seq<NodeView>, motifs: Seq<MotifShape>, at: int)
    requires
        0 <= at <= motifs.len(),
        node_type_ordinals(nodes, motifs.take(at)) is Err,
    ensures
        node_type_ordinals(nodes, motifs) == node_type_ordinals(nodes, motifs.take(at)),
    decreases motifs.len(),
{
    if at < motifs.len() {
        assert(motifs.drop_last().take(at) =~= motifs.take(at));
        lemma_node_type_error_stays(nodes, motifs.drop_last(), at);
    } else {
        assert(motifs.take(at) =~= motifs);
    }
}

/// The name and the counter of each category by shape, in the order of the
/// categories.
pub fn summary_basic(counts: &[usize; 4]) -> (lines: Vec<(&'static str, usize)>)
    ensures
        lines@.len() == BASIC_CATEGORIES,
        forall|k: int|
            0 <= k < BASIC_CATEGORIES ==> lines@[k].1 == counts@[k] && exists|
                category: MotifCategoryBasic,
            |
                category.ordinal() == k && (#[trigger] lines@[k]).0@ == category.label(),
{
    let mut lines: Vec<(&'static str, usize)> = Vec::new();
    let mut k: usize = 0;
    while k < 4
        invariant
            k <= 4,
            lines@.len() == k,
            forall|j: int|
                0 <= j < k ==> lines@[j].1 == counts@[j] && exists|category: MotifCategoryBasic|
                    category.ordinal() == j && (#[trigger] lines@[j]).0@ == category.label(),
        decreases 4 - k,
    {
        match MotifCategoryBasic::from_int(k) {
            Some(category) => {
                lines.push((category.name(), counts[k]));
            },
            None => {},
        }
        k += 1;
    }
    lines
}

/// The name and the counter of each category by shape and polarity, in the
/// order of the categories.
pub fn summary_by_node_type(counts: &[usize; 12]) -> (lines: Vec<(&'static str, usize)>)
    ensures
        lines@.len() == NODE_TYPE_CATEGORIES,
        forall|k: int|
            0 <= k < NODE_TYPE_CATEGORIES ==> lines@[k].1 == counts@[k] && exists|
                category: MotifCategoryByNodeType,
            |
                category.ordinal() == k && (#[trigger] lines@[k]).0@ == category.label(),
{
    let mut lines: Vec<(&'static str, usize)> = Vec::new();
    let mut k: usize = 0;
    while k < 12
        invariant
            k <= 12,
            lines@.len() == k,
            forall|j: int|
                0 <= j < k ==> lines@[j].1 == counts@[j] && exists|
                    category: MotifCategoryByNodeType,
                |
                    category.ordinal() == j && (#[trigger] lines@[j]).0@ == category.label(),
        decreases 12 - k,
    {
        match MotifCategoryByNodeType::from_int(k) {
            Some(category) => {
                lines.push((category.name(), counts[k]));
            },
            None => {},
        }
        k += 1;
    }
    lines
}

} // verus!
