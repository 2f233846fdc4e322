//! The fan-out collection step's pure tail: partitioning fetch outcomes
//! into priced and failed items, sorting priced items by their low bound,
//! and aggregating the total value range.

use vstd::prelude::*;

use crate::inventory::SimpleInventoryEntry;
use crate::price::{FetchError, PriceRange};

verus! {

/// The outcome of pricing one item: a range, or a typed failure, each
/// keeping the originating item.
pub enum FetchOutcome {
    Priced(PriceRange, SimpleInventoryEntry),
    Failed(FetchError, SimpleInventoryEntry),
}

/// A successfully priced item.
pub struct PricedItem {
    pub range: PriceRange,
    pub entry: SimpleInventoryEntry,
}

/// An item whose price lookup failed.
pub struct FailedItem {
    pub error: FetchError,
    pub entry: SimpleInventoryEntry,
}

/// The priced items among the outcomes, in input order.
pub open spec fn priced_of(s: Seq<FetchOutcome>) -> Seq<PricedItem>
    decreases s.len(),
{
    if s.len() == 0 {
        Seq::empty()
    } else {
        let rest = priced_of(s.drop_first());
        match s[0] {
            FetchOutcome::Priced(range, entry) => seq![PricedItem { range, entry }] + rest,
            FetchOutcome::Failed(_, _) => rest,
        }
    }
}

/// The failed items among the outcomes, in input order.
pub open spec fn failed_of(s: Seq<FetchOutcome>) -> Seq<FailedItem>
    decreases s.len(),
{
    if s.len() == 0 {
        Seq::empty()
    } else {
        let rest = failed_of(s.drop_first());
        match s[0] {
            FetchOutcome::Priced(_, _) => rest,
            FetchOutcome::Failed(error, entry) => seq![FailedItem { error, entry }] + rest,
        }
    }
}

/// Splits the outcomes by tag into priced and failed items, keeping the
/// `(outcome, original item)` pairing of every entry and the input order
/// within each list.
pub fn partition_outcomes(outcomes: Vec<FetchOutcome>) -> (r: (Vec<PricedItem>, Vec<FailedItem>))
    ensures
        r.0@ == priced_of(outcomes@),
        r.1@ == failed_of(outcomes@),
{
    let mut priced: Vec<PricedItem> = Vec::new();
    let mut failed: Vec<FailedItem> = Vec::new();
    let mut rest = outcomes;
    let ghost all = rest@;
    let n = rest.len();
    let mut i: usize = 0;
    proof {
        assert(all.skip(0) =~= all);
        assert(Seq::<PricedItem>::empty() + priced_of(all) =~= priced_of(all));
        assert(Seq::<FailedItem>::empty() + failed_of(all) =~= failed_of(all));
    }
    while rest.len() > 0
        invariant
            all.len() == n,
            i + rest@.len() == n,
            rest@ == all.skip(i as int),
            priced_of(all) == priced@ + priced_of(all.skip(i as int)),
            failed_of(all) == failed@ + failed_of(all.skip(i as int)),
        decreases rest@.len(),
    {
        proof {
            let tail = all.skip(i as int);
            assert(tail[0] == all[i as int]);
            assert(tail.drop_first() =~= all.skip(i + 1));
        }
        let x = rest.remove(0);
        proof {
            assert(all.skip(i as int).remove(0) =~= all.skip(i + 1));
        }
        match x {
            FetchOutcome::Priced(range, entry) => {
                proof {
                    assert((priced@ + seq![PricedItem { range, entry }]) + priced_of(
                        all.skip(i + 1),
                    ) =~= priced@ + (seq![PricedItem { range, entry }] + priced_of(
                        all.skip(i + 1),
                    )));
                    assert(priced@.push(PricedItem { range, entry }) =~= priced@ + seq![
                        PricedItem { range, entry },
                    ]);
                }
                priced.push(PricedItem { range, entry });
            },
            FetchOutcome::Failed(error, entry) => {
                proof {
                    assert((failed@ + seq![FailedItem { error, entry }]) + failed_of(
                        all.skip(i + 1),
                    ) =~= failed@ + (seq![FailedItem { error, entry }] + failed_of(
                        all.skip(i + 1),
                    )));
                    assert(failed@.push(FailedItem { error, entry }) =~= failed@ + seq![
                        FailedItem { error, entry },
                    ]);
                }
                failed.push(FailedItem { error, entry });
            },
        }
        i += 1;
    }
    proof {
        assert(all.skip(n as int) =~= Seq::<FetchOutcome>::empty());
        assert(priced@ + Seq::<PricedItem>::empty() =~= priced@);
        assert(failed@ + Seq::<FailedItem>::empty() =~= failed@);
    }
    (priced, failed)
}

/// Partitioning is a total, disjoint split: the two output lists together
/// are exactly as long as the input, and each outcome's item lands in the
/// list of its tag.
pub proof fn lemma_partition_total(s: Seq<FetchOutcome>)
    ensures
        priced_of(s).len() + failed_of(s).len() == s.len(),
        forall|i: int|
            0 <= i < s.len() ==> match #[trigger] s[i] {
                FetchOutcome::Priced(range, entry) => priced_of(s).contains(
                    PricedItem { range, entry },
                ),
                FetchOutcome::Failed(error, entry) => failed_of(s).contains(
                    FailedItem { error, entry },
                ),
            },
    decreases s.len(),
{
    if s.len() > 0 {
        lemma_partition_total(s.drop_first());
        let t = s.drop_first();
        assert forall|i: int|
            0 <= i < s.len() implies match #[trigger] s[i] {
            FetchOutcome::Priced(range, entry) => priced_of(s).contains(
                PricedItem { range, entry },
            ),
            FetchOutcome::Failed(error, entry) => failed_of(s).contains(
                FailedItem { error, entry },
            ),
        } by {
            if i == 0 {
                match s[0] {
                    FetchOutcome::Priced(range, entry) => {
                        assert(priced_of(s)[0] == PricedItem { range, entry });
                    },
                    FetchOutcome::Failed(error, entry) => {
                        assert(failed_of(s)[0] == FailedItem { error, entry });
                    },
                }
            } else {
                assert(t[i - 1] == s[i]);
                match s[i] {
                    FetchOutcome::Priced(range, entry) => {
                        assert(priced_of(t).contains(PricedItem { range, entry }));
                        let j = choose|j: int|
                            0 <= j < priced_of(t).len() && priced_of(t)[j] == PricedItem {
                                range,
                                entry,
                            };
                        match s[0] {
                            FetchOutcome::Priced(r0, e0) => {
                                assert(priced_of(s)[j + 1] == PricedItem { range, entry });
                            },
                            FetchOutcome::Failed(_, _) => {
                                assert(priced_of(s)[j] == PricedItem { range, entry });
                            },
                        }
                    },
                    FetchOutcome::Failed(error, entry) => {
                        assert(failed_of(t).contains(FailedItem { error, entry }));
                        let j = choose|j: int|
                            0 <= j < failed_of(t).len() && failed_of(t)[j] == FailedItem {
                                error,
                                entry,
                            };
                        match s[0] {
                            FetchOutcome::Failed(e0, x0) => {
                                assert(failed_of(s)[j + 1] == FailedItem { error, entry });
                            },
                            FetchOutcome::Priced(_, _) => {
                                assert(failed_of(s)[j] == FailedItem { error, entry });
                            },
                        }
                    },
                }
            }
        }
    }
}

/// The priced list is ordered by low bound, ascending.
pub open spec fn sorted_by_low(s: Seq<PricedItem>) -> bool {
    forall|i: int, j: int|
        0 <= i < j < s.len() ==> #[trigger] s[i].range.low <= #[trigger] s[j].range.low
}

/// `x` inserted into `s` after every entry whose low bound does not exceed
/// `x`'s: the insertion step of a stable insertion sort.
pub open spec fn insert_by_low(x: PricedItem, s: Seq<PricedItem>) -> Seq<PricedItem>
    decreases s.len(),
{
    if s.len() == 0 {
        seq![x]
    } else if s[0].range.low <= x.range.low {
        seq![s[0]] + insert_by_low(x, s.drop_first())
    } else {
        seq![x] + s
    }
}

/// `s` sorted ascending by low bound, stably: entries are taken in input
/// order and each is inserted after the entries that do not exceed it, so
/// ties keep their relative order.
pub open spec fn sort_by_low_spec(s: Seq<PricedItem>) -> Seq<PricedItem>
    decreases s.len(),
{
    if s.len() == 0 {
        s
    } else {
        insert_by_low(s.last(), sort_by_low_spec(s.drop_last()))
    }
}

/// Insertion adds one entry.
proof fn lemma_insert_len(x: PricedItem, s: Seq<PricedItem>)
    ensures
        insert_by_low(x, s).len() == s.len() + 1,
    decreases s.len(),
{
    if s.len() > 0 && s[0].range.low <= x.range.low {
        lemma_insert_len(x, s.drop_first());
    }
}

/// Insertion keeps exactly the old entries plus the new one.
proof fn lemma_insert_elts(x: PricedItem, s: Seq<PricedItem>, k: int)
    requires
        0 <= k < insert_by_low(x, s).len(),
    ensures
        insert_by_low(x, s)[k] == x || exists|j: int|
            0 <= j < s.len() && insert_by_low(x, s)[k] == #[trigger] s[j],
    decreases s.len(),
{
    lemma_insert_len(x, s);
    if s.len() == 0 {
    } else if s[0].range.low <= x.range.low {
        if k == 0 {
            assert(insert_by_low(x, s)[0] == s[0]);
        } else {
            lemma_insert_elts(x, s.drop_first(), k - 1);
            assert(insert_by_low(x, s)[k] == insert_by_low(x, s.drop_first())[k - 1]);
            if insert_by_low(x, s.drop_first())[k - 1] != x {
                let j = choose|j: int|
                    0 <= j < s.drop_first().len() && insert_by_low(x, s.drop_first())[k - 1]
                        == #[trigger] s.drop_first()[j];
                assert(insert_by_low(x, s)[k] == s[j + 1]);
            }
        }
    }
}

/// Inserting into a sorted list keeps it sorted.
proof fn lemma_insert_sorted(x: PricedItem, s: Seq<PricedItem>)
    requires
        sorted_by_low(s),
    ensures
        sorted_by_low(insert_by_low(x, s)),
    decreases s.len(),
{
    lemma_insert_len(x, s);
    if s.len() == 0 {
    } else if s[0].range.low <= x.range.low {
        assert(sorted_by_low(s.drop_first()));
        lemma_insert_sorted(x, s.drop_first());
        lemma_insert_len(x, s.drop_first());
        let out = insert_by_low(x, s);
        let inner = insert_by_low(x, s.drop_first());
        assert forall|i: int, j: int|
            0 <= i < j < out.len() implies #[trigger] out[i].range.low
            <= #[trigger] out[j].range.low by {
            if i == 0 {
                lemma_insert_elts(x, s.drop_first(), j - 1);
                assert(out[j] == inner[j - 1]);
                if inner[j - 1] == x {
                } else {
                    let k = choose|k: int|
                        0 <= k < s.drop_first().len() && inner[j - 1] == #[trigger] s.drop_first(
                        )[k];
                    assert(s[0].range.low <= s[k + 1].range.low);
                }
            } else {
                assert(out[i] == inner[i - 1]);
                assert(out[j] == inner[j - 1]);
            }
        }
    } else {
        let out = insert_by_low(x, s);
        assert forall|i: int, j: int|
            0 <= i < j < out.len() implies #[trigger] out[i].range.low
            <= #[trigger] out[j].range.low by {
            if i == 0 {
                assert(out[0] == x);
                assert(out[j] == s[j - 1]);
                assert(x.range.low < s[0].range.low);
            } else {
                assert(out[i] == s[i - 1]);
                assert(out[j] == s[j - 1]);
            }
        }
    }
}

/// The stable sort's result is sorted.
pub proof fn lemma_sort_sorted(s: Seq<PricedItem>)
    ensures
        sorted_by_low(sort_by_low_spec(s)),
    decreases s.len(),
{
    if s.len() > 0 {
        lemma_sort_sorted(s.drop_last());
        lemma_insert_sorted(s.last(), sort_by_low_spec(s.drop_last()));
    }
}

/// Inserting an entry that no entry of `s` exceeds appends it.
proof fn lemma_insert_at_end(x: PricedItem, s: Seq<PricedItem>)
    requires
        forall|i: int| 0 <= i < s.len() ==> #[trigger] s[i].range.low <= x.range.low,
    ensures
        insert_by_low(x, s) == s + seq![x],
    decreases s.len(),
{
    if s.len() == 0 {
        assert(insert_by_low(x, s) =~= s + seq![x]);
    } else {
        assert(forall|i: int|
            0 <= i < s.drop_first().len() ==> #[trigger] s.drop_first()[i].range.low
                <= x.range.low);
        lemma_insert_at_end(x, s.drop_first());
        assert(seq![s[0]] + (s.drop_first() + seq![x]) =~= s + seq![x]);
    }
}

/// A sorted list is a fixed point of the stable sort.
pub proof fn lemma_sort_fixpoint(s: Seq<PricedItem>)
    requires
        sorted_by_low(s),
    ensures
        sort_by_low_spec(s) == s,
    decreases s.len(),
{
    if s.len() > 0 {
        assert(sorted_by_low(s.drop_last()));
        lemma_sort_fixpoint(s.drop_last());
        lemma_insert_at_end(s.last(), s.drop_last());
        assert(s.drop_last() + seq![s.last()] =~= s);
    }
}

/// Sorting the priced list by low bound twice produces the same sequence as
/// sorting it once.
pub proof fn lemma_sort_idempotent(s: Seq<PricedItem>)
    ensures
        sort_by_low_spec(sort_by_low_spec(s)) == sort_by_low_spec(s),
{
    lemma_sort_sorted(s);
    lemma_sort_fixpoint(sort_by_low_spec(s));
}

/// Inserts `x` after every entry whose low bound does not exceed `x`'s.
fn insert_item_by_low(acc: Vec<PricedItem>, x: PricedItem) -> (r: Vec<PricedItem>)
    ensures
        r@ == insert_by_low(x, acc@),
{
    let n = acc.len();
    let mut idx: usize = 0;
    while idx < n && acc[idx].range.low <= x.range.low
        invariant
            idx <= n == acc@.len(),
            forall|j: int| 0 <= j < idx ==> #[trigger] acc@[j].range.low <= x.range.low,
        decreases n - idx,
    {
        idx += 1;
    }
    let ghost ghost_idx = idx as int;
    let mut out = acc;
    out.insert(idx, x);
    proof {
        lemma_insert_prefix(x, out@.remove(ghost_idx), ghost_idx);
        assert(out@.remove(ghost_idx) =~= acc@);
    }
    out
}

/// Inserting at the first position whose entry exceeds `x` matches
/// `Seq::insert` at that position.
proof fn lemma_insert_prefix(x: PricedItem, s: Seq<PricedItem>, idx: int)
    requires
        0 <= idx <= s.len(),
        forall|j: int| 0 <= j < idx ==> #[trigger] s[j].range.low <= x.range.low,
        idx < s.len() ==> s[idx].range.low > x.range.low,
    ensures
        insert_by_low(x, s) == s.insert(idx, x),
    decreases s.len(),
{
    if idx == 0 {
        if s.len() == 0 {
            assert(insert_by_low(x, s) =~= s.insert(0, x));
        } else {
            assert(insert_by_low(x, s) =~= s.insert(0, x));
        }
    } else {
        assert(forall|j: int|
            0 <= j < idx - 1 ==> #[trigger] s.drop_first()[j].range.low <= x.range.low);
        lemma_insert_prefix(x, s.drop_first(), idx - 1);
        assert(seq![s[0]] + s.drop_first().insert(idx - 1, x) =~= s.insert(idx, x));
    }
}

/// Sorts the priced list ascending by low bound, stably: each entry is
/// inserted after the already-placed entries that do not exceed it, so ties
/// keep their input order.
pub fn sort_priced_by_low(items: Vec<PricedItem>) -> (r: Vec<PricedItem>)
    ensures
        r@ == sort_by_low_spec(items@),
        sorted_by_low(r@),
{
    let mut acc: Vec<PricedItem> = Vec::new();
    let mut rest = items;
    let ghost all = rest@;
    let n = rest.len();
    let mut i: usize = 0;
    proof {
        assert(all.take(0) =~= Seq::<PricedItem>::empty());
    }
    while rest.len() > 0
        invariant
            all.len() == n,
            i + rest@.len() == n,
            rest@ == all.skip(i as int),
            acc@ == sort_by_low_spec(all.take(i as int)),
        decreases rest@.len(),
    {
        proof {
            assert(all.skip(i as int)[0] == all[i as int]);
            assert(all.skip(i as int).remove(0) =~= all.skip(i + 1));
            assert(all.take(i + 1).drop_last() =~= all.take(i as int));
            assert(all.take(i + 1).last() == all[i as int]);
        }
        let x = rest.remove(0);
        acc = insert_item_by_low(acc, x);
        i += 1;
    }
    proof {
        assert(all.take(n as int) =~= all);
        lemma_sort_sorted(all);
    }
    acc
}

/// The sum of the low bounds.
pub open spec fn sum_low(s: Seq<PricedItem>) -> int
    decreases s.len(),
{
    if s.len() == 0 {
        0
    } else {
        sum_low(s.drop_last()) + s.last().range.low
    }
}

/// The sum of the high bounds.
pub open spec fn sum_high(s: Seq<PricedItem>) -> int
    decreases s.len(),
{
    if s.len() == 0 {
        0
    } else {
        sum_high(s.drop_last()) + s.last().range.high
    }
}

/// Each sum is bounded by the number of entries times the largest bound.
proof fn lemma_sum_bounds(s: Seq<PricedItem>)
    ensures
        0 <= sum_low(s) <= s.len() * (u64::MAX as int),
        0 <= sum_high(s) <= s.len() * (u64::MAX as int),
    decreases s.len(),
{
    if s.len() > 0 {
        lemma_sum_bounds(s.drop_last());
        assert((s.len() - 1) * (u64::MAX as int) + (u64::MAX as int) == s.len() * (
        u64::MAX as int)) by (nonlinear_arith);
    }
}

/// With every range well formed, the sum of low bounds never exceeds the
/// sum of high bounds.
pub proof fn lemma_sum_low_le_high(s: Seq<PricedItem>)
    requires
        forall|i: int| 0 <= i < s.len() ==> (#[trigger] s[i]).range.wf(),
    ensures
        sum_low(s) <= sum_high(s),
    decreases s.len(),
{
    if s.len() > 0 {
        assert(forall|i: int|
            0 <= i < s.drop_last().len() ==> (#[trigger] s.drop_last()[i]).range.wf());
        lemma_sum_low_le_high(s.drop_last());
        assert(s.last() == s[s.len() - 1]);
    }
}

/// Accumulates the total value range of the priced items: the exact sums of
/// the low and the high bounds, the low total never above the high total
/// when every range is well formed.
pub fn total_value(priced: &Vec<PricedItem>) -> (r: (u128, u128))
    ensures
        r.0 == sum_low(priced@),
        r.1 == sum_high(priced@),
        (forall|i: int| 0 <= i < priced@.len() ==> (#[trigger] priced@[i]).range.wf()) ==> r.0
            <= r.1,
{
    let n = priced.len();
    let mut low_total: u128 = 0;
    let mut high_total: u128 = 0;
    let mut i: usize = 0;
    proof {
        assert(priced@.take(0) =~= Seq::<PricedItem>::empty());
    }
    while i < n
        invariant
            i <= n == priced@.len(),
            low_total == sum_low(priced@.take(i as int)),
            high_total == sum_high(priced@.take(i as int)),
        decreases n - i,
    {
        proof {
            assert(priced@.take(i + 1).drop_last() =~= priced@.take(i as int));
            assert(priced@.take(i + 1).last() == priced@[i as int]);
            lemma_sum_bounds(priced@.take(i + 1));
            assert((i + 1) * (u64::MAX as int) <= 0xffff_ffff_ffff_ffff * (u64::MAX as int)) by (
            nonlinear_arith)
                requires
                    0 <= i + 1 <= 0xffff_ffff_ffff_ffff,
            ;
        }
        low_total = low_total + priced[i].range.low as u128;
        high_total = high_total + priced[i].range.high as u128;
        i += 1;
    }
    proof {
        assert(priced@.take(n as int) =~= priced@);
        if forall|i: int| 0 <= i < priced@.len() ==> (#[trigger] priced@[i]).range.wf() {
            lemma_sum_low_le_high(priced@);
        }
    }
    (low_total, high_total)
}

} // verus!
