//! The usual size of a test is the median: half of the sizes lie on each side of it.

use crate::models::{MeasurementKind, RecordView};
use crate::order::{ascending, at_most, law_ascending_sorts};
use crate::traffic::{median, test_sizes, usual_size};
use crate::traffic_laws::moved;
use vstd::multiset::Multiset;
use vstd::prelude::*;
use vstd::relations::sorted_by;

verus! {

proof fn lemma_filter_of_multiset(values: Seq<u64>, kept: spec_fn(u64) -> bool)
    ensures
        values.filter(kept).len() == values.to_multiset().filter(kept).len(),
    decreases values.len(),
{
    broadcast use vstd::multiset::group_multiset_axioms;

    reveal(Seq::filter);
    if values.len() == 0 {
        values.to_multiset_ensures();
        assert(values.to_multiset().filter(kept) =~= Multiset::empty());
    } else {
        let front = values.drop_last();
        let last = values.last();
        lemma_filter_of_multiset(front, kept);
        assert(values =~= front.push(last));
        front.to_multiset_ensures();
        assert(values.to_multiset() =~= front.to_multiset().insert(last));
        let before = front.to_multiset().filter(kept);
        if kept(last) {
            assert(front.to_multiset().insert(last).filter(kept) =~= before.insert(last));
        } else {
            assert(front.to_multiset().insert(last).filter(kept) =~= before);
        }
    }
}

proof fn lemma_range_counts(values: Seq<u64>, kept: spec_fn(u64) -> bool, from: int, to: int)
    requires
        0 <= from <= to <= values.len(),
        forall|i: int| from <= i < to ==> kept(#[trigger] values[i]),
    ensures
        values.filter(kept).len() >= to - from,
    decreases values.len(),
{
    reveal(Seq::filter);
    if values.len() > 0 {
        let front = values.drop_last();
        let end = if to == values.len() {
            to - 1
        } else {
            to
        };
        let start = if from <= end {
            from
        } else {
            end
        };
        assert forall|i: int| start <= i < end implies kept(#[trigger] front[i]) by {
            assert(kept(values[i]));
        }
        lemma_range_counts(front, kept, start, end);
        if to == values.len() && from < to {
            assert(kept(values[values.len() - 1]));
        }
    }
}

proof fn lemma_sides(values: Seq<u64>, at: int, bound: int)
    requires
        0 <= at < values.len(),
    ensures
        bound >= ascending(values)[at] ==> values.filter(|value: u64| value <= bound).len() >= at + 1,
        bound <= ascending(values)[at] ==> values.filter(|value: u64| value >= bound).len() >= values.len() - at,
{
    let sorted = ascending(values);
    law_ascending_sorts(values);
    assert(sorted_by(sorted, at_most()));
    let low = |value: u64| value <= bound;
    let high = |value: u64| value >= bound;
    lemma_filter_of_multiset(values, low);
    lemma_filter_of_multiset(sorted, low);
    lemma_filter_of_multiset(values, high);
    lemma_filter_of_multiset(sorted, high);
    if bound >= sorted[at] {
        assert forall|i: int| 0 <= i < at + 1 implies low(#[trigger] sorted[i]) by {
            if i < at {
                assert(at_most()(sorted[i], sorted[at]));
            }
        }
        lemma_range_counts(sorted, low, 0, at + 1);
    }
    if bound <= sorted[at] {
        assert forall|i: int| at <= i < values.len() implies high(#[trigger] sorted[i]) by {
            if i > at {
                assert(at_most()(sorted[at], sorted[i]));
            }
        }
        lemma_range_counts(sorted, high, at, values.len() as int);
    }
}

/// The median of an odd number of sizes has more than half of them on each side, itself counted. That
/// of an even number is half the sum of the two middle ones: at least half of the sizes are at most the
/// lower and more than half at least the lower, and the other way round for the upper one.
pub proof fn law_median_halves_the_sizes(values: Seq<u64>) -> (middle: (int, int))
    requires
        values.len() > 0,
    ensures
        ({
            let (low, high) = middle;
            let n = values.len();
            let found = median(values);
            &&& found is Some
            &&& low <= high && 2 * found->0 <= low + high < 2 * found->0 + 2
            &&& n % 2 == 1 ==> low == found->0 && high == found->0
            &&& 2 * values.filter(|value: u64| value <= low).len() >= n
            &&& 2 * values.filter(|value: u64| value >= low).len() > n
            &&& 2 * values.filter(|value: u64| value <= high).len() > n
            &&& 2 * values.filter(|value: u64| value >= high).len() >= n
        }),
{
    let sorted = ascending(values);
    let n = values.len() as int;
    law_ascending_sorts(values);
    let upper = n / 2;
    let lower = if n % 2 == 0 {
        upper - 1
    } else {
        upper
    };
    let low = sorted[lower] as int;
    let high = sorted[upper] as int;
    if lower < upper {
        assert(sorted_by(sorted, at_most()));
        assert(at_most()(sorted[lower], sorted[upper]));
    }
    lemma_sides(values, lower, low);
    lemma_sides(values, upper, high);
    (low, high)
}

proof fn lemma_sizes_are_moved(
    records: Seq<RecordView>,
    node_id: Seq<char>,
    kind: MeasurementKind,
    positive: bool,
    bound: int,
)
    requires
        kind != MeasurementKind::Latency,
    ensures
        ({
            let own = records.filter(
                |record: RecordView|
                    record.node_id == node_id && record.kind == kind && record.success && (moved(record, kind) > 0
                        || !positive),
            );
            let sizes = test_sizes(records, node_id, kind, positive);
            &&& sizes.len() == own.len()
            &&& sizes.filter(|value: u64| value <= bound).len() == own.filter(
                |record: RecordView| moved(record, kind) <= bound,
            ).len()
            &&& sizes.filter(|value: u64| value >= bound).len() == own.filter(
                |record: RecordView| moved(record, kind) >= bound,
            ).len()
        }),
    decreases records.len(),
{
    reveal(Seq::filter);
    let is_own = |record: RecordView|
        record.node_id == node_id && record.kind == kind && record.success && (moved(record, kind) > 0
            || !positive);
    if records.len() > 0 {
        let front = records.drop_last();
        let last = records.last();
        lemma_sizes_are_moved(front, node_id, kind, positive, bound);
        let sizes = test_sizes(front, node_id, kind, positive);
        if is_own(last) {
            let own = front.filter(is_own);
            assert(own.push(last).drop_last() =~= own);
            assert(sizes.push(moved(last, kind)).drop_last() =~= sizes);
            assert(test_sizes(records, node_id, kind, positive) == sizes.push(moved(last, kind)));
        }
    }
}

/// The usual size of the tests of a node in one direction is the median of what its own successful
/// tests of that kind moved: half of them moved at most as much, and half at least as much.
pub proof fn law_usual_size_halves_own_sizes(
    records: Seq<RecordView>,
    node_id: Seq<char>,
    kind: MeasurementKind,
    positive: bool,
    default: int,
) -> (middle: (int, int))
    requires
        kind != MeasurementKind::Latency,
        exists|i: int|
            0 <= i < records.len() && (#[trigger] records[i]).node_id == node_id && records[i].kind == kind
                && records[i].success && (moved(records[i], kind) > 0 || !positive),
    ensures
        ({
            let own = records.filter(
                |record: RecordView|
                    record.node_id == node_id && record.kind == kind && record.success && (moved(record, kind) > 0
                        || !positive),
            );
            let (low, high) = middle;
            let usual = usual_size(records, node_id, kind, positive, default);
            &&& own.len() > 0
            &&& low <= high && 2 * usual <= low + high < 2 * usual + 2
            &&& own.len() % 2 == 1 ==> low == usual && high == usual
            &&& 2 * own.filter(|record: RecordView| moved(record, kind) <= low).len() >= own.len()
            &&& 2 * own.filter(|record: RecordView| moved(record, kind) >= low).len() > own.len()
            &&& 2 * own.filter(|record: RecordView| moved(record, kind) <= high).len() > own.len()
            &&& 2 * own.filter(|record: RecordView| moved(record, kind) >= high).len() >= own.len()
        }),
{
    let is_own = |record: RecordView|
        record.node_id == node_id && record.kind == kind && record.success && (moved(record, kind) > 0
            || !positive);
    let i = choose|i: int|
        0 <= i < records.len() && (#[trigger] records[i]).node_id == node_id && records[i].kind == kind
            && records[i].success && (moved(records[i], kind) > 0 || !positive);
    assert(is_own(records[i]));
    records.lemma_filter_contains(is_own, i);
    lemma_sizes_are_moved(records, node_id, kind, positive, 0);
    let sizes = test_sizes(records, node_id, kind, positive);
    let middle = law_median_halves_the_sizes(sizes);
    lemma_sizes_are_moved(records, node_id, kind, positive, middle.0);
    lemma_sizes_are_moved(records, node_id, kind, positive, middle.1);
    middle
}

} // verus!
