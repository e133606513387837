//! What holds of the samples from which medians and averages are computed.

use crate::floats::FloatBits;
use crate::models::{MeasurementKind, ParticipationState, RecordView};
use crate::order::{ascending, at_most, law_ascending_sorts};
use crate::rankings::{
    MetricKind, NodeSamples, RowView, count_records, counts, counts_as_success, excellent, is_sample,
    latency_places, of_kind, ranked_in, sample_places, samples_of, sorted_samples,
};
use crate::row_laws::counts_with_value;
use crate::table_laws::lemma_chosen_rows_are_filtered;
use vstd::prelude::*;
use vstd::relations::sorted_by;

verus! {

proof fn lemma_rank_is_found_again(value: FloatBits)
    ensures
        0 <= value.rank_view() <= u64::MAX,
        FloatBits::at_rank(value.rank_view() as u64) == value,
{
}

proof fn lemma_ascending(values: Seq<u64>, value: u64, j: int, k: int)
    ensures
        ascending(values).len() == values.len(),
        ascending(values).contains(value) <==> values.contains(value),
        0 <= j <= k < values.len() ==> ascending(values)[j] <= ascending(values)[k],
{
    law_ascending_sorts(values);
    let sorted = ascending(values);
    values.to_multiset_ensures();
    sorted.to_multiset_ensures();
    assert(sorted.to_multiset().count(value) == values.to_multiset().count(value));
    if 0 <= j < k < values.len() {
        assert(sorted_by(sorted, at_most()));
        assert(at_most()(sorted[j], sorted[k]));
    }
}

proof fn lemma_places_of_kind(records: Seq<RecordView>, kind: MeasurementKind, place: u64)
    ensures
        sample_places(of_kind(records, kind)).contains(place) <==> exists|i: int|
            0 <= i < records.len() && (#[trigger] records[i]).kind == kind && is_sample(records[i])
                && records[i].value->0.rank_view() as u64 == place,
    decreases records.len(),
{
    if records.len() > 0 {
        let front = records.drop_last();
        let last = records.last();
        let before = sample_places(of_kind(front, kind));
        let all = sample_places(of_kind(records, kind));
        lemma_places_of_kind(front, kind, place);
        let added = last.kind == kind && is_sample(last);
        if last.kind == kind {
            assert(of_kind(records, kind).drop_last() =~= of_kind(front, kind));
        }
        if before.contains(place) {
            let k = choose|k: int| 0 <= k < before.len() && before[k] == place;
            assert(all[k] == place);
            let i = choose|i: int|
                0 <= i < front.len() && (#[trigger] front[i]).kind == kind && is_sample(front[i])
                    && front[i].value->0.rank_view() as u64 == place;
            assert(records[i] == front[i]);
        } else if added && last.value->0.rank_view() as u64 == place {
            assert(all[all.len() - 1] == place);
            assert(records[records.len() - 1] == last);
        } else {
            if all.contains(place) {
                let k = choose|k: int| 0 <= k < all.len() && all[k] == place;
                if k < before.len() {
                    assert(before[k] == place);
                }
            }
            if exists|i: int|
                0 <= i < records.len() && (#[trigger] records[i]).kind == kind && is_sample(records[i])
                    && records[i].value->0.rank_view() as u64 == place {
                let i = choose|i: int|
                    0 <= i < records.len() && (#[trigger] records[i]).kind == kind && is_sample(records[i])
                        && records[i].value->0.rank_view() as u64 == place;
                assert(front[i] == records[i]);
            }
        }
    }
}

proof fn lemma_count_of_kind(
    records: Seq<RecordView>,
    kind: MeasurementKind,
    wanted: spec_fn(RecordView) -> bool,
    same: spec_fn(RecordView) -> bool,
)
    requires
        forall|record: RecordView| #[trigger] same(record) == (record.kind == kind && wanted(record)),
    ensures
        count_records(of_kind(records, kind), wanted) == records.filter(same).len(),
    decreases records.len(),
{
    reveal(Seq::filter);
    if records.len() > 0 {
        let front = records.drop_last();
        lemma_count_of_kind(front, kind, wanted, same);
        assert(same(records.last()) == (records.last().kind == kind && wanted(records.last())));
        if records.last().kind == kind {
            assert(of_kind(records, kind).drop_last() =~= of_kind(front, kind));
        }
    }
}

proof fn lemma_samples_of_kind(records: Seq<RecordView>, kind: MeasurementKind, i: int, j: int, k: int)
    requires
        0 <= i < records.len(),
    ensures
        ({
            let list = sorted_samples(of_kind(records, kind));
            &&& records[i].kind == kind && is_sample(records[i]) ==> list.contains(records[i].value->0)
            &&& 0 <= k < list.len() ==> exists|r: int|
                0 <= r < records.len() && (#[trigger] records[r]).kind == kind && is_sample(records[r])
                    && records[r].value == Some(list[k])
            &&& 0 <= j <= k < list.len() ==> list[j].rank_view() <= list[k].rank_view()
        }),
{
    let places = sample_places(of_kind(records, kind));
    let list = sorted_samples(of_kind(records, kind));
    if records[i].kind == kind && is_sample(records[i]) {
        let value = records[i].value->0;
        let place = value.rank_view() as u64;
        lemma_rank_is_found_again(value);
        lemma_places_of_kind(records, kind, place);
        lemma_ascending(places, place, 0, 0);
        let at = choose|at: int| 0 <= at < places.len() && ascending(places)[at] == place;
        assert(list[at] == value);
    }
    lemma_ascending(places, 0, j, k);
    if 0 <= k < list.len() {
        let place = ascending(places)[k];
        lemma_ascending(places, place, j, k);
        assert(ascending(places).contains(place));
        lemma_places_of_kind(records, kind, place);
        let r = choose|r: int|
            0 <= r < records.len() && (#[trigger] records[r]).kind == kind && is_sample(records[r])
                && records[r].value->0.rank_view() as u64 == place;
        lemma_rank_is_found_again(records[r].value->0);
        assert(list[k] == records[r].value->0);
        assert(records[r].value == Some(list[k]));
    }
}

/// The samples of a direction are the values of the node's own results of that kind that count and
/// succeeded, in ascending order: none is left out and none comes from elsewhere. Attempts and
/// successes are those of the latency tests that count.
pub proof fn law_samples_are_the_values_that_count(
    samples: NodeSamples,
    records: Seq<RecordView>,
    i: int,
    j: int,
    k: int,
)
    requires
        samples_of(samples, records),
        0 <= i < records.len(),
    ensures
        ({
            let (list, kind) = match records[i].kind {
                MeasurementKind::Latency => (samples.latency@, MeasurementKind::Latency),
                MeasurementKind::Download => (samples.download@, MeasurementKind::Download),
                MeasurementKind::Upload => (samples.upload@, MeasurementKind::Upload),
            };
            &&& counts_with_value(records[i]) ==> list.contains(records[i].value->0)
            &&& 0 <= k < list.len() ==> exists|r: int|
                0 <= r < records.len() && (#[trigger] records[r]).kind == kind && counts_with_value(records[r])
                    && records[r].value == Some(list[k])
            &&& 0 <= j <= k < list.len() ==> list[j].rank_view() <= list[k].rank_view()
        }),
        samples.latency_attempts == records.filter(
            |record: RecordView| record.kind == MeasurementKind::Latency && record.rank_eligible,
        ).len(),
        samples.latency_successes == records.filter(
            |record: RecordView|
                record.kind == MeasurementKind::Latency && record.rank_eligible && record.success,
        ).len(),
{
    let kind = records[i].kind;
    lemma_samples_of_kind(records, kind, i, j, k);
    lemma_count_of_kind(
        records,
        MeasurementKind::Latency,
        counts(),
        |record: RecordView| record.kind == MeasurementKind::Latency && record.rank_eligible,
    );
    lemma_count_of_kind(
        records,
        MeasurementKind::Latency,
        counts_as_success(),
        |record: RecordView|
            record.kind == MeasurementKind::Latency && record.rank_eligible && record.success,
    );
    let list = sorted_samples(of_kind(records, kind));
    if 0 <= k < list.len() {
        let r = choose|r: int|
            0 <= r < records.len() && (#[trigger] records[r]).kind == kind && is_sample(records[r])
                && records[r].value == Some(list[k]);
        assert(counts_with_value(records[r]));
    }
}

/// The excellent latencies are the best fifth of the median latencies of the participants, rounded
/// up: each is a median of one, and a participant whose median is not among them is no faster than any
/// of them.
pub proof fn law_excellent_latencies_are_the_best_fifth(rows: Seq<RowView>, i: int, k: int)
    requires
        0 <= i < rows.len(),
    ensures
        ({
            let best = excellent(rows);
            let measured = rows.filter(
                |row: RowView| row.state == ParticipationState::Participating && row.latency.median is Some,
            ).len();
            let row = rows[i];
            let ranked = row.state == ParticipationState::Participating && row.latency.median is Some;
            &&& measured <= 5 * best.len() < measured + 5
            &&& 0 <= k < best.len() ==> exists|r: int|
                0 <= r < rows.len() && (#[trigger] rows[r]).state == ParticipationState::Participating
                    && rows[r].latency.median == Some(best[k])
            &&& ranked && 0 <= k < best.len() ==> best.contains(row.latency.median->0) || best[k].rank_view()
                <= row.latency.median->0.rank_view()
        }),
{
    let kept = |row: RowView| row.state == ParticipationState::Participating && row.latency.median is Some;
    let chosen = ranked_in(MetricKind::Latency);
    assert forall|row: RowView| #[trigger] kept(row) == chosen(row) by {}
    lemma_chosen_rows_are_filtered(rows, chosen, kept);
    let ranked = rows.filter(kept);
    let places = latency_places(rows);
    let sorted = ascending(places);
    let best = excellent(rows);
    assert(places.len() == ranked.len());
    lemma_ascending(places, 0, 0, 0);
    if 0 <= k < best.len() {
        let place = sorted[k];
        assert(best[k] == FloatBits::at_rank(place));
        lemma_ascending(places, place, 0, 0);
        assert(sorted.contains(place));
        let at = choose|at: int| 0 <= at < places.len() && places[at] == place;
        rows.lemma_filter_pred(kept, at);
        rows.lemma_filter_contains_rev(kept, ranked[at]);
        let r = choose|r: int| 0 <= r < rows.len() && rows[r] == ranked[at];
        lemma_rank_is_found_again(ranked[at].latency.median->0);
        assert(kept(ranked[at]));
        assert(rows[r].latency.median == Some(best[k]));
        if kept(rows[i]) {
            rows.lemma_filter_contains(kept, i);
            let own = choose|own: int| 0 <= own < ranked.len() && ranked[own] == rows[i];
            let value = rows[i].latency.median->0;
            let own_place = places[own];
            lemma_rank_is_found_again(value);
            assert(own_place == value.rank_view() as u64);
            assert(places.contains(own_place));
            lemma_ascending(places, own_place, 0, 0);
            let p = choose|p: int| 0 <= p < sorted.len() && sorted[p] == own_place;
            if p < best.len() {
                assert(best[p] == value);
            } else {
                lemma_ascending(places, own_place, k, p);
                lemma_rank_is_found_again(best[k]);
                assert(FloatBits::at_rank(place).rank_view() == place);
            }
        }
    }
}

} // verus!
