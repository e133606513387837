//! What holds of the row of a node, stated of its fields and of the node's test results.

use crate::floats::FloatBits;
use crate::models::{BenchmarkWindow, MeasurementKind, NodeView, ParticipationState, RecordView};
use crate::order::{ascending, at_most, law_ascending_sorts};
use crate::rankings::{
    NodeFigures, any_record, confidence, count_records, counts, counts_as_success, failed, is_sample,
    latest_error, latest_time, metric_of, of_kind, open_error, records_of, row_of, sample_places,
    sorted_samples,
};
use crate::settings::SettingsView;
use vstd::prelude::*;

verus! {

/// Whether a result is a sample: its test counts and succeeded, and its value is a finite number
/// that is not negative.
pub open spec fn counts_with_value(record: RecordView) -> bool {
    record.rank_eligible && record.success && record.value is Some && (record.value->0.bits
        < 0x7ff0_0000_0000_0000 || record.value->0.bits == 0x8000_0000_0000_0000)
}

proof fn lemma_sample(record: RecordView)
    ensures
        is_sample(record) == counts_with_value(record),
{
    if record.value is Some {
        let bits = record.value->0.bits as int;
        assert(bits >= 0x8000_0000_0000_0000 ==> bits % 0x8000_0000_0000_0000 == bits - 0x8000_0000_0000_0000);
    }
}

proof fn lemma_kind_counts(
    records: Seq<RecordView>,
    kind: MeasurementKind,
    wanted: spec_fn(RecordView) -> bool,
    same: spec_fn(RecordView) -> bool,
)
    requires
        forall|record: RecordView| #[trigger] same(record) == (record.kind == kind && wanted(record)),
    ensures
        count_records(of_kind(records, kind), wanted) == records.filter(same).len(),
    decreases records.len(),
{
    reveal(Seq::filter);
    if records.len() > 0 {
        let front = records.drop_last();
        lemma_kind_counts(front, kind, wanted, same);
        assert(same(records.last()) == (records.last().kind == kind && wanted(records.last())));
        if records.last().kind == kind {
            assert(of_kind(records, kind).drop_last() =~= of_kind(front, kind));
        }
    }
}

proof fn lemma_all_count(records: Seq<RecordView>)
    ensures
        count_records(records, any_record()) == records.len(),
    decreases records.len(),
{
    if records.len() > 0 {
        lemma_all_count(records.drop_last());
    }
}

proof fn lemma_sample_count(records: Seq<RecordView>)
    ensures
        sample_places(records).len() == count_records(records, |record: RecordView| counts_with_value(record)),
    decreases records.len(),
{
    if records.len() > 0 {
        lemma_sample_count(records.drop_last());
        lemma_sample(records.last());
    }
}

proof fn lemma_metric_counts(records: Seq<RecordView>, kind: MeasurementKind)
    ensures
        of_kind(records, kind).len() == records.filter(|record: RecordView| record.kind == kind).len(),
        count_records(of_kind(records, kind), failed()) == records.filter(
            |record: RecordView| record.kind == kind && !record.success,
        ).len(),
        sorted_samples(of_kind(records, kind)).len() == records.filter(
            |record: RecordView| record.kind == kind && counts_with_value(record),
        ).len(),
        count_records(of_kind(records, kind), counts()) == records.filter(
            |record: RecordView| record.kind == kind && record.rank_eligible,
        ).len(),
        count_records(of_kind(records, kind), counts_as_success()) == records.filter(
            |record: RecordView| record.kind == kind && record.rank_eligible && record.success,
        ).len(),
{
    let own = of_kind(records, kind);
    lemma_all_count(own);
    lemma_sample_count(own);
    law_ascending_sorts(sample_places(own));
    lemma_kind_counts(records, kind, any_record(), |record: RecordView| record.kind == kind);
    lemma_kind_counts(
        records,
        kind,
        failed(),
        |record: RecordView| record.kind == kind && !record.success,
    );
    lemma_kind_counts(
        records,
        kind,
        |record: RecordView| counts_with_value(record),
        |record: RecordView| record.kind == kind && counts_with_value(record),
    );
    lemma_kind_counts(
        records,
        kind,
        counts(),
        |record: RecordView| record.kind == kind && record.rank_eligible,
    );
    lemma_kind_counts(
        records,
        kind,
        counts_as_success(),
        |record: RecordView| record.kind == kind && record.rank_eligible && record.success,
    );
}

/// The numbers of a row are those of the node's own results: each kind of test is counted apart,
/// failures are those that failed, the latency tests of the row are those that count, its successes
/// are those of them that succeeded, and samples are counting successes with a usable value.
pub proof fn law_rows_count_results(
    node: NodeView,
    records: Seq<RecordView>,
    figures: NodeFigures,
    settings: SettingsView,
    now: int,
)
    ensures
        ({
            let row = row_of(node, records, figures, settings, now);
            &&& row.latency_attempts == records.filter(
                |record: RecordView| record.kind == MeasurementKind::Latency && record.rank_eligible,
            ).len()
            &&& row.latency_successes == records.filter(
                |record: RecordView|
                    record.kind == MeasurementKind::Latency && record.rank_eligible && record.success,
            ).len()
            &&& row.latency.attempts == records.filter(
                |record: RecordView| record.kind == MeasurementKind::Latency,
            ).len()
            &&& row.download.attempts == records.filter(
                |record: RecordView| record.kind == MeasurementKind::Download,
            ).len()
            &&& row.upload.attempts == records.filter(
                |record: RecordView| record.kind == MeasurementKind::Upload,
            ).len()
            &&& row.latency.failures == records.filter(
                |record: RecordView| record.kind == MeasurementKind::Latency && !record.success,
            ).len()
            &&& row.download.failures == records.filter(
                |record: RecordView| record.kind == MeasurementKind::Download && !record.success,
            ).len()
            &&& row.upload.failures == records.filter(
                |record: RecordView| record.kind == MeasurementKind::Upload && !record.success,
            ).len()
            &&& row.latency.samples == records.filter(
                |record: RecordView| record.kind == MeasurementKind::Latency && counts_with_value(record),
            ).len()
            &&& row.download.samples == records.filter(
                |record: RecordView| record.kind == MeasurementKind::Download && counts_with_value(record),
            ).len()
            &&& row.upload.samples == records.filter(
                |record: RecordView| record.kind == MeasurementKind::Upload && counts_with_value(record),
            ).len()
            &&& row.latency.median is Some <==> row.latency.samples > 0
            &&& row.download.median is Some <==> row.download.samples > 0
            &&& row.upload.median is Some <==> row.upload.samples > 0
            &&& row.stability_percent is Some <==> row.latency_attempts > 0
        }),
{
    lemma_metric_counts(records, MeasurementKind::Latency);
    lemma_metric_counts(records, MeasurementKind::Download);
    lemma_metric_counts(records, MeasurementKind::Upload);
}

proof fn lemma_latest(
    records: Seq<RecordView>,
    kind: MeasurementKind,
    wanted: spec_fn(RecordView) -> bool,
    i: int,
)
    requires
        0 <= i < records.len(),
        records[i].kind == kind,
        wanted(records[i]),
    ensures
        latest_time(of_kind(records, kind), wanted) matches Some(time) && time >= records[i].created_at,
    decreases records.len(),
{
    let front = records.drop_last();
    if records.last().kind == kind {
        assert(of_kind(records, kind).drop_last() =~= of_kind(front, kind));
    }
    if i < front.len() {
        lemma_latest(front, kind, wanted, i);
    }
}

proof fn lemma_latest_exists(records: Seq<RecordView>, kind: MeasurementKind, wanted: spec_fn(RecordView) -> bool)
    requires
        latest_time(of_kind(records, kind), wanted) is Some,
    ensures
        exists|i: int|
            0 <= i < records.len() && (#[trigger] records[i]).kind == kind && wanted(records[i])
                && records[i].created_at == latest_time(of_kind(records, kind), wanted)->0,
    decreases records.len(),
{
    if records.len() > 0 {
        let front = records.drop_last();
        let last = records.last();
        let time = latest_time(of_kind(records, kind), wanted)->0;
        if last.kind == kind {
            assert(of_kind(records, kind).drop_last() =~= of_kind(front, kind));
        }
        if last.kind == kind && wanted(last) && last.created_at == time {
            assert(records[records.len() - 1].created_at == time);
        } else {
            lemma_latest_exists(front, kind, wanted);
            let i = choose|i: int|
                0 <= i < front.len() && (#[trigger] front[i]).kind == kind && wanted(front[i])
                    && front[i].created_at == latest_time(of_kind(front, kind), wanted)->0;
            assert(records[i] == front[i]);
        }
    }
}

/// The last success of each metric of a row is the latest counting success of that kind: no such
/// result is later, and one is of that time.
pub proof fn law_last_success_is_the_latest(
    node: NodeView,
    records: Seq<RecordView>,
    figures: NodeFigures,
    settings: SettingsView,
    now: int,
    i: int,
)
    requires
        0 <= i < records.len(),
    ensures
        ({
            let row = row_of(node, records, figures, settings, now);
            let last_success = match records[i].kind {
                MeasurementKind::Latency => row.latency.last_success_at,
                MeasurementKind::Download => row.download.last_success_at,
                MeasurementKind::Upload => row.upload.last_success_at,
            };
            let last_attempt = match records[i].kind {
                MeasurementKind::Latency => row.latency.last_attempted_at,
                MeasurementKind::Download => row.download.last_attempted_at,
                MeasurementKind::Upload => row.upload.last_attempted_at,
            };
            &&& last_attempt is Some && last_attempt->0 >= records[i].created_at
            &&& exists|k: int|
                0 <= k < records.len() && (#[trigger] records[k]).kind == records[i].kind
                    && records[k].created_at == last_attempt->0
            &&& records[i].rank_eligible && records[i].success ==> last_success is Some && last_success->0
                >= records[i].created_at
            &&& last_success is Some ==> exists|k: int|
                0 <= k < records.len() && (#[trigger] records[k]).kind == records[i].kind
                    && records[k].rank_eligible && records[k].success && records[k].created_at
                    == last_success->0
        }),
{
    let kind = records[i].kind;
    lemma_latest(records, kind, any_record(), i);
    lemma_latest_exists(records, kind, any_record());
    if counts_as_success()(records[i]) {
        lemma_latest(records, kind, counts_as_success(), i);
    }
    if latest_time(of_kind(records, kind), counts_as_success()) is Some {
        lemma_latest_exists(records, kind, counts_as_success());
    }
}

/// A node can officially win exactly where it takes part, its latency tests that count number at
/// least one, 95 of 100 of them and at least twenty succeeded, each direction has at least two
/// samples, and the last success of each test is recent: within two latency intervals but at least
/// an hour, and within two speed intervals but at least a day.
pub proof fn law_official_nodes_are_proven_and_fresh(
    node: NodeView,
    records: Seq<RecordView>,
    figures: NodeFigures,
    settings: SettingsView,
    now: int,
)
    requires
        settings.latency_interval_minutes * 120 <= i64::MAX,
        settings.speed_interval_hours * 7_200 <= i64::MAX,
    ensures
        ({
            let row = row_of(node, records, figures, settings, now);
            let minutes = settings.latency_interval_minutes as int;
            let hours = settings.speed_interval_hours as int;
            row.official_eligible <==> {
                &&& node.state == ParticipationState::Participating
                &&& row.latency_attempts > 0
                &&& row.latency_successes * 100 >= row.latency_attempts * 95
                &&& row.latency_successes >= 20
                &&& row.download.samples >= 2
                &&& row.upload.samples >= 2
                &&& row.latency.last_success_at is Some && (now - row.latency.last_success_at->0 <= 3_600 || now
                    - row.latency.last_success_at->0 <= minutes * 120)
                &&& row.download.last_success_at is Some && (now - row.download.last_success_at->0 <= 86_400
                    || now - row.download.last_success_at->0 <= hours * 7_200)
                &&& row.upload.last_success_at is Some && (now - row.upload.last_success_at->0 <= 86_400 || now
                    - row.upload.last_success_at->0 <= hours * 7_200)
            }
        }),
{
}

/// The data of a node is called long-term after a week with four counting successes in each
/// direction, daily after a day with two, initial after four hours with one, and else temporary.
pub proof fn law_confidence_grows_with_time_and_tests(first_seen_at: int, records: Seq<RecordView>, now: int)
    ensures
        ({
            let downloads = records.filter(
                |record: RecordView|
                    record.kind == MeasurementKind::Download && record.rank_eligible && record.success,
            ).len();
            let uploads = records.filter(
                |record: RecordView|
                    record.kind == MeasurementKind::Upload && record.rank_eligible && record.success,
            ).len();
            let fewer = if downloads < uploads {
                downloads
            } else {
                uploads
            };
            let age = now - first_seen_at;
            let label = confidence(first_seen_at, records, now);
            &&& fewer >= 4 && age >= 604_800 ==> label == "longTerm"@
            &&& fewer >= 2 && age >= 86_400 && !(fewer >= 4 && age >= 604_800) ==> label == "daily"@
            &&& fewer >= 1 && age >= 14_400 && !(fewer >= 2 && age >= 86_400) ==> label == "initial"@
            &&& fewer == 0 || age < 14_400 ==> label == "temporary"@
        }),
{
    lemma_metric_counts(records, MeasurementKind::Download);
    lemma_metric_counts(records, MeasurementKind::Upload);
}

proof fn lemma_sample_places(records: Seq<RecordView>, kind: MeasurementKind, place: u64)
    requires
        sample_places(of_kind(records, kind)).contains(place),
    ensures
        exists|i: int|
            0 <= i < records.len() && (#[trigger] records[i]).kind == kind && counts_with_value(records[i])
                && records[i].value->0.rank_view() == place,
    decreases records.len(),
{
    let all = sample_places(of_kind(records, kind));
    if records.len() > 0 {
        let front = records.drop_last();
        let last = records.last();
        let before = sample_places(of_kind(front, kind));
        lemma_sample(last);
        if last.kind == kind {
            assert(of_kind(records, kind).drop_last() =~= of_kind(front, kind));
        }
        let k = choose|k: int| 0 <= k < all.len() && all[k] == place;
        if k < before.len() {
            assert(before[k] == place);
            lemma_sample_places(front, kind, place);
            let i = choose|i: int|
                0 <= i < front.len() && (#[trigger] front[i]).kind == kind && counts_with_value(front[i])
                    && front[i].value->0.rank_view() == place;
            assert(records[i] == front[i]);
        } else {
            assert(records[records.len() - 1] == last);
        }
    }
}

proof fn lemma_has_place(records: Seq<RecordView>, kind: MeasurementKind, i: int)
    requires
        0 <= i < records.len(),
        records[i].kind == kind,
        counts_with_value(records[i]),
    ensures
        sample_places(of_kind(records, kind)).contains(records[i].value->0.rank_view() as u64),
    decreases records.len(),
{
    let all = sample_places(of_kind(records, kind));
    let front = records.drop_last();
    let before = sample_places(of_kind(front, kind));
    let place = records[i].value->0.rank_view() as u64;
    lemma_sample(records.last());
    if records.last().kind == kind {
        assert(of_kind(records, kind).drop_last() =~= of_kind(front, kind));
    }
    if i < front.len() {
        lemma_has_place(front, kind, i);
        let k = choose|k: int| 0 <= k < before.len() && before[k] == place;
        assert(all[k] == place);
    } else {
        assert(all[all.len() - 1] == place);
    }
}

proof fn lemma_ends(places: Seq<u64>, place: u64)
    requires
        places.contains(place),
    ensures
        ascending(places).len() == places.len(),
        ascending(places).first() <= place <= ascending(places).last(),
        places.contains(ascending(places).first()),
        places.contains(ascending(places).last()),
{
    broadcast use vstd::seq_lib::group_to_multiset_ensures;

    law_ascending_sorts(places);
    let sorted = ascending(places);
    let n = sorted.len() as int;
    assert(places.to_multiset().count(place) > 0);
    assert(sorted.contains(place));
    let k = choose|k: int| 0 <= k < n && sorted[k] == place;
    if k > 0 {
        assert(at_most()(sorted[0], sorted[k]));
    }
    if k < n - 1 {
        assert(at_most()(sorted[k], sorted[n - 1]));
    }
    assert(sorted.contains(sorted[0]) && sorted.contains(sorted[n - 1]));
    assert(sorted.to_multiset().count(sorted[0]) > 0);
    assert(sorted.to_multiset().count(sorted[n - 1]) > 0);
}

/// The peak of a row's latency is its smallest sample and that of a speed its largest: it is the
/// value of a sample, and no sample beats it. (Numbers that are not negative are ordered like their
/// bits.)
pub proof fn law_peaks_are_the_best_samples(
    node: NodeView,
    records: Seq<RecordView>,
    figures: NodeFigures,
    settings: SettingsView,
    now: int,
    i: int,
)
    requires
        0 <= i < records.len(),
        counts_with_value(records[i]),
        records[i].value->0.bits < 0x8000_0000_0000_0000,
    ensures
        ({
            let row = row_of(node, records, figures, settings, now);
            let value = records[i].value->0;
            let peak = match records[i].kind {
                MeasurementKind::Latency => row.latency.peak,
                MeasurementKind::Download => row.download.peak,
                MeasurementKind::Upload => row.upload.peak,
            };
            &&& peak is Some
            &&& exists|k: int|
                0 <= k < records.len() && (#[trigger] records[k]).kind == records[i].kind && counts_with_value(
                    records[k],
                ) && records[k].value == peak
            &&& records[i].kind != MeasurementKind::Latency ==> value.bits <= peak->0.bits
                < 0x8000_0000_0000_0000
            &&& records[i].kind == MeasurementKind::Latency && peak->0.bits < 0x8000_0000_0000_0000
                ==> peak->0.bits <= value.bits
        }),
{
    let kind = records[i].kind;
    let own = of_kind(records, kind);
    let places = sample_places(own);
    let value = records[i].value->0;
    lemma_has_place(records, kind, i);
    lemma_ends(places, value.rank_view() as u64);
    let sorted = ascending(places);
    let samples = sorted_samples(own);
    let place = if kind == MeasurementKind::Latency {
        sorted.first()
    } else {
        sorted.last()
    };
    lemma_sample_places(records, kind, place);
    let k = choose|k: int|
        0 <= k < records.len() && (#[trigger] records[k]).kind == kind && counts_with_value(records[k])
            && records[k].value->0.rank_view() == place;
    assert(FloatBits::at_rank(place) == records[k].value->0);
    assert(samples.first() == FloatBits::at_rank(sorted.first()));
    assert(samples.last() == FloatBits::at_rank(sorted.last()));
}

proof fn lemma_latest_error(records: Seq<RecordView>, kind: MeasurementKind, i: int)
    requires
        0 <= i < records.len(),
        records[i].kind == kind,
        records[i].error is Some,
    ensures
        latest_error(of_kind(records, kind)) matches Some(record) && record.created_at >= records[i].created_at,
    decreases records.len(),
{
    let front = records.drop_last();
    if records.last().kind == kind {
        assert(of_kind(records, kind).drop_last() =~= of_kind(front, kind));
    }
    if i < front.len() {
        lemma_latest_error(front, kind, i);
    }
}

proof fn lemma_error_exists(records: Seq<RecordView>, kind: MeasurementKind)
    requires
        latest_error(of_kind(records, kind)) is Some,
    ensures
        exists|i: int|
            0 <= i < records.len() && (#[trigger] records[i]).kind == kind && records[i].error is Some
                && records[i] == latest_error(of_kind(records, kind))->0,
    decreases records.len(),
{
    if records.len() > 0 {
        let front = records.drop_last();
        let last = records.last();
        if last.kind == kind {
            assert(of_kind(records, kind).drop_last() =~= of_kind(front, kind));
        }
        if last.kind == kind && last.error is Some && latest_error(of_kind(records, kind)) == Some(last) {
            assert(records[records.len() - 1] == last);
        } else {
            lemma_error_exists(front, kind);
            let i = choose|i: int|
                0 <= i < front.len() && (#[trigger] front[i]).kind == kind && front[i].error is Some
                    && front[i] == latest_error(of_kind(front, kind))->0;
            assert(records[i] == front[i]);
        }
    }
}

/// A metric shows an error exactly where one of its results has one that no later counting success
/// made up for, and the one that it shows is the latest.
pub proof fn law_errors_are_shown_until_a_success(records: Seq<RecordView>, kind: MeasurementKind, figures: NodeFigures)
    ensures
        ({
            let summary = metric_of(of_kind(records, kind), figures.latency, true);
            &&& summary.last_error is Some <==> summary.last_error_at is Some
            &&& summary.last_error_at matches Some(at) ==> {
                &&& exists|i: int|
                    0 <= i < records.len() && (#[trigger] records[i]).kind == kind && records[i].error
                        == summary.last_error && records[i].created_at == at
                &&& forall|i: int|
                    0 <= i < records.len() && (#[trigger] records[i]).kind == kind && records[i].error is Some
                        ==> records[i].created_at <= at
                &&& summary.last_success_at matches Some(success) ==> success <= at
            }
            &&& summary.last_error_at is None ==> forall|i: int|
                0 <= i < records.len() && (#[trigger] records[i]).kind == kind && records[i].error is Some
                    ==> summary.last_success_at is Some && summary.last_success_at->0 > records[i].created_at
        }),
{
    let own = of_kind(records, kind);
    let summary = metric_of(own, figures.latency, true);
    if latest_error(own) is Some {
        lemma_error_exists(records, kind);
    }
    assert forall|i: int|
        0 <= i < records.len() && (#[trigger] records[i]).kind == kind && records[i].error is Some
        implies latest_error(own) is Some && latest_error(own)->0.created_at >= records[i].created_at by {
        lemma_latest_error(records, kind, i);
    }
    if summary.last_error_at is Some {
        assert(open_error(own) == latest_error(own));
    }
}

/// The results on which the row of a node rests are exactly those of that node from the start of the
/// window on, in their order.
pub proof fn law_rows_rest_on_own_results_in_the_window(
    records: Seq<RecordView>,
    node_id: Seq<char>,
    start_at: int,
)
    ensures
        records_of(records, node_id, start_at) == records.filter(
            |record: RecordView| record.node_id == node_id && record.created_at >= start_at,
        ),
    decreases records.len(),
{
    reveal(Seq::filter);
    if records.len() > 0 {
        law_rows_rest_on_own_results_in_the_window(records.drop_last(), node_id, start_at);
    }
}

/// A window covers the last hours or days that its name says, and the long-term one everything since
/// the beginning of time.
pub proof fn law_windows_cover_their_hours(now: int)
    ensures
        BenchmarkWindow::SixHours.start(now) == now - 21_600,
        BenchmarkWindow::TwelveHours.start(now) == now - 43_200,
        BenchmarkWindow::OneDay.start(now) == now - 86_400,
        BenchmarkWindow::SevenDays.start(now) == now - 604_800,
        BenchmarkWindow::LongTerm.start(now) == 0,
{
}

} // verus!
