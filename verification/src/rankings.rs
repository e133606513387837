//! The ranking of nodes from their test results.
//!
//! Figures that need floating-point arithmetic (percentiles, averages, shares) are computed by
//! the caller from the samples that this module collects and handed back to it; choosing the
//! samples, ranking, ordering and every decision stand here.

use crate::floats::{FloatBits, nearest_double};
use crate::models::{
    BenchmarkNodeRow, BenchmarkWindow, ChampionCollection, ChampionSummary, ExclusionReminder,
    MeasurementKind, MeasurementRecord, MetricSummary, NodeView, ParticipationState, RecordView,
    StoredNode, copy_text, text_view,
};
use crate::order::{
    KeyPart, KeyView, SortKey, arranged, ascending, goes_before, indices, key_order, key_views,
    law_ascending_sorts, law_sorted_order_is_stable, lemma_key_order_flip, sort_numbers,
    sorted_order, stable_order,
};
use crate::settings::{BenchmarkSettings, SettingsView};
use crate::store::{measurement_records, node_views};
use crate::table_laws::law_scores_are_sums_of_ranks;
use crate::text::same_text;
use crate::traffic::{capped, measure_usual_size, multiply_capped, usual_size};
use vstd::prelude::*;

verus! {

/// The figures of one metric of a node that are computed from its samples.
#[derive(Debug, Clone, Copy)]
pub struct MetricFigures {
    pub median: FloatBits,
    pub average: FloatBits,
    pub p95: FloatBits,
}

/// The computed figures of a node. Those of a metric without samples, and the share of a node
/// without tests, are not looked at.
#[derive(Debug, Clone, Copy)]
pub struct NodeFigures {
    pub latency: MetricFigures,
    pub download: MetricFigures,
    pub upload: MetricFigures,
    /// The share of successful latency tests in percent.
    pub stability: FloatBits,
    /// The 95th percentile of the latency, or the largest number, less its median, or zero.
    pub jitter: FloatBits,
}

/// The samples of a node from which its figures are computed.
#[derive(Debug)]
pub struct NodeSamples {
    pub latency: Vec<FloatBits>,
    pub download: Vec<FloatBits>,
    pub upload: Vec<FloatBits>,
    pub latency_attempts: usize,
    pub latency_successes: usize,
}

/// What one metric of a node stands for.
pub struct MetricView {
    pub median: Option<FloatBits>,
    pub average: Option<FloatBits>,
    pub p95: Option<FloatBits>,
    pub peak: Option<FloatBits>,
    pub samples: int,
    pub attempts: int,
    pub failures: int,
    pub last_attempted_at: Option<i64>,
    pub last_success_at: Option<i64>,
    pub last_error: Option<Seq<char>>,
    pub last_error_at: Option<i64>,
    pub rank: Option<int>,
}

/// What an optional rank stands for.
pub open spec fn rank_view(rank: Option<usize>) -> Option<int> {
    match rank {
        Some(rank) => Some(rank as int),
        None => None,
    }
}

impl View for MetricSummary {
    type V = MetricView;

    open spec fn view(&self) -> MetricView {
        MetricView {
            median: self.median,
            average: self.average,
            p95: self.p95,
            peak: self.peak,
            samples: self.samples as int,
            attempts: self.attempts as int,
            failures: self.failures as int,
            last_attempted_at: self.last_attempted_at,
            last_success_at: self.last_success_at,
            last_error: text_view(self.last_error),
            last_error_at: self.last_error_at,
            rank: rank_view(self.rank),
        }
    }
}

/// What a row of the ranking stands for.
pub struct RowView {
    pub node_id: Seq<char>,
    pub profile_uid: Seq<char>,
    pub profile_name: Seq<char>,
    pub node_name: Seq<char>,
    pub node_type: Seq<char>,
    pub fingerprint: Seq<char>,
    pub last_seen_at: i64,
    pub state: ParticipationState,
    pub stability_percent: Option<FloatBits>,
    pub latency_attempts: int,
    pub latency_successes: int,
    pub latency: MetricView,
    pub download: MetricView,
    pub upload: MetricView,
    pub latency_jitter: FloatBits,
    pub total_rank_score: Option<int>,
    pub official_eligible: bool,
    pub confidence: Seq<char>,
    pub last_tested_at: Option<i64>,
    pub bootstrap_stage: u8,
    pub download_bootstrap_stage: u8,
    pub upload_bootstrap_stage: u8,
    pub next_latency_at: i64,
    pub next_speed_at: i64,
    pub next_download_at: i64,
    pub next_upload_at: i64,
}

impl View for BenchmarkNodeRow {
    type V = RowView;

    open spec fn view(&self) -> RowView {
        RowView {
            node_id: self.node_id@,
            profile_uid: self.profile_uid@,
            profile_name: self.profile_name@,
            node_name: self.node_name@,
            node_type: self.node_type@,
            fingerprint: self.fingerprint@,
            last_seen_at: self.last_seen_at,
            state: self.state,
            stability_percent: self.stability_percent,
            latency_attempts: self.latency_attempts as int,
            latency_successes: self.latency_successes as int,
            latency: self.latency@,
            download: self.download@,
            upload: self.upload@,
            latency_jitter: self.latency_jitter,
            total_rank_score: rank_view(self.total_rank_score),
            official_eligible: self.official_eligible,
            confidence: self.confidence@,
            last_tested_at: self.last_tested_at,
            bootstrap_stage: self.bootstrap_stage,
            download_bootstrap_stage: self.download_bootstrap_stage,
            upload_bootstrap_stage: self.upload_bootstrap_stage,
            next_latency_at: self.next_latency_at,
            next_speed_at: self.next_speed_at,
            next_download_at: self.next_download_at,
            next_upload_at: self.next_upload_at,
        }
    }
}

/// What rows of the ranking stand for.
pub open spec fn row_views(rows: Seq<BenchmarkNodeRow>) -> Seq<RowView> {
    rows.map_values(|row: BenchmarkNodeRow| row@)
}

/// What borrowed test results stand for.
pub open spec fn borrowed_records(records: Seq<&MeasurementRecord>) -> Seq<RecordView> {
    records.map_values(|record: &MeasurementRecord| record@)
}

/// The test results of a node from a time on.
pub open spec fn records_of(records: Seq<RecordView>, node_id: Seq<char>, start_at: int) -> Seq<RecordView>
    decreases records.len(),
{
    if records.len() == 0 {
        records
    } else {
        let front = records_of(records.drop_last(), node_id, start_at);
        let last = records.last();
        if last.created_at >= start_at && last.node_id == node_id {
            front.push(last)
        } else {
            front
        }
    }
}

/// The test results of a kind.
pub open spec fn of_kind(records: Seq<RecordView>, kind: MeasurementKind) -> Seq<RecordView>
    decreases records.len(),
{
    if records.len() == 0 {
        records
    } else {
        let front = of_kind(records.drop_last(), kind);
        if records.last().kind == kind {
            front.push(records.last())
        } else {
            front
        }
    }
}

/// How many test results satisfy a condition.
pub open spec fn count_records(records: Seq<RecordView>, wanted: spec_fn(RecordView) -> bool) -> int
    decreases records.len(),
{
    if records.len() == 0 {
        0
    } else {
        count_records(records.drop_last(), wanted) + if wanted(records.last()) {
            1int
        } else {
            0int
        }
    }
}

/// The time of the latest test result that satisfies a condition.
pub open spec fn latest_time(records: Seq<RecordView>, wanted: spec_fn(RecordView) -> bool) -> Option<i64>
    decreases records.len(),
{
    if records.len() == 0 {
        None
    } else {
        let front = latest_time(records.drop_last(), wanted);
        let last = records.last();
        if !wanted(last) {
            front
        } else {
            match front {
                Some(time) => if time >= last.created_at {
                    Some(time)
                } else {
                    Some(last.created_at)
                },
                None => Some(last.created_at),
            }
        }
    }
}

/// The latest test result with an error; of several at one time the last.
pub open spec fn latest_error(records: Seq<RecordView>) -> Option<RecordView>
    decreases records.len(),
{
    if records.len() == 0 {
        None
    } else {
        let front = latest_error(records.drop_last());
        let last = records.last();
        if last.error is None {
            front
        } else {
            match front {
                Some(record) => if record.created_at > last.created_at {
                    Some(record)
                } else {
                    Some(last)
                },
                None => Some(last),
            }
        }
    }
}

/// Every test result.
pub open spec fn any_record() -> spec_fn(RecordView) -> bool {
    |record: RecordView| true
}

/// Test results that failed.
pub open spec fn failed() -> spec_fn(RecordView) -> bool {
    |record: RecordView| !record.success
}

/// Test results that count for the ranking.
pub open spec fn counts() -> spec_fn(RecordView) -> bool {
    |record: RecordView| record.rank_eligible
}

/// Successful test results that count for the ranking.
pub open spec fn counts_as_success() -> spec_fn(RecordView) -> bool {
    |record: RecordView| record.rank_eligible && record.success
}

/// Whether the value of a test result is a sample: the test counts and succeeded, and the value
/// is a finite number that is not negative.
pub open spec fn is_sample(record: RecordView) -> bool {
    record.rank_eligible && record.success && record.value is Some && record.value->0.finite()
        && record.value->0.at_least(FloatBits { bits: 0 })
}

/// The places of the samples in the total order of numbers.
pub open spec fn sample_places(records: Seq<RecordView>) -> Seq<u64>
    decreases records.len(),
{
    if records.len() == 0 {
        Seq::empty()
    } else {
        let front = sample_places(records.drop_last());
        if is_sample(records.last()) {
            front.push(records.last().value->0.rank_view() as u64)
        } else {
            front
        }
    }
}

/// The samples in ascending order.
pub open spec fn sorted_samples(records: Seq<RecordView>) -> Seq<FloatBits> {
    ascending(sample_places(records)).map_values(|place: u64| FloatBits::at_rank(place))
}

/// The error that is not made up for by a later success.
pub open spec fn open_error(records: Seq<RecordView>) -> Option<RecordView> {
    match (latest_error(records), latest_time(records, counts_as_success())) {
        (Some(record), Some(success)) => if record.created_at >= success {
            Some(record)
        } else {
            None
        },
        (Some(record), None) => Some(record),
        (None, _) => None,
    }
}

/// The summary of one metric, given its test results and the figures of its samples.
pub open spec fn metric_of(records: Seq<RecordView>, figures: MetricFigures, higher_is_better: bool) -> MetricView {
    let samples = sorted_samples(records);
    MetricView {
        median: if samples.len() > 0 {
            Some(figures.median)
        } else {
            None
        },
        average: if samples.len() > 0 {
            Some(figures.average)
        } else {
            None
        },
        p95: if samples.len() > 0 {
            Some(figures.p95)
        } else {
            None
        },
        peak: if samples.len() == 0 {
            None
        } else if higher_is_better {
            Some(samples.last())
        } else {
            Some(samples.first())
        },
        samples: samples.len() as int,
        attempts: records.len() as int,
        failures: count_records(records, failed()),
        last_attempted_at: latest_time(records, any_record()),
        last_success_at: latest_time(records, counts_as_success()),
        last_error: match open_error(records) {
            Some(record) => record.error,
            None => None,
        },
        last_error_at: match open_error(records) {
            Some(record) => Some(record.created_at),
            None => None,
        },
        rank: None,
    }
}

fn find_samples(records: &Vec<&MeasurementRecord>) -> (samples: Vec<FloatBits>)
    ensures
        samples@ == sorted_samples(borrowed_records(records@)),
{
    let ghost all = borrowed_records(records@);
    let zero = FloatBits { bits: 0 };
    let mut places: Vec<u64> = Vec::new();
    assert(all.take(0) =~= Seq::empty());
    for i in 0..records.len()
        invariant
            all == borrowed_records(records@),
            zero == (FloatBits { bits: 0 }),
            places@ == sample_places(all.take(i as int)),
    {
        let record = records[i];
        assert(all.take(i + 1).drop_last() =~= all.take(i as int));
        assert(all.take(i + 1).last() == record@);
        if record.rank_eligible && record.success {
            match record.value {
                Some(value) => {
                    if value.is_finite() && value.is_at_least(&zero) {
                        places.push(value.rank());
                    }
                },
                None => {},
            }
        }
    }
    assert(all.take(all.len() as int) =~= all);
    let sorted = sort_numbers(places);
    let mut samples: Vec<FloatBits> = Vec::new();
    let ghost wanted = sorted@.map_values(|place: u64| FloatBits::at_rank(place));
    for i in 0..sorted.len()
        invariant
            wanted == sorted@.map_values(|place: u64| FloatBits::at_rank(place)),
            samples@ == wanted.take(i as int),
    {
        samples.push(FloatBits::from_rank(sorted[i]));
        assert(wanted.take(i + 1) =~= wanted.take(i as int).push(wanted[i as int]));
    }
    assert(wanted.take(wanted.len() as int) =~= wanted);
    samples
}

fn find_latest(records: &Vec<&MeasurementRecord>, successes_only: bool) -> (time: Option<i64>)
    ensures
        time == latest_time(
            borrowed_records(records@),
            if successes_only {
                counts_as_success()
            } else {
                any_record()
            },
        ),
{
    let ghost all = borrowed_records(records@);
    let ghost wanted = if successes_only {
        counts_as_success()
    } else {
        any_record()
    };
    let mut time: Option<i64> = None;
    assert(all.take(0) =~= Seq::empty());
    for i in 0..records.len()
        invariant
            all == borrowed_records(records@),
            wanted == if successes_only {
                counts_as_success()
            } else {
                any_record()
            },
            time == latest_time(all.take(i as int), wanted),
    {
        let record = records[i];
        assert(all.take(i + 1).drop_last() =~= all.take(i as int));
        assert(all.take(i + 1).last() == record@);
        if !successes_only || (record.rank_eligible && record.success) {
            time = match time {
                Some(earlier) => if earlier >= record.created_at {
                    Some(earlier)
                } else {
                    Some(record.created_at)
                },
                None => Some(record.created_at),
            };
        }
    }
    assert(all.take(all.len() as int) =~= all);
    time
}

fn find_latest_error(records: &Vec<&MeasurementRecord>) -> (at: Option<usize>)
    ensures
        match at {
            Some(i) => i < records.len() && latest_error(borrowed_records(records@)) == Some(
                records@[i as int]@,
            ) && records@[i as int]@.error is Some,
            None => latest_error(borrowed_records(records@)) is None,
        },
{
    let ghost all = borrowed_records(records@);
    let mut at: Option<usize> = None;
    assert(all.take(0) =~= Seq::empty());
    for i in 0..records.len()
        invariant
            all == borrowed_records(records@),
            match at {
                Some(k) => k < i && latest_error(all.take(i as int)) == Some(records@[k as int]@)
                    && records@[k as int]@.error is Some,
                None => latest_error(all.take(i as int)) is None,
            },
    {
        let record = records[i];
        assert(all.take(i + 1).drop_last() =~= all.take(i as int));
        assert(all.take(i + 1).last() == record@);
        if record.error.is_some() {
            at = match at {
                Some(k) => if records[k].created_at > record.created_at {
                    Some(k)
                } else {
                    Some(i)
                },
                None => Some(i),
            };
        }
    }
    assert(all.take(all.len() as int) =~= all);
    at
}

fn count_failed(records: &Vec<&MeasurementRecord>) -> (count: usize)
    ensures
        count == count_records(borrowed_records(records@), failed()),
{
    let ghost all = borrowed_records(records@);
    let mut count: usize = 0;
    assert(all.take(0) =~= Seq::empty());
    for i in 0..records.len()
        invariant
            all == borrowed_records(records@),
            count <= i,
            count == count_records(all.take(i as int), failed()),
    {
        let record = records[i];
        assert(all.take(i + 1).drop_last() =~= all.take(i as int));
        assert(all.take(i + 1).last() == record@);
        if !record.success {
            count = count + 1;
        }
    }
    assert(all.take(all.len() as int) =~= all);
    count
}

fn count_counting(records: &Vec<&MeasurementRecord>, successes_only: bool) -> (count: usize)
    ensures
        count == count_records(
            borrowed_records(records@),
            if successes_only {
                counts_as_success()
            } else {
                counts()
            },
        ),
{
    let ghost all = borrowed_records(records@);
    let ghost wanted = if successes_only {
        counts_as_success()
    } else {
        counts()
    };
    let mut count: usize = 0;
    assert(all.take(0) =~= Seq::empty());
    for i in 0..records.len()
        invariant
            all == borrowed_records(records@),
            wanted == if successes_only {
                counts_as_success()
            } else {
                counts()
            },
            count <= i,
            count == count_records(all.take(i as int), wanted),
    {
        let record = records[i];
        assert(all.take(i + 1).drop_last() =~= all.take(i as int));
        assert(all.take(i + 1).last() == record@);
        if record.rank_eligible && (record.success || !successes_only) {
            count = count + 1;
        }
    }
    assert(all.take(all.len() as int) =~= all);
    count
}

/// The summary of one metric, given its test results and the figures of its samples.
fn metric_summary(records: &Vec<&MeasurementRecord>, figures: MetricFigures, higher_is_better: bool) -> (summary:
    MetricSummary)
    ensures
        summary@ == metric_of(borrowed_records(records@), figures, higher_is_better),
{
    let samples = find_samples(records);
    let last_success_at = find_latest(records, true);
    let mut last_error: Option<String> = None;
    let mut last_error_at: Option<i64> = None;
    match find_latest_error(records) {
        Some(k) => {
            let record = records[k];
            let unresolved: bool = match last_success_at {
                Some(success) => record.created_at >= success,
                None => true,
            };
            if unresolved {
                last_error = copy_text(&record.error);
                last_error_at = Some(record.created_at);
            }
        },
        None => {},
    }
    let peak: Option<FloatBits> = if samples.len() == 0 {
        None
    } else if higher_is_better {
        Some(samples[samples.len() - 1])
    } else {
        Some(samples[0])
    };
    let measured: bool = samples.len() > 0;
    MetricSummary {
        median: if measured {
            Some(figures.median)
        } else {
            None
        },
        average: if measured {
            Some(figures.average)
        } else {
            None
        },
        p95: if measured {
            Some(figures.p95)
        } else {
            None
        },
        peak,
        samples: samples.len(),
        attempts: records.len(),
        failures: count_failed(records),
        last_attempted_at: find_latest(records, false),
        last_success_at,
        last_error,
        last_error_at,
        rank: None,
    }
}

/// How much a node's data can be relied on: by the time since it was first seen and by the
/// number of successful tests in both directions.
pub open spec fn confidence(first_seen_at: int, records: Seq<RecordView>, now: int) -> Seq<char> {
    let downloads = count_records(of_kind(records, MeasurementKind::Download), counts_as_success());
    let uploads = count_records(of_kind(records, MeasurementKind::Upload), counts_as_success());
    let age = now - first_seen_at;
    if age >= 604_800 && downloads >= 4 && uploads >= 4 {
        "longTerm"@
    } else if age >= 86_400 && downloads >= 2 && uploads >= 2 {
        "daily"@
    } else if age >= 14_400 && downloads >= 1 && uploads >= 1 {
        "initial"@
    } else {
        "temporary"@
    }
}

fn pick_kind<'a>(records: &[&'a MeasurementRecord], kind: MeasurementKind) -> (result: Vec<&'a MeasurementRecord>)
    ensures
        borrowed_records(result@) == of_kind(borrowed_records(records@), kind),
{
    let ghost all = borrowed_records(records@);
    let mut result: Vec<&'a MeasurementRecord> = Vec::new();
    assert(borrowed_records(result@) =~= Seq::empty());
    assert(all.take(0) =~= Seq::empty());
    for i in 0..records.len()
        invariant
            all == borrowed_records(records@),
            borrowed_records(result@) == of_kind(all.take(i as int), kind),
    {
        let record = records[i];
        assert(all.take(i + 1).drop_last() =~= all.take(i as int));
        assert(all.take(i + 1).last() == record@);
        if record.kind == kind {
            let ghost before = result@;
            result.push(record);
            assert(borrowed_records(result@) =~= borrowed_records(before).push(record@));
        }
    }
    assert(all.take(all.len() as int) =~= all);
    result
}

/// How much a node's data can be relied on.
pub fn confidence_label(first_seen_at: i64, records: &[&MeasurementRecord], now: i64) -> (label: String)
    ensures
        label@ == confidence(first_seen_at as int, borrowed_records(records@), now as int),
{
    let downloads: usize = count_counting(&pick_kind(records, MeasurementKind::Download), true);
    let uploads: usize = count_counting(&pick_kind(records, MeasurementKind::Upload), true);
    let age: i128 = now as i128 - first_seen_at as i128;
    if age >= 604_800 && downloads >= 4 && uploads >= 4 {
        "longTerm".to_owned()
    } else if age >= 86_400 && downloads >= 2 && uploads >= 2 {
        "daily".to_owned()
    } else if age >= 14_400 && downloads >= 1 && uploads >= 1 {
        "initial".to_owned()
    } else {
        "temporary".to_owned()
    }
}

/// A node without a success in one of the two directions has temporary data only.
pub proof fn law_confidence_needs_both_directions(first_seen_at: int, records: Seq<RecordView>, now: int)
    requires
        count_records(of_kind(records, MeasurementKind::Download), counts_as_success()) == 0 || count_records(
            of_kind(records, MeasurementKind::Upload),
            counts_as_success(),
        ) == 0,
    ensures
        confidence(first_seen_at, records, now) == "temporary"@,
{
}

/// How old the latest success may be: twice the interval, but not less than a floor. An interval
/// beyond the signed 64-bit numbers counts as none.
pub open spec fn fresh_limit(interval: u64, factor: int, floor: int) -> int {
    let doubled = capped(interval * factor);
    if doubled > i64::MAX || doubled < floor {
        floor
    } else {
        doubled
    }
}

/// Whether the latest success is recent enough.
pub open spec fn fresh(latest: Option<i64>, now: int, limit: int) -> bool {
    match latest {
        Some(time) => now - time <= limit,
        None => false,
    }
}

fn is_fresh(latest: Option<i64>, now: i64, interval: u64, factor: u64, floor: i64) -> (result: bool)
    requires
        floor >= 0,
    ensures
        result == fresh(latest, now as int, fresh_limit(interval, factor as int, floor as int)),
{
    let doubled: u64 = multiply_capped(interval, factor);
    let limit: i128 = if doubled > i64::MAX as u64 || doubled < floor as u64 {
        floor as i128
    } else {
        doubled as i128
    };
    match latest {
        Some(time) => now as i128 - time as i128 <= limit,
        None => false,
    }
}

/// Whether tests are stable: there were some, and at least 95 of 100 of them succeeded.
pub open spec fn stable(successes: int, attempts: int) -> bool {
    attempts > 0 && successes * 100 >= attempts * 95
}

fn is_stable(successes: usize, attempts: usize) -> (result: bool)
    ensures
        result == stable(successes as int, attempts as int),
{
    attempts > 0 && successes as u128 * 100 >= attempts as u128 * 95
}

/// Whether a node can officially win: it takes part, its latency tests are stable and many, both
/// directions have samples, and all data is fresh.
pub open spec fn official(
    state: ParticipationState,
    records: Seq<RecordView>,
    settings: SettingsView,
    now: int,
) -> bool {
    let latency = of_kind(records, MeasurementKind::Latency);
    let download = of_kind(records, MeasurementKind::Download);
    let upload = of_kind(records, MeasurementKind::Upload);
    &&& state == ParticipationState::Participating
    &&& stable(
        count_records(latency, counts_as_success()) as int,
        count_records(latency, counts()) as int,
    )
    &&& count_records(latency, counts_as_success()) >= 20
    &&& sorted_samples(download).len() >= 2
    &&& sorted_samples(upload).len() >= 2
    &&& fresh(
        latest_time(latency, counts_as_success()),
        now,
        fresh_limit(settings.latency_interval_minutes, 120, 3_600),
    )
    &&& fresh(
        latest_time(download, counts_as_success()),
        now,
        fresh_limit(settings.speed_interval_hours, 7_200, 86_400),
    )
    &&& fresh(
        latest_time(upload, counts_as_success()),
        now,
        fresh_limit(settings.speed_interval_hours, 7_200, 86_400),
    )
}

/// The row of a node, given its test results in the window and its figures.
pub open spec fn row_of(
    node: NodeView,
    records: Seq<RecordView>,
    figures: NodeFigures,
    settings: SettingsView,
    now: int,
) -> RowView {
    let latency = of_kind(records, MeasurementKind::Latency);
    RowView {
        node_id: node.node_id,
        profile_uid: node.profile_uid,
        profile_name: node.profile_name,
        node_name: node.node_name,
        node_type: node.node_type,
        fingerprint: node.fingerprint,
        last_seen_at: node.last_seen_at,
        state: node.state,
        stability_percent: if count_records(latency, counts()) > 0 {
            Some(figures.stability)
        } else {
            None
        },
        latency_attempts: count_records(latency, counts()),
        latency_successes: count_records(latency, counts_as_success()),
        latency: metric_of(latency, figures.latency, false),
        download: metric_of(of_kind(records, MeasurementKind::Download), figures.download, true),
        upload: metric_of(of_kind(records, MeasurementKind::Upload), figures.upload, true),
        latency_jitter: figures.jitter,
        total_rank_score: None,
        official_eligible: official(node.state, records, settings, now),
        confidence: confidence(node.first_seen_at as int, records, now),
        last_tested_at: latest_time(records, any_record()),
        bootstrap_stage: node.bootstrap_stage,
        download_bootstrap_stage: node.download_bootstrap_stage,
        upload_bootstrap_stage: node.upload_bootstrap_stage,
        next_latency_at: node.next_latency_at,
        next_speed_at: node.next_speed_at,
        next_download_at: node.next_download_at,
        next_upload_at: node.next_upload_at,
    }
}

/// The row of a node, given its test results in the window and its figures.
pub fn build_node_row(
    node: &StoredNode,
    records: &[&MeasurementRecord],
    figures: NodeFigures,
    settings: &BenchmarkSettings,
    now: i64,
) -> (row: BenchmarkNodeRow)
    ensures
        row@ == row_of(node@, borrowed_records(records@), figures, settings@, now as int),
{
    let latency_records = pick_kind(records, MeasurementKind::Latency);
    let download_records = pick_kind(records, MeasurementKind::Download);
    let upload_records = pick_kind(records, MeasurementKind::Upload);
    let latency_attempts: usize = count_counting(&latency_records, false);
    let latency_successes: usize = count_counting(&latency_records, true);
    let latency = metric_summary(&latency_records, figures.latency, false);
    let download = metric_summary(&download_records, figures.download, true);
    let upload = metric_summary(&upload_records, figures.upload, true);
    let all_fresh: bool = is_fresh(
        latency.last_success_at,
        now,
        settings.latency_interval_minutes,
        120,
        3_600,
    ) && is_fresh(download.last_success_at, now, settings.speed_interval_hours, 7_200, 86_400) && is_fresh(
        upload.last_success_at,
        now,
        settings.speed_interval_hours,
        7_200,
        86_400,
    );
    let official_eligible: bool = node.state == ParticipationState::Participating && is_stable(
        latency_successes,
        latency_attempts,
    ) && latency_successes >= 20 && download.samples >= 2 && upload.samples >= 2 && all_fresh;
    let mut all_records: Vec<&MeasurementRecord> = Vec::new();
    for i in 0..records.len()
        invariant
            all_records@ == records@.take(i as int),
    {
        all_records.push(records[i]);
    }
    assert(records@.take(records@.len() as int) =~= records@);
    BenchmarkNodeRow {
        node_id: node.node_id.clone(),
        profile_uid: node.profile_uid.clone(),
        profile_name: node.profile_name.clone(),
        node_name: node.node_name.clone(),
        node_type: node.node_type.clone(),
        fingerprint: node.fingerprint.clone(),
        last_seen_at: node.last_seen_at,
        state: node.state,
        stability_percent: if latency_attempts > 0 {
            Some(figures.stability)
        } else {
            None
        },
        latency_attempts,
        latency_successes,
        latency,
        download,
        upload,
        latency_jitter: figures.jitter,
        total_rank_score: None,
        official_eligible,
        confidence: confidence_label(node.first_seen_at, records, now),
        last_tested_at: find_latest(&all_records, false),
        bootstrap_stage: node.bootstrap_stage,
        download_bootstrap_stage: node.download_bootstrap_stage,
        upload_bootstrap_stage: node.upload_bootstrap_stage,
        next_latency_at: node.next_latency_at,
        next_speed_at: node.next_speed_at,
        next_download_at: node.next_download_at,
        next_upload_at: node.next_upload_at,
    }
}

fn pick_node<'a>(records: &'a [MeasurementRecord], node_id: &str, start_at: i64) -> (result: Vec<
    &'a MeasurementRecord,
>)
    ensures
        borrowed_records(result@) == records_of(measurement_records(records@), node_id@, start_at as int),
{
    let ghost all = measurement_records(records@);
    let mut result: Vec<&'a MeasurementRecord> = Vec::new();
    assert(borrowed_records(result@) =~= Seq::empty());
    assert(all.take(0) =~= Seq::empty());
    for i in 0..records.len()
        invariant
            all == measurement_records(records@),
            borrowed_records(result@) == records_of(all.take(i as int), node_id@, start_at as int),
    {
        let record = &records[i];
        assert(all.take(i + 1).drop_last() =~= all.take(i as int));
        assert(all.take(i + 1).last() == record@);
        if record.created_at >= start_at && same_text(record.node_id.as_str(), node_id) {
            let ghost before = result@;
            result.push(record);
            assert(borrowed_records(result@) =~= borrowed_records(before).push(record@));
        }
    }
    assert(all.take(all.len() as int) =~= all);
    result
}

/// Whether collected samples are those of a node.
pub open spec fn samples_of(samples: NodeSamples, records: Seq<RecordView>) -> bool {
    let latency = of_kind(records, MeasurementKind::Latency);
    &&& samples.latency@ == sorted_samples(latency)
    &&& samples.download@ == sorted_samples(of_kind(records, MeasurementKind::Download))
    &&& samples.upload@ == sorted_samples(of_kind(records, MeasurementKind::Upload))
    &&& samples.latency_attempts == count_records(latency, counts())
    &&& samples.latency_successes == count_records(latency, counts_as_success())
}

/// Collects the samples of every node from a time on, each list in ascending order.
pub fn collect_samples(nodes: &[StoredNode], measurements: &[MeasurementRecord], start_at: i64) -> (result: Vec<
    NodeSamples,
>)
    ensures
        result.len() == nodes@.len(),
        forall|i: int|
            0 <= i < nodes@.len() ==> samples_of(
                #[trigger] result@[i],
                records_of(measurement_records(measurements@), nodes@[i]@.node_id, start_at as int),
            ),
{
    let mut result: Vec<NodeSamples> = Vec::new();
    for i in 0..nodes.len()
        invariant
            result.len() == i,
            forall|k: int|
                0 <= k < i ==> samples_of(
                    #[trigger] result@[k],
                    records_of(measurement_records(measurements@), nodes@[k]@.node_id, start_at as int),
                ),
    {
        let records = pick_node(measurements, nodes[i].node_id.as_str(), start_at);
        let latency_records = pick_kind(records.as_slice(), MeasurementKind::Latency);
        result.push(
            NodeSamples {
                latency: find_samples(&latency_records),
                download: find_samples(&pick_kind(records.as_slice(), MeasurementKind::Download)),
                upload: find_samples(&pick_kind(records.as_slice(), MeasurementKind::Upload)),
                latency_attempts: count_counting(&latency_records, false),
                latency_successes: count_counting(&latency_records, true),
            },
        );
    }
    result
}

/// Which metric is ranked.
#[derive(Debug, Clone, Copy, PartialEq, Eq, Structural)]
pub enum MetricKind {
    Latency,
    Download,
    Upload,
}

/// A metric of a row.
pub open spec fn metric(row: RowView, kind: MetricKind) -> MetricView {
    match kind {
        MetricKind::Latency => row.latency,
        MetricKind::Download => row.download,
        MetricKind::Upload => row.upload,
    }
}

/// Whether a row has a rank in a metric: the node takes part and has a median.
pub open spec fn is_ranked(row: RowView, kind: MetricKind) -> bool {
    row.state == ParticipationState::Participating && metric(row, kind).median is Some
}

/// The place of the median of a row in the total order, turned round where more is better.
pub open spec fn merit(row: RowView, kind: MetricKind) -> int {
    let place = metric(row, kind).median->0.rank_view();
    if kind == MetricKind::Latency {
        place
    } else {
        -place
    }
}

/// Whether one row is ranked ahead of another: a better median, or an equal one and listed first.
pub open spec fn ahead(rows: Seq<RowView>, kind: MetricKind, j: int, i: int) -> bool {
    is_ranked(rows[j], kind) && (merit(rows[j], kind) < merit(rows[i], kind) || (merit(rows[j], kind) == merit(
        rows[i],
        kind,
    ) && j < i))
}

/// How many of the first rows are ranked ahead of a row.
pub open spec fn count_ahead(rows: Seq<RowView>, kind: MetricKind, i: int, n: int) -> int
    decreases n,
{
    if n <= 0 {
        0
    } else {
        count_ahead(rows, kind, i, n - 1) + if ahead(rows, kind, n - 1, i) {
            1int
        } else {
            0int
        }
    }
}

/// The rank of a row in a metric, counted from one.
pub open spec fn metric_rank(rows: Seq<RowView>, kind: MetricKind, i: int) -> Option<int> {
    if is_ranked(rows[i], kind) {
        Some(1 + count_ahead(rows, kind, i, rows.len() as int))
    } else {
        None
    }
}

/// The sum of the three ranks of a row.
pub open spec fn rank_sum(download: Option<int>, upload: Option<int>, latency: Option<int>) -> Option<int> {
    match (download, upload, latency) {
        (Some(download), Some(upload), Some(latency)) => Some(download + upload + latency),
        _ => None,
    }
}

/// A row with its ranks.
pub open spec fn with_ranks(rows: Seq<RowView>, i: int) -> RowView {
    let row = rows[i];
    let latency = metric_rank(rows, MetricKind::Latency, i);
    let download = metric_rank(rows, MetricKind::Download, i);
    let upload = metric_rank(rows, MetricKind::Upload, i);
    RowView {
        latency: MetricView { rank: latency, ..row.latency },
        download: MetricView { rank: download, ..row.download },
        upload: MetricView { rank: upload, ..row.upload },
        total_rank_score: rank_sum(download, upload, latency),
        ..row
    }
}

/// Rows with their ranks.
pub open spec fn ranked(rows: Seq<RowView>) -> Seq<RowView> {
    Seq::new(rows.len(), |i: int| with_ranks(rows, i))
}

fn metric_median(row: &BenchmarkNodeRow, kind: MetricKind) -> (median: Option<FloatBits>)
    ensures
        median == metric(row@, kind).median,
{
    match kind {
        MetricKind::Latency => row.latency.median,
        MetricKind::Download => row.download.median,
        MetricKind::Upload => row.upload.median,
    }
}

fn merit_of(row: &BenchmarkNodeRow, kind: MetricKind) -> (result: Option<i128>)
    ensures
        match result {
            Some(value) => is_ranked(row@, kind) && value == merit(row@, kind),
            None => !is_ranked(row@, kind),
        },
{
    if row.state != ParticipationState::Participating {
        return None;
    }
    match metric_median(row, kind) {
        Some(median) => {
            let place: i128 = median.rank() as i128;
            if kind == MetricKind::Latency {
                Some(place)
            } else {
                Some(-place)
            }
        },
        None => None,
    }
}

fn rank_metric(rows: &Vec<BenchmarkNodeRow>, kind: MetricKind) -> (ranks: Vec<Option<usize>>)
    requires
        rows.len() < usize::MAX,
    ensures
        ranks.len() == rows.len(),
        forall|i: int|
            0 <= i < rows.len() ==> rank_view(#[trigger] ranks@[i]) == metric_rank(row_views(rows@), kind, i),
        forall|i: int| 0 <= i < rows.len() ==> (#[trigger] ranks@[i] matches Some(rank) ==> rank <= rows.len()),
{
    let ghost views = row_views(rows@);
    let mut merits: Vec<Option<i128>> = Vec::new();
    for i in 0..rows.len()
        invariant
            views == row_views(rows@),
            merits.len() == i,
            forall|k: int|
                0 <= k < i ==> match #[trigger] merits@[k] {
                    Some(value) => is_ranked(views[k], kind) && value == merit(views[k], kind),
                    None => !is_ranked(views[k], kind),
                },
    {
        merits.push(merit_of(&rows[i], kind));
        assert(views[i as int] == rows@[i as int]@);
    }
    let mut ranks: Vec<Option<usize>> = Vec::new();
    for i in 0..rows.len()
        invariant
            views == row_views(rows@),
            rows.len() < usize::MAX,
            merits.len() == rows.len(),
            forall|k: int|
                0 <= k < merits.len() ==> match #[trigger] merits@[k] {
                    Some(value) => is_ranked(views[k], kind) && value == merit(views[k], kind),
                    None => !is_ranked(views[k], kind),
                },
            ranks.len() == i,
            forall|k: int| 0 <= k < i ==> rank_view(#[trigger] ranks@[k]) == metric_rank(views, kind, k),
            forall|k: int| 0 <= k < i ==> (#[trigger] ranks@[k] matches Some(rank) ==> rank <= rows.len()),
    {
        match merits[i] {
            Some(own) => {
                let mut before: usize = 0;
                for j in 0..rows.len()
                    invariant
                        i < rows.len(),
                        views == row_views(rows@),
                        merits.len() == rows.len(),
                        is_ranked(views[i as int], kind),
                        own == merit(views[i as int], kind),
                        forall|k: int|
                            0 <= k < merits.len() ==> match #[trigger] merits@[k] {
                                Some(value) => is_ranked(views[k], kind) && value == merit(views[k], kind),
                                None => !is_ranked(views[k], kind),
                            },
                        before <= j,
                        j > i ==> before < j,
                        before == count_ahead(views, kind, i as int, j as int),
                {
                    match merits[j] {
                        Some(other) => {
                            if other < own || (other == own && j < i) {
                                before = before + 1;
                            }
                        },
                        None => {},
                    }
                }
                ranks.push(Some(before + 1));
            },
            None => {
                ranks.push(None);
            },
        }
    }
    ranks
}

/// Gives every row its ranks.
fn assign_ranks(rows: Vec<BenchmarkNodeRow>) -> (result: Vec<BenchmarkNodeRow>)
    requires
        rows.len() * 3 <= usize::MAX,
    ensures
        row_views(result@) == ranked(row_views(rows@)),
{
    let ghost views = row_views(rows@);
    let latency_ranks = rank_metric(&rows, MetricKind::Latency);
    let download_ranks = rank_metric(&rows, MetricKind::Download);
    let upload_ranks = rank_metric(&rows, MetricKind::Upload);
    let mut result: Vec<BenchmarkNodeRow> = Vec::new();
    for i in 0..rows.len()
        invariant
            views == row_views(rows@),
            rows.len() * 3 <= usize::MAX,
            latency_ranks.len() == rows.len(),
            download_ranks.len() == rows.len(),
            upload_ranks.len() == rows.len(),
            forall|k: int|
                0 <= k < rows.len() ==> rank_view(#[trigger] latency_ranks@[k]) == metric_rank(
                    views,
                    MetricKind::Latency,
                    k,
                ),
            forall|k: int|
                0 <= k < rows.len() ==> rank_view(#[trigger] download_ranks@[k]) == metric_rank(
                    views,
                    MetricKind::Download,
                    k,
                ),
            forall|k: int|
                0 <= k < rows.len() ==> rank_view(#[trigger] upload_ranks@[k]) == metric_rank(
                    views,
                    MetricKind::Upload,
                    k,
                ),
            forall|k: int|
                0 <= k < rows.len() ==> (#[trigger] latency_ranks@[k] matches Some(rank) ==> rank <= rows.len()),
            forall|k: int|
                0 <= k < rows.len() ==> (#[trigger] download_ranks@[k] matches Some(rank) ==> rank <= rows.len()),
            forall|k: int|
                0 <= k < rows.len() ==> (#[trigger] upload_ranks@[k] matches Some(rank) ==> rank <= rows.len()),
            row_views(result@) == ranked(views).take(i as int),
    {
        let mut row = rows[i].clone();
        assert(views[i as int] == row@);
        row.latency.rank = latency_ranks[i];
        row.download.rank = download_ranks[i];
        row.upload.rank = upload_ranks[i];
        let score: Option<usize> = match download_ranks[i] {
            Some(download) => match upload_ranks[i] {
                Some(upload) => match latency_ranks[i] {
                    Some(latency) => Some(download + upload + latency),
                    None => None,
                },
                None => None,
            },
            None => None,
        };
        row.total_rank_score = score;
        let ghost before = result@;
        assert(row@ == with_ranks(views, i as int));
        result.push(row);
        assert(row_views(result@) =~= row_views(before).push(row@));
        assert(ranked(views).take(i + 1) =~= ranked(views).take(i as int).push(ranked(views)[i as int]));
    }
    assert(ranked(views).take(views.len() as int) =~= ranked(views));
    result
}

/// The parts of a key that order rows by overall merit: the sum of ranks, then stability, steady
/// latency, number of samples and the time of the last test.
pub open spec fn overall_parts(row: RowView) -> Seq<KeyView> {
    seq![
        KeyView::Number(
            match row.total_rank_score {
                Some(score) => score,
                None => usize::MAX as int,
            },
        ),
        KeyView::Number(
            -match row.stability_percent {
                Some(share) => share.rank_view(),
                None => (FloatBits { bits: 0 }).rank_view(),
            },
        ),
        KeyView::Number(row.latency_jitter.rank_view()),
        KeyView::Number(-(row.latency.samples + row.download.samples + row.upload.samples)),
        KeyView::Number(
            -match row.last_tested_at {
                Some(time) => time as int,
                None => 0,
            },
        ),
    ]
}

/// The key that orders the rows of the table: by overall merit, then by profile and node name.
pub open spec fn table_key() -> spec_fn(RowView) -> Seq<KeyView> {
    |row: RowView|
        overall_parts(row) + seq![KeyView::Text(row.profile_name), KeyView::Text(row.node_name)]
}

/// The key that orders candidates for the overall victory: official ones first.
pub open spec fn overall_key() -> spec_fn(RowView) -> Seq<KeyView> {
    |row: RowView|
        seq![
            KeyView::Number(
                if row.official_eligible {
                    0
                } else {
                    1
                },
            ),
        ] + overall_parts(row)
}

/// The key that orders candidates for the victory in a metric.
pub open spec fn metric_key(kind: MetricKind) -> spec_fn(RowView) -> Seq<KeyView> {
    |row: RowView| seq![KeyView::Number(merit(row, kind))]
}

fn overall_key_parts(row: &BenchmarkNodeRow) -> (parts: Vec<KeyPart>)
    ensures
        parts@.map_values(|part: KeyPart| part@) == overall_parts(row@),
{
    let score: i128 = match row.total_rank_score {
        Some(score) => score as i128,
        None => usize::MAX as i128,
    };
    let share: i128 = match row.stability_percent {
        Some(share) => share.rank() as i128,
        None => (FloatBits { bits: 0 }).rank() as i128,
    };
    let samples: i128 = row.latency.samples as i128 + row.download.samples as i128 + row.upload.samples as i128;
    let tested: i128 = match row.last_tested_at {
        Some(time) => time as i128,
        None => 0,
    };
    let mut parts: Vec<KeyPart> = Vec::new();
    parts.push(KeyPart::Number(score));
    parts.push(KeyPart::Number(-share));
    parts.push(KeyPart::Number(row.latency_jitter.rank() as i128));
    parts.push(KeyPart::Number(-samples));
    parts.push(KeyPart::Number(-tested));
    assert(parts@.map_values(|part: KeyPart| part@) =~= overall_parts(row@));
    parts
}

/// The rows of the ranking, best first, given the rows without ranks.
pub open spec fn table(rows: Seq<RowView>) -> Seq<RowView> {
    arranged(ranked(rows), ranked(rows).map_values(table_key()))
}

/// The rows of all nodes without ranks.
pub open spec fn plain_rows(
    nodes: Seq<NodeView>,
    records: Seq<RecordView>,
    start_at: int,
    figures: Seq<NodeFigures>,
    settings: SettingsView,
    now: int,
) -> Seq<RowView> {
    Seq::new(
        nodes.len(),
        |i: int|
            row_of(nodes[i], records_of(records, nodes[i].node_id, start_at), figures[i], settings, now),
    )
}

fn arrange_rows(rows: Vec<BenchmarkNodeRow>) -> (result: Vec<BenchmarkNodeRow>)
    ensures
        row_views(result@) == arranged(row_views(rows@), row_views(rows@).map_values(table_key())),
{
    let ghost views = row_views(rows@);
    let ghost keyed = views.map_values(table_key());
    let mut keys: Vec<SortKey> = Vec::new();
    for i in 0..rows.len()
        invariant
            views == row_views(rows@),
            keyed == views.map_values(table_key()),
            keys.len() == i,
            key_views(keys@) == keyed.take(i as int),
    {
        let ghost before = keys@;
        let mut parts = overall_key_parts(&rows[i]);
        let ghost overall = parts@;
        parts.push(KeyPart::text(rows[i].profile_name.as_str()));
        parts.push(KeyPart::text(rows[i].node_name.as_str()));
        let key = SortKey { parts };
        assert(views[i as int] == rows@[i as int]@);
        assert(overall_parts(views[i as int]) == overall.map_values(|part: KeyPart| part@));
        assert(key@ =~= table_key()(views[i as int]));
        keys.push(key);
        assert(key_views(keys@) =~= key_views(before).push(key@));
    }
    assert(keyed.take(keyed.len() as int) =~= keyed);
    let order = stable_order(&keys);
    let ghost wanted = arranged(views, keyed);
    let mut result: Vec<BenchmarkNodeRow> = Vec::new();
    for i in 0..order.len()
        invariant
            order.len() == rows.len(),
            views == row_views(rows@),
            wanted == indices(order@).map_values(|i: int| views[i]),
            forall|k: int| 0 <= k < order.len() ==> #[trigger] order@[k] < rows.len(),
            row_views(result@) == wanted.take(i as int),
    {
        let ghost before = result@;
        let copy = rows[order[i]].clone();
        result.push(copy);
        assert(indices(order@)[i as int] == order@[i as int]);
        assert(row_views(result@) =~= row_views(before).push(copy@));
        assert(wanted.take(i + 1) =~= wanted.take(i as int).push(wanted[i as int]));
    }
    assert(wanted.take(wanted.len() as int) =~= wanted);
    result
}

/// The ranked rows of all nodes, best first, given the figures of each node.
pub fn build_ranked_rows(
    nodes: &[StoredNode],
    measurements: &[MeasurementRecord],
    start_at: i64,
    figures: &[NodeFigures],
    settings: &BenchmarkSettings,
    now: i64,
) -> (rows: Vec<BenchmarkNodeRow>)
    requires
        figures@.len() == nodes@.len(),
        nodes@.len() * 3 <= usize::MAX,
    ensures
        row_views(rows@) == table(
            plain_rows(
                node_views(nodes@),
                measurement_records(measurements@),
                start_at as int,
                figures@,
                settings@,
                now as int,
            ),
        ),
        forall|i: int|
            0 <= i < rows@.len() ==> match (
                (#[trigger] rows@[i]).download.rank,
                rows@[i].upload.rank,
                rows@[i].latency.rank,
            ) {
                (Some(download), Some(upload), Some(latency)) => rows@[i].total_rank_score matches Some(score)
                    && score == download + upload + latency,
                _ => rows@[i].total_rank_score is None,
            },
{
    let ghost views = node_views(nodes@);
    let ghost records = measurement_records(measurements@);
    let ghost wanted = plain_rows(views, records, start_at as int, figures@, settings@, now as int);
    let mut rows: Vec<BenchmarkNodeRow> = Vec::new();
    for i in 0..nodes.len()
        invariant
            figures@.len() == nodes@.len(),
            views == node_views(nodes@),
            records == measurement_records(measurements@),
            wanted == plain_rows(views, records, start_at as int, figures@, settings@, now as int),
            rows.len() == i,
            row_views(rows@) == wanted.take(i as int),
    {
        let node_records = pick_node(measurements, nodes[i].node_id.as_str(), start_at);
        let row = build_node_row(&nodes[i], node_records.as_slice(), figures[i], settings, now);
        let ghost before = rows@;
        assert(views[i as int] == nodes@[i as int]@);
        assert(wanted[i as int] == row@);
        rows.push(row);
        assert(row_views(rows@) =~= row_views(before).push(row@));
        assert(wanted.take(i + 1) =~= wanted.take(i as int).push(wanted[i as int]));
    }
    assert(wanted.take(wanted.len() as int) =~= wanted);
    let result = arrange_rows(assign_ranks(rows));
    proof {
        assert forall|i: int| 0 <= i < result@.len() implies match (
            (#[trigger] result@[i]).download.rank,
            result@[i].upload.rank,
            result@[i].latency.rank,
        ) {
            (Some(download), Some(upload), Some(latency)) => result@[i].total_rank_score matches Some(score)
                && score == download + upload + latency,
            _ => result@[i].total_rank_score is None,
        } by {
            law_scores_are_sums_of_ranks(result@, wanted, i);
        }
    }
    result
}

/// What a winner stands for; the value is that of `value`.
pub open spec fn is_champion(champion: ChampionSummary, row: RowView) -> bool {
    &&& champion.node_id@ == row.node_id
    &&& champion.node_name@ == row.node_name
    &&& champion.profile_name@ == row.profile_name
    &&& champion.official == row.official_eligible
}

/// The chosen rows.
pub open spec fn chosen_rows(rows: Seq<RowView>, chosen: spec_fn(RowView) -> bool) -> Seq<RowView>
    decreases rows.len(),
{
    if rows.len() == 0 {
        rows
    } else {
        let front = chosen_rows(rows.drop_last(), chosen);
        if chosen(rows.last()) {
            front.push(rows.last())
        } else {
            front
        }
    }
}

/// The first of the chosen rows in the order of a key.
pub open spec fn leader(
    rows: Seq<RowView>,
    chosen: spec_fn(RowView) -> bool,
    key: spec_fn(RowView) -> Seq<KeyView>,
) -> Option<RowView> {
    let candidates = chosen_rows(rows, chosen);
    if candidates.len() == 0 {
        None
    } else {
        Some(arranged(candidates, candidates.map_values(key))[0])
    }
}

/// Chooses participants with all three ranks.
pub open spec fn scored() -> spec_fn(RowView) -> bool {
    |row: RowView| row.state == ParticipationState::Participating && row.total_rank_score is Some
}

/// Chooses rows that are ranked in a metric.
pub open spec fn ranked_in(kind: MetricKind) -> spec_fn(RowView) -> bool {
    |row: RowView| is_ranked(row, kind)
}

fn lead<'a>(
    candidates: Vec<&'a BenchmarkNodeRow>,
    keys: Vec<SortKey>,
    Ghost(rows): Ghost<Seq<RowView>>,
    Ghost(chosen): Ghost<spec_fn(RowView) -> bool>,
    Ghost(key): Ghost<spec_fn(RowView) -> Seq<KeyView>>,
) -> (result: Option<&'a BenchmarkNodeRow>)
    requires
        borrowed_rows(candidates@) == chosen_rows(rows, chosen),
        key_views(keys@) == chosen_rows(rows, chosen).map_values(key),
        keys.len() == candidates.len(),
    ensures
        match result {
            Some(row) => leader(rows, chosen, key) == Some(row@),
            None => leader(rows, chosen, key) is None,
        },
{
    if candidates.len() == 0 {
        return None;
    }
    let order = stable_order(&keys);
    assert(indices(order@)[0] == order@[0]);
    assert(borrowed_rows(candidates@)[order@[0] as int] == candidates@[order@[0] as int]@);
    Some(candidates[order[0]])
}

/// What borrowed rows stand for.
pub open spec fn borrowed_rows(rows: Seq<&BenchmarkNodeRow>) -> Seq<RowView> {
    rows.map_values(|row: &BenchmarkNodeRow| row@)
}

fn find_overall<'a>(rows: &'a [BenchmarkNodeRow]) -> (result: Option<&'a BenchmarkNodeRow>)
    ensures
        match result {
            Some(row) => leader(row_views(rows@), scored(), overall_key()) == Some(row@),
            None => leader(row_views(rows@), scored(), overall_key()) is None,
        },
{
    let ghost views = row_views(rows@);
    let mut candidates: Vec<&'a BenchmarkNodeRow> = Vec::new();
    let mut keys: Vec<SortKey> = Vec::new();
    assert(borrowed_rows(candidates@) =~= Seq::empty());
    assert(key_views(keys@) =~= Seq::empty());
    assert(views.take(0) =~= Seq::empty());
    assert(chosen_rows(views.take(0), scored()).map_values(overall_key()) =~= Seq::empty());
    for i in 0..rows.len()
        invariant
            views == row_views(rows@),
            keys.len() == candidates.len(),
            borrowed_rows(candidates@) == chosen_rows(views.take(i as int), scored()),
            key_views(keys@) == chosen_rows(views.take(i as int), scored()).map_values(overall_key()),
    {
        let row = &rows[i];
        assert(views.take(i + 1).drop_last() =~= views.take(i as int));
        assert(views.take(i + 1).last() == row@);
        if row.state == ParticipationState::Participating && row.total_rank_score.is_some() {
            let mut parts: Vec<KeyPart> = Vec::new();
            parts.push(
                KeyPart::Number(
                    if row.official_eligible {
                        0
                    } else {
                        1
                    },
                ),
            );
            let mut rest = overall_key_parts(row);
            let ghost rest_parts = rest@;
            parts.append(&mut rest);
            let key = SortKey { parts };
            assert(overall_parts(row@) == rest_parts.map_values(|part: KeyPart| part@));
            assert(key@ =~= overall_key()(row@));
            let ghost candidates_before = candidates@;
            let ghost keys_before = keys@;
            candidates.push(row);
            keys.push(key);
            assert(borrowed_rows(candidates@) =~= borrowed_rows(candidates_before).push(row@));
            assert(key_views(keys@) =~= key_views(keys_before).push(key@));
            assert(chosen_rows(views.take(i + 1), scored()).map_values(overall_key()) =~= chosen_rows(
                views.take(i as int),
                scored(),
            ).map_values(overall_key()).push(overall_key()(row@)));
        }
    }
    assert(views.take(views.len() as int) =~= views);
    lead(candidates, keys, Ghost(views), Ghost(scored()), Ghost(overall_key()))
}

fn best_metric_row<'a>(rows: &'a [BenchmarkNodeRow], kind: MetricKind) -> (result: Option<&'a BenchmarkNodeRow>)
    ensures
        match result {
            Some(row) => leader(row_views(rows@), ranked_in(kind), metric_key(kind)) == Some(row@),
            None => leader(row_views(rows@), ranked_in(kind), metric_key(kind)) is None,
        },
{
    let ghost views = row_views(rows@);
    let ghost chosen = ranked_in(kind);
    let ghost key_of = metric_key(kind);
    let mut candidates: Vec<&'a BenchmarkNodeRow> = Vec::new();
    let mut keys: Vec<SortKey> = Vec::new();
    assert(borrowed_rows(candidates@) =~= Seq::empty());
    assert(key_views(keys@) =~= Seq::empty());
    assert(views.take(0) =~= Seq::empty());
    assert(chosen_rows(views.take(0), chosen).map_values(key_of) =~= Seq::empty());
    for i in 0..rows.len()
        invariant
            views == row_views(rows@),
            chosen == ranked_in(kind),
            key_of == metric_key(kind),
            keys.len() == candidates.len(),
            borrowed_rows(candidates@) == chosen_rows(views.take(i as int), chosen),
            key_views(keys@) == chosen_rows(views.take(i as int), chosen).map_values(key_of),
    {
        let row = &rows[i];
        assert(views.take(i + 1).drop_last() =~= views.take(i as int));
        assert(views.take(i + 1).last() == row@);
        match merit_of(row, kind) {
            Some(value) => {
                let mut parts: Vec<KeyPart> = Vec::new();
                parts.push(KeyPart::Number(value));
                let key = SortKey { parts };
                assert(key@ =~= key_of(row@));
                let ghost candidates_before = candidates@;
                let ghost keys_before = keys@;
                candidates.push(row);
                keys.push(key);
                assert(borrowed_rows(candidates@) =~= borrowed_rows(candidates_before).push(row@));
                assert(key_views(keys@) =~= key_views(keys_before).push(key@));
                assert(chosen_rows(views.take(i + 1), chosen).map_values(key_of) =~= chosen_rows(
                    views.take(i as int),
                    chosen,
                ).map_values(key_of).push(key_of(row@)));
            },
            None => {},
        }
    }
    assert(views.take(views.len() as int) =~= views);
    lead(candidates, keys, Ghost(views), Ghost(chosen), Ghost(key_of))
}

fn champion(row: &BenchmarkNodeRow, value: FloatBits) -> (result: ChampionSummary)
    ensures
        is_champion(result, row@),
        result.value == value,
{
    ChampionSummary {
        node_id: row.node_id.clone(),
        node_name: row.node_name.clone(),
        profile_name: row.profile_name.clone(),
        value,
        official: row.official_eligible,
    }
}

/// Whether the winner of a metric is the best ranked row with its median as the value.
pub open spec fn metric_champion(
    champion: Option<ChampionSummary>,
    rows: Seq<RowView>,
    kind: MetricKind,
) -> bool {
    match (champion, leader(rows, ranked_in(kind), metric_key(kind))) {
        (Some(champion), Some(row)) => is_champion(champion, row) && Some(champion.value) == metric(
            row,
            kind,
        ).median,
        (None, None) => true,
        _ => false,
    }
}

fn build_metric_champion(rows: &[BenchmarkNodeRow], kind: MetricKind) -> (result: Option<ChampionSummary>)
    ensures
        metric_champion(result, row_views(rows@), kind),
{
    match best_metric_row(rows, kind) {
        Some(row) => {
            proof {
                lemma_leader_is_chosen(row_views(rows@), ranked_in(kind), metric_key(kind));
            }
            match metric_median(row, kind) {
                Some(median) => Some(champion(row, median)),
                None => None,
            }
        },
        None => None,
    }
}

/// The winner of a choice of rows is one of them, and none of them comes before it.
pub proof fn lemma_leader_is_chosen(
    rows: Seq<RowView>,
    chosen: spec_fn(RowView) -> bool,
    key: spec_fn(RowView) -> Seq<KeyView>,
)
    requires
        leader(rows, chosen, key) is Some,
    ensures
        chosen(leader(rows, chosen, key)->0),
        chosen_rows(rows, chosen).contains(leader(rows, chosen, key)->0),
        forall|k: int|
            0 <= k < chosen_rows(rows, chosen).len() ==> key_order(
                key(leader(rows, chosen, key)->0),
                key(#[trigger] chosen_rows(rows, chosen)[k]),
            ) <= 0,
{
    let candidates = chosen_rows(rows, chosen);
    let keys = candidates.map_values(key);
    law_sorted_order_is_stable(keys);
    let order = sorted_order(keys);
    let first = order[0];
    lemma_chosen_rows(rows, chosen, first);
    assert(arranged(candidates, keys)[0] == candidates[first]);
    assert forall|k: int| 0 <= k < candidates.len() implies key_order(
        key(candidates[first]),
        key(#[trigger] candidates[k]),
    ) <= 0 by {
        assert(order.contains(k));
        let at = choose|at: int| 0 <= at < order.len() && order[at] == k;
        if at > 0 {
            assert(goes_before(keys, order[0], order[at]));
        } else {
            lemma_key_order_flip(keys[k], keys[k]);
        }
        assert(keys[k] == key(candidates[k]));
        assert(keys[first] == key(candidates[first]));
    }
}

proof fn lemma_chosen_rows(rows: Seq<RowView>, chosen: spec_fn(RowView) -> bool, k: int)
    requires
        0 <= k < chosen_rows(rows, chosen).len(),
    ensures
        chosen(chosen_rows(rows, chosen)[k]),
        rows.contains(chosen_rows(rows, chosen)[k]),
    decreases rows.len(),
{
    let front = chosen_rows(rows.drop_last(), chosen);
    if k < front.len() {
        lemma_chosen_rows(rows.drop_last(), chosen, k);
        let i = choose|i: int| 0 <= i < rows.drop_last().len() && rows.drop_last()[i] == front[k];
        assert(rows[i] == front[k]);
    } else {
        assert(rows[rows.len() - 1] == chosen_rows(rows, chosen)[k]);
    }
}

/// Whether the overall winner is the best row with all ranks, official ones first, with its sum
/// of ranks as the value.
pub open spec fn overall_champion(champion: Option<ChampionSummary>, rows: Seq<RowView>) -> bool {
    match (champion, leader(rows, scored(), overall_key())) {
        (Some(champion), Some(row)) => is_champion(champion, row) && champion.value.denotes(
            nearest_double(row.total_rank_score->0 as nat) as int,
        ),
        (None, None) => true,
        _ => false,
    }
}

/// The winners of the four disciplines.
pub fn build_champions(rows: &[BenchmarkNodeRow]) -> (champions: ChampionCollection)
    ensures
        overall_champion(champions.overall, row_views(rows@)),
        metric_champion(champions.download, row_views(rows@), MetricKind::Download),
        metric_champion(champions.upload, row_views(rows@), MetricKind::Upload),
        metric_champion(champions.latency, row_views(rows@), MetricKind::Latency),
{
    let overall = match find_overall(rows) {
        Some(row) => {
            proof {
                lemma_leader_is_chosen(row_views(rows@), scored(), overall_key());
            }
            match row.total_rank_score {
                Some(score) => Some(champion(row, FloatBits::from_u64(score as u64))),
                None => None,
            }
        },
        None => None,
    };
    ChampionCollection {
        overall,
        download: build_metric_champion(rows, MetricKind::Download),
        upload: build_metric_champion(rows, MetricKind::Upload),
        latency: build_metric_champion(rows, MetricKind::Latency),
    }
}

/// The latencies to which slow nodes are compared.
#[derive(Debug, Clone, Copy)]
pub struct ReferenceFigures {
    /// The median of the excellent latencies.
    pub reference: FloatBits,
    /// The reference and 80 milliseconds.
    pub near: FloatBits,
    /// Twice the reference.
    pub double: FloatBits,
}

/// The places of the median latencies of ranked rows in the total order.
pub open spec fn latency_places(rows: Seq<RowView>) -> Seq<u64> {
    chosen_rows(rows, ranked_in(MetricKind::Latency)).map_values(
        |row: RowView| row.latency.median->0.rank_view() as u64,
    )
}

/// How many of a number of latencies are excellent: a fifth, rounded up, but at least one.
pub open spec fn excellent_count(count: int) -> int {
    if count == 0 {
        1
    } else {
        (count + 4) / 5
    }
}

/// The best fifth of the median latencies, in ascending order.
pub open spec fn excellent(rows: Seq<RowView>) -> Seq<FloatBits> {
    let places = ascending(latency_places(rows));
    let count = excellent_count(places.len() as int);
    (if places.len() <= count {
        places
    } else {
        places.take(count)
    }).map_values(|place: u64| FloatBits::at_rank(place))
}

fn pick_ranked<'a>(rows: &'a [BenchmarkNodeRow]) -> (result: Vec<&'a BenchmarkNodeRow>)
    ensures
        borrowed_rows(result@) == chosen_rows(row_views(rows@), ranked_in(MetricKind::Latency)),
{
    let ghost views = row_views(rows@);
    let ghost chosen = ranked_in(MetricKind::Latency);
    let mut result: Vec<&'a BenchmarkNodeRow> = Vec::new();
    assert(borrowed_rows(result@) =~= Seq::empty());
    assert(views.take(0) =~= Seq::empty());
    for i in 0..rows.len()
        invariant
            views == row_views(rows@),
            chosen == ranked_in(MetricKind::Latency),
            borrowed_rows(result@) == chosen_rows(views.take(i as int), chosen),
    {
        let row = &rows[i];
        assert(views.take(i + 1).drop_last() =~= views.take(i as int));
        assert(views.take(i + 1).last() == row@);
        if row.state == ParticipationState::Participating && row.latency.median.is_some() {
            let ghost before = result@;
            result.push(row);
            assert(borrowed_rows(result@) =~= borrowed_rows(before).push(row@));
        }
    }
    assert(views.take(views.len() as int) =~= views);
    result
}

/// The best fifth of the median latencies, in ascending order.
pub fn excellent_latencies(rows: &[BenchmarkNodeRow]) -> (result: Vec<FloatBits>)
    ensures
        result@ == excellent(row_views(rows@)),
{
    let ranked_rows = pick_ranked(rows);
    let ghost views = row_views(rows@);
    let ghost chosen = chosen_rows(views, ranked_in(MetricKind::Latency));
    let ghost wanted = latency_places(views);
    let mut places: Vec<u64> = Vec::new();
    for i in 0..ranked_rows.len()
        invariant
            views == row_views(rows@),
            chosen == chosen_rows(views, ranked_in(MetricKind::Latency)),
            borrowed_rows(ranked_rows@) == chosen,
            wanted == latency_places(views),
            places@ == wanted.take(i as int),
    {
        let row = ranked_rows[i];
        assert(chosen[i as int] == row@);
        proof {
            lemma_chosen_rows(views, ranked_in(MetricKind::Latency), i as int);
        }
        assert(row@.latency.median is Some);
        let place: u64 = match row.latency.median {
            Some(median) => median.rank(),
            None => 0,
        };
        places.push(place);
        assert(wanted[i as int] == place);
        assert(wanted.take(i + 1) =~= wanted.take(i as int).push(wanted[i as int]));
    }
    assert(wanted.take(wanted.len() as int) =~= wanted);
    let sorted = sort_numbers(places);
    let total: usize = sorted.len();
    let fifth: usize = total / 5 + if total % 5 == 0 {
        0usize
    } else {
        1usize
    };
    let count: usize = if fifth == 0 {
        1
    } else {
        fifth
    };
    let limit: usize = if total <= count {
        total
    } else {
        count
    };
    proof {
        law_ascending_sorts(wanted);
        assert(count == excellent_count(total as int));
    }
    let ghost kept = if sorted@.len() <= count {
        sorted@
    } else {
        sorted@.take(count as int)
    };
    let ghost target = kept.map_values(|place: u64| FloatBits::at_rank(place));
    let mut result: Vec<FloatBits> = Vec::new();
    for i in 0..limit
        invariant
            limit == kept.len(),
            limit <= sorted.len(),
            forall|k: int| 0 <= k < limit ==> #[trigger] kept[k] == sorted@[k],
            target == kept.map_values(|place: u64| FloatBits::at_rank(place)),
            result@ == target.take(i as int),
    {
        result.push(FloatBits::from_rank(sorted[i]));
        assert(kept[i as int] == sorted@[i as int]);
        assert(target.take(i + 1) =~= target.take(i as int).push(target[i as int]));
    }
    assert(target.take(target.len() as int) =~= target);
    result
}

/// What a reminder stands for.
pub struct ReminderView {
    pub node_id: Seq<char>,
    pub node_name: Seq<char>,
    pub profile_name: Seq<char>,
    pub latency_rank: int,
    pub total_nodes: int,
    pub median_latency: FloatBits,
    pub reference_latency: FloatBits,
    pub download_rank: Option<int>,
    pub upload_rank: Option<int>,
    pub stability_percent: Option<FloatBits>,
    pub saved_download_bytes_per_day: int,
    pub saved_upload_bytes_per_day: int,
}

impl View for ExclusionReminder {
    type V = ReminderView;

    open spec fn view(&self) -> ReminderView {
        ReminderView {
            node_id: self.node_id@,
            node_name: self.node_name@,
            profile_name: self.profile_name@,
            latency_rank: self.latency_rank as int,
            total_nodes: self.total_nodes as int,
            median_latency: self.median_latency,
            reference_latency: self.reference_latency,
            download_rank: rank_view(self.download_rank),
            upload_rank: rank_view(self.upload_rank),
            stability_percent: self.stability_percent,
            saved_download_bytes_per_day: self.saved_download_bytes_per_day as int,
            saved_upload_bytes_per_day: self.saved_upload_bytes_per_day as int,
        }
    }
}

/// What reminders stand for.
pub open spec fn reminder_views(reminders: Seq<ExclusionReminder>) -> Seq<ReminderView> {
    reminders.map_values(|reminder: ExclusionReminder| reminder@)
}

/// The first node with an id.
pub open spec fn node_with_id(nodes: Seq<NodeView>, node_id: Seq<char>) -> Option<NodeView>
    decreases nodes.len(),
{
    if nodes.len() == 0 {
        None
    } else if nodes[0].node_id == node_id {
        Some(nodes[0])
    } else {
        node_with_id(nodes.drop_first(), node_id)
    }
}

/// The last rank that is not in the bottom quarter.
pub open spec fn bottom_start(count: int) -> int {
    (count * 3 + 3) / 4
}

/// How many speed tests a node has per day.
pub open spec fn tests_per_day(interval_hours: u64) -> int {
    let hours: int = if interval_hours < 1 {
        1
    } else {
        interval_hours as int
    };
    if hours >= 24 {
        1
    } else {
        (24 + hours - 1) / hours
    }
}

/// Whether the user should be reminded of a slow node: it has been watched for a day with at
/// least 20 successes, it is in the bottom quarter, the user did not put the reminder off, and
/// its latency is clearly worse than the best.
pub open spec fn remindable(
    row: RowView,
    node: NodeView,
    now: int,
    count: int,
    figures: ReferenceFigures,
) -> bool {
    &&& now - node.first_seen_at >= 86_400
    &&& row.latency_successes >= 20
    &&& row.latency.rank is Some && row.latency.rank->0 > bottom_start(count)
    &&& !node.ignore_reminder
    &&& !(node.snoozed_until matches Some(until) && until > now)
    &&& !(row.latency.median->0.below(figures.near) && row.latency.median->0.below(figures.double))
}

/// The reminder of a slow node, if there is one.
pub open spec fn reminder_of(
    row: RowView,
    nodes: Seq<NodeView>,
    records: Seq<RecordView>,
    settings: SettingsView,
    now: int,
    count: int,
    figures: ReferenceFigures,
) -> Option<ReminderView> {
    match node_with_id(nodes, row.node_id) {
        None => None,
        Some(node) => if remindable(row, node, now, count, figures) {
            Some(
                ReminderView {
                    node_id: row.node_id,
                    node_name: row.node_name,
                    profile_name: row.profile_name,
                    latency_rank: row.latency.rank->0,
                    total_nodes: count,
                    median_latency: row.latency.median->0,
                    reference_latency: figures.reference,
                    download_rank: row.download.rank,
                    upload_rank: row.upload.rank,
                    stability_percent: row.stability_percent,
                    saved_download_bytes_per_day: capped(
                        usual_size(
                            records,
                            row.node_id,
                            MeasurementKind::Download,
                            false,
                            settings.speed_max_bytes as int,
                        ) * tests_per_day(settings.speed_interval_hours),
                    ),
                    saved_upload_bytes_per_day: capped(
                        usual_size(
                            records,
                            row.node_id,
                            MeasurementKind::Upload,
                            false,
                            settings.speed_max_bytes as int,
                        ) * tests_per_day(settings.speed_interval_hours),
                    ),
                },
            )
        } else {
            None
        },
    }
}

/// The reminders of rows, in their order.
pub open spec fn reminders_of(
    rows: Seq<RowView>,
    nodes: Seq<NodeView>,
    records: Seq<RecordView>,
    settings: SettingsView,
    now: int,
    count: int,
    figures: ReferenceFigures,
) -> Seq<ReminderView>
    decreases rows.len(),
{
    if rows.len() == 0 {
        Seq::empty()
    } else {
        let front = reminders_of(rows.drop_last(), nodes, records, settings, now, count, figures);
        match reminder_of(rows.last(), nodes, records, settings, now, count, figures) {
            Some(reminder) => front.push(reminder),
            None => front,
        }
    }
}

/// The reminders of a ranking; there are none with fewer than four ranked nodes.
pub open spec fn reminders(
    nodes: Seq<NodeView>,
    rows: Seq<RowView>,
    records: Seq<RecordView>,
    settings: SettingsView,
    now: int,
    figures: ReferenceFigures,
) -> Seq<ReminderView> {
    let ranked_rows = chosen_rows(rows, ranked_in(MetricKind::Latency));
    if ranked_rows.len() < 4 {
        Seq::empty()
    } else {
        reminders_of(ranked_rows, nodes, records, settings, now, ranked_rows.len() as int, figures)
    }
}

fn find_node<'a>(nodes: &'a [StoredNode], node_id: &str) -> (result: Option<&'a StoredNode>)
    ensures
        match result {
            Some(node) => node_with_id(node_views(nodes@), node_id@) == Some(node@),
            None => node_with_id(node_views(nodes@), node_id@) is None,
        },
{
    let ghost all = node_views(nodes@);
    assert(all.skip(0) =~= all);
    for i in 0..nodes.len()
        invariant
            all == node_views(nodes@),
            node_with_id(all, node_id@) == node_with_id(all.skip(i as int), node_id@),
    {
        assert(all.skip(i as int)[0] == nodes@[i as int]@);
        if same_text(nodes[i].node_id.as_str(), node_id) {
            return Some(&nodes[i]);
        }
        assert(all.skip(i as int).drop_first() =~= all.skip(i + 1));
    }
    None
}

fn build_reminder(
    row: &BenchmarkNodeRow,
    nodes: &[StoredNode],
    measurements: &[MeasurementRecord],
    settings: &BenchmarkSettings,
    now: i64,
    count: usize,
    figures: ReferenceFigures,
) -> (result: Option<ExclusionReminder>)
    requires
        is_ranked(row@, MetricKind::Latency),
        count * 3 + 3 <= usize::MAX,
    ensures
        match result {
            Some(reminder) => reminder_of(
                row@,
                node_views(nodes@),
                measurement_records(measurements@),
                settings@,
                now as int,
                count as int,
                figures,
            ) == Some(reminder@),
            None => reminder_of(
                row@,
                node_views(nodes@),
                measurement_records(measurements@),
                settings@,
                now as int,
                count as int,
                figures,
            ) is None,
        },
{
    let node = match find_node(nodes, row.node_id.as_str()) {
        Some(node) => node,
        None => return None,
    };
    let rank: usize = match row.latency.rank {
        Some(rank) => rank,
        None => return None,
    };
    let median_latency = match row.latency.median {
        Some(median) => median,
        None => return None,
    };
    let watched: i128 = now as i128 - node.first_seen_at as i128;
    let snoozed: bool = match node.snoozed_until {
        Some(until) => until > now,
        None => false,
    };
    if watched < 86_400 || row.latency_successes < 20 || rank <= (count * 3 + 3) / 4 || node.ignore_reminder
        || snoozed || (median_latency.is_below(&figures.near) && median_latency.is_below(&figures.double)) {
        return None;
    }
    let hours: u64 = if settings.speed_interval_hours < 1 {
        1
    } else {
        settings.speed_interval_hours
    };
    let tests: u64 = if hours >= 24 {
        1
    } else {
        (24 + hours - 1) / hours
    };
    let download_size: u64 = measure_usual_size(
        measurements,
        row.node_id.as_str(),
        MeasurementKind::Download,
        false,
        settings.speed_max_bytes,
    );
    let upload_size: u64 = measure_usual_size(
        measurements,
        row.node_id.as_str(),
        MeasurementKind::Upload,
        false,
        settings.speed_max_bytes,
    );
    Some(
        ExclusionReminder {
            node_id: row.node_id.clone(),
            node_name: row.node_name.clone(),
            profile_name: row.profile_name.clone(),
            latency_rank: rank,
            total_nodes: count,
            median_latency,
            reference_latency: figures.reference,
            download_rank: row.download.rank,
            upload_rank: row.upload.rank,
            stability_percent: row.stability_percent,
            saved_download_bytes_per_day: multiply_capped(download_size, tests),
            saved_upload_bytes_per_day: multiply_capped(upload_size, tests),
        },
    )
}

/// The reminders of nodes that have been slow for long.
pub fn build_reminders(
    nodes: &[StoredNode],
    rows: &[BenchmarkNodeRow],
    measurements: &[MeasurementRecord],
    settings: &BenchmarkSettings,
    now: i64,
    figures: ReferenceFigures,
) -> (result: Vec<ExclusionReminder>)
    requires
        rows@.len() * 3 + 3 <= usize::MAX,
    ensures
        reminder_views(result@) == reminders(
            node_views(nodes@),
            row_views(rows@),
            measurement_records(measurements@),
            settings@,
            now as int,
            figures,
        ),
{
    let ranked_rows = pick_ranked(rows);
    let ghost views = row_views(rows@);
    let ghost chosen = chosen_rows(views, ranked_in(MetricKind::Latency));
    proof {
        lemma_chosen_rows_fewer(views, ranked_in(MetricKind::Latency));
    }
    let mut result: Vec<ExclusionReminder> = Vec::new();
    assert(reminder_views(result@) =~= Seq::empty());
    if ranked_rows.len() < 4 {
        return result;
    }
    let count: usize = ranked_rows.len();
    assert(chosen.take(0) =~= Seq::empty());
    for i in 0..ranked_rows.len()
        invariant
            count == ranked_rows.len(),
            count * 3 + 3 <= usize::MAX,
            views == row_views(rows@),
            chosen == chosen_rows(views, ranked_in(MetricKind::Latency)),
            borrowed_rows(ranked_rows@) == chosen,
            reminder_views(result@) == reminders_of(
                chosen.take(i as int),
                node_views(nodes@),
                measurement_records(measurements@),
                settings@,
                now as int,
                count as int,
                figures,
            ),
    {
        let row = ranked_rows[i];
        assert(chosen.take(i + 1).drop_last() =~= chosen.take(i as int));
        assert(chosen.take(i + 1).last() == row@);
        proof {
            lemma_chosen_rows(views, ranked_in(MetricKind::Latency), i as int);
            assert(chosen[i as int] == row@);
        }
        match build_reminder(row, nodes, measurements, settings, now, count, figures) {
            Some(reminder) => {
                let ghost before = result@;
                result.push(reminder);
                assert(reminder_views(result@) =~= reminder_views(before).push(reminder@));
            },
            None => {},
        }
    }
    assert(chosen.take(chosen.len() as int) =~= chosen);
    result
}

proof fn lemma_chosen_rows_fewer(rows: Seq<RowView>, chosen: spec_fn(RowView) -> bool)
    ensures
        chosen_rows(rows, chosen).len() <= rows.len(),
    decreases rows.len(),
{
    if rows.len() > 0 {
        lemma_chosen_rows_fewer(rows.drop_last(), chosen);
    }
}

/// The figures from which a whole ranking is built.
#[derive(Debug)]
pub struct RankingFigures {
    /// The figures of the nodes in the window that is shown.
    pub shown: Vec<NodeFigures>,
    /// The figures of the nodes in the last 24 hours, on which reminders rest.
    pub day: Vec<NodeFigures>,
    /// The latencies to which slow nodes are compared.
    pub reference: ReferenceFigures,
}

/// The table of a window.
pub open spec fn window_table(
    nodes: Seq<NodeView>,
    records: Seq<RecordView>,
    window: BenchmarkWindow,
    settings: SettingsView,
    now: int,
    figures: Seq<NodeFigures>,
) -> Seq<RowView> {
    table(plain_rows(nodes, records, window.start(now), figures, settings, now))
}

/// Whether these are the table, the winners and the reminders of a window. Reminders always rest
/// on the last 24 hours.
pub open spec fn is_ranking(
    rows: Seq<BenchmarkNodeRow>,
    champions: ChampionCollection,
    advice: Seq<ExclusionReminder>,
    nodes: Seq<NodeView>,
    records: Seq<RecordView>,
    window: BenchmarkWindow,
    settings: SettingsView,
    now: int,
    figures: RankingFigures,
) -> bool {
    let shown = window_table(nodes, records, window, settings, now, figures.shown@);
    let day = window_table(nodes, records, BenchmarkWindow::OneDay, settings, now, figures.day@);
    &&& row_views(rows) == shown
    &&& overall_champion(champions.overall, shown)
    &&& metric_champion(champions.download, shown, MetricKind::Download)
    &&& metric_champion(champions.upload, shown, MetricKind::Upload)
    &&& metric_champion(champions.latency, shown, MetricKind::Latency)
    &&& reminder_views(advice) == reminders(nodes, day, records, settings, now, figures.reference)
}

/// The table, the winners and the reminders of a window, given the figures. Reminders always
/// rest on the last 24 hours.
pub fn build_rankings(
    nodes: &[StoredNode],
    measurements: &[MeasurementRecord],
    window: BenchmarkWindow,
    settings: &BenchmarkSettings,
    now: i64,
    figures: &RankingFigures,
) -> (result: (Vec<BenchmarkNodeRow>, ChampionCollection, Vec<ExclusionReminder>))
    requires
        figures.shown@.len() == nodes@.len(),
        figures.day@.len() == nodes@.len(),
        nodes@.len() * 3 + 3 <= usize::MAX,
        now - 604_800 >= i64::MIN,
    ensures
        is_ranking(
            result.0@,
            result.1,
            result.2@,
            node_views(nodes@),
            measurement_records(measurements@),
            window,
            settings@,
            now as int,
            *figures,
        ),
        forall|i: int|
            0 <= i < result.0@.len() ==> match (
                (#[trigger] result.0@[i]).download.rank,
                result.0@[i].upload.rank,
                result.0@[i].latency.rank,
            ) {
                (Some(download), Some(upload), Some(latency)) => result.0@[i].total_rank_score matches Some(score)
                    && score == download + upload + latency,
                _ => result.0@[i].total_rank_score is None,
            },
{
    let rows = build_ranked_rows(
        nodes,
        measurements,
        window.start_timestamp(now),
        figures.shown.as_slice(),
        settings,
        now,
    );
    proof {
        lemma_table_len(
            plain_rows(
                node_views(nodes@),
                measurement_records(measurements@),
                window.start(now as int),
                figures.shown@,
                settings@,
                now as int,
            ),
        );
        assert(row_views(rows@).len() == nodes@.len());
    }
    let champions = build_champions(rows.as_slice());
    let day_rows = build_ranked_rows(
        nodes,
        measurements,
        BenchmarkWindow::OneDay.start_timestamp(now),
        figures.day.as_slice(),
        settings,
        now,
    );
    proof {
        lemma_table_len(
            plain_rows(
                node_views(nodes@),
                measurement_records(measurements@),
                BenchmarkWindow::OneDay.start(now as int),
                figures.day@,
                settings@,
                now as int,
            ),
        );
        assert(row_views(day_rows@).len() == nodes@.len());
    }
    let found = build_reminders(
        nodes,
        day_rows.as_slice(),
        measurements,
        settings,
        now,
        figures.reference,
    );
    (rows, champions, found)
}

proof fn lemma_table_len(rows: Seq<RowView>)
    ensures
        table(rows).len() == rows.len(),
{
    law_sorted_order_is_stable(ranked(rows).map_values(table_key()));
}

} // verus!
