//! The traffic of a day: what was used and what is still to be expected.

use crate::errors::BenchmarkError;
use crate::floats::FloatBits;
use crate::models::{
    LATENCY_ESTIMATED_DOWNLOAD_BYTES, LATENCY_ESTIMATED_UPLOAD_BYTES, MeasurementKind,
    MeasurementRecord, NodeView, ParticipationState, ProfileTrafficSummary, RecordView, StoredNode,
    TrafficSummary,
};
use crate::order::{
    KeyPart, KeyView, SortKey, arranged, ascending, at_most, indices, key_views,
    law_ascending_sorts, law_sorted_order_is_stable, sort_numbers, sorted_order, stable_order,
};
use crate::queries::{ProfileTraffic, traffic_rows};
use crate::settings::{BenchmarkSettings, SettingsView, multiplier_views};
use crate::store::{measurement_records, node_views};
use crate::text::same_text;
use vstd::prelude::*;

verus! {

/// The bits of the double 1.0, the multiplier of a profile without one.
pub const PLAIN_MULTIPLIER: u64 = 0x3ff0_0000_0000_0000;

/// A number of bytes, stopped at the largest 64-bit number.
pub open spec fn capped(bytes: int) -> int {
    if bytes > u64::MAX {
        u64::MAX as int
    } else {
        bytes
    }
}

fn add_capped(a: u64, b: u64) -> (sum: u64)
    ensures
        sum == capped(a + b),
{
    if a > u64::MAX - b {
        u64::MAX
    } else {
        a + b
    }
}

/// Multiplies two numbers and stops at the largest 64-bit number.
pub fn multiply_capped(a: u64, b: u64) -> (product: u64)
    ensures
        product == capped(a * b),
{
    proof {
        assert(a as int * b as int <= 0xffff_ffff_ffff_ffff * 0xffff_ffff_ffff_ffff) by (nonlinear_arith)
            requires
                0 <= a <= 0xffff_ffff_ffff_ffff,
                0 <= b <= 0xffff_ffff_ffff_ffff,
        ;
    }
    let product: u128 = (a as u128) * (b as u128);
    if product > u64::MAX as u128 {
        u64::MAX
    } else {
        product as u64
    }
}

/// The median of numbers: the middle one, or half the sum of the two middle ones.
pub open spec fn median(values: Seq<u64>) -> Option<int> {
    let sorted = ascending(values);
    let middle = values.len() as int / 2;
    if values.len() == 0 {
        None
    } else if values.len() % 2 == 0 {
        Some((sorted[middle - 1] + sorted[middle]) / 2)
    } else {
        Some(sorted[middle] as int)
    }
}

/// The median of numbers.
pub fn median_u64(values: Vec<u64>) -> (result: Option<u64>)
    ensures
        match result {
            Some(value) => median(values@) == Some(value as int),
            None => median(values@) is None,
        },
{
    if values.len() == 0 {
        return None;
    }
    let count: usize = values.len();
    let sorted = sort_numbers(values);
    let middle: usize = count / 2;
    if count % 2 == 0 {
        Some(((sorted[middle - 1] as u128 + sorted[middle] as u128) / 2) as u64)
    } else {
        Some(sorted[middle])
    }
}

/// The median lies between the smallest and the largest number.
pub proof fn law_median_is_in_the_middle(values: Seq<u64>)
    requires
        values.len() > 0,
    ensures
        median(values) is Some,
        ascending(values)[0] <= median(values)->0 <= ascending(values)[values.len() - 1],
{
    let sorted = ascending(values);
    let n = values.len() as int;
    let middle = n / 2;
    law_ascending_sorts(values);
    if middle > 0 {
        assert(at_most()(sorted[0], sorted[middle]));
    }
    if middle < n - 1 {
        assert(at_most()(sorted[middle], sorted[n - 1]));
    }
    if n % 2 == 0 {
        if middle - 1 > 0 {
            assert(at_most()(sorted[0], sorted[middle - 1]));
        }
        assert(at_most()(sorted[middle - 1], sorted[middle]));
    }
}

/// A number of bytes with a tenth more for protocol overhead.
pub open spec fn with_margin(bytes: int) -> int {
    capped(bytes + bytes / 10)
}

/// Adds a tenth for protocol overhead.
pub fn add_safety_margin(bytes: u64) -> (result: u64)
    ensures
        result == with_margin(bytes as int),
{
    add_capped(bytes, bytes / 10)
}

/// The later of a planned time and now.
pub open spec fn first_run(next_at: int, now: int) -> int {
    if next_at >= now {
        next_at
    } else {
        now
    }
}

/// How often a test with a fixed interval still runs before the day ends.
pub open spec fn interval_runs(next_at: int, interval_seconds: int, now: int, day_end: int) -> int {
    let first = first_run(next_at, now);
    let left = day_end - first - 1;
    if first >= day_end {
        0
    } else {
        1 + (if left > i64::MAX {
            i64::MAX as int
        } else {
            left
        }) / (if interval_seconds < 1 {
            1
        } else {
            interval_seconds
        })
    }
}

/// How often a test with a fixed interval still runs before the day ends.
pub fn planned_interval_runs(next_at: i64, interval_seconds: u64, now: i64, day_end: i64) -> (runs: u64)
    ensures
        runs == interval_runs(next_at as int, interval_seconds as int, now as int, day_end as int),
{
    let first: i64 = if next_at >= now {
        next_at
    } else {
        now
    };
    if first >= day_end {
        return 0;
    }
    let interval: u64 = if interval_seconds < 1 {
        1
    } else {
        interval_seconds
    };
    let left: i128 = day_end as i128 - first as i128 - 1;
    let seconds: u64 = if left > i64::MAX as i128 {
        i64::MAX as u64
    } else {
        left as u64
    };
    proof {
        assert(seconds / interval <= seconds) by (nonlinear_arith)
            requires
                interval >= 1,
        ;
    }
    1 + seconds / interval
}

/// The expected runs of a test are exactly those that start before the day ends.
pub proof fn law_interval_runs_end_with_the_day(
    next_at: int,
    interval_seconds: int,
    now: int,
    day_end: int,
    k: int,
)
    requires
        interval_seconds >= 1,
        day_end - first_run(next_at, now) - 1 <= i64::MAX,
        k >= 0,
    ensures
        k < interval_runs(next_at, interval_seconds, now, day_end) <==> first_run(next_at, now) + k
            * interval_seconds < day_end,
{
    let first = first_run(next_at, now);
    let left = day_end - first - 1;
    assert(k * interval_seconds >= 0) by (nonlinear_arith)
        requires
            k >= 0,
            interval_seconds >= 1,
    ;
    if first < day_end {
        let q = left / interval_seconds;
        assert(q * interval_seconds <= left < (q + 1) * interval_seconds) by (nonlinear_arith)
            requires
                q == left / interval_seconds,
                interval_seconds >= 1,
                left >= 0,
        ;
        if k <= q {
            assert(k * interval_seconds <= q * interval_seconds) by (nonlinear_arith)
                requires
                    k <= q,
                    interval_seconds >= 1,
            ;
        } else {
            assert(k * interval_seconds >= (q + 1) * interval_seconds) by (nonlinear_arith)
                requires
                    k >= q + 1,
                    interval_seconds >= 1,
            ;
        }
    }
}

/// The stage after a stage of the series of speed tests.
pub open spec fn next_stage(stage: int) -> int {
    if stage >= 3 {
        3
    } else {
        stage + 1
    }
}

/// The seconds after a speed test of a stage until the next one.
pub open spec fn stage_delay(stage: int, interval_hours: int) -> int {
    if stage == 0 {
        3_600
    } else if stage == 1 {
        10_800
    } else if interval_hours < 1 {
        3_600
    } else {
        interval_hours * 3_600
    }
}

/// How often a speed test still runs before the day ends, the early ones of a new series
/// included.
pub open spec fn speed_runs(stage: int, at: int, interval_hours: int, day_end: int) -> int
    decreases
        if at >= day_end {
            0
        } else {
            day_end - at
        },
{
    if at >= day_end {
        0
    } else {
        1 + speed_runs(next_stage(stage), at + stage_delay(stage, interval_hours), interval_hours, day_end)
    }
}

/// How often a speed test in one direction still runs before the day ends.
pub fn planned_speed_runs(
    bootstrap_stage: u8,
    scheduled_at: i64,
    settings: &BenchmarkSettings,
    now: i64,
    day_end: i64,
) -> (runs: u64)
    requires
        settings.speed_interval_hours * 3_600 <= i64::MAX,
    ensures
        runs == speed_runs(
            bootstrap_stage as int,
            first_run(scheduled_at as int, now as int),
            settings@.speed_interval_hours as int,
            day_end as int,
        ),
{
    let hours: i64 = settings.speed_interval_hours as i64;
    let mut stage: u8 = bootstrap_stage;
    let first: i64 = if scheduled_at >= now {
        scheduled_at
    } else {
        now
    };
    let mut next_at: i128 = first as i128;
    let mut runs: u64 = 0;
    while next_at < day_end as i128
        invariant
            hours == settings.speed_interval_hours,
            hours * 3_600 <= i64::MAX,
            first <= next_at,
            next_at <= day_end || next_at <= i64::MAX + i64::MAX,
            runs * 3_600 <= next_at - first,
            runs + speed_runs(stage as int, next_at as int, hours as int, day_end as int) == speed_runs(
                bootstrap_stage as int,
                first as int,
                hours as int,
                day_end as int,
            ),
        decreases
            if next_at >= day_end {
                0
            } else {
                day_end - next_at
            },
    {
        let delay: i64 = if stage == 0 {
            3_600
        } else if stage == 1 {
            10_800
        } else if hours < 1 {
            3_600
        } else {
            hours * 3_600
        };
        stage = if stage >= 3 {
            3
        } else {
            stage + 1
        };
        next_at = next_at + delay as i128;
        runs = runs + 1;
    }
    runs
}

/// The bytes that the successful tests of a node moved in one direction; tests that moved
/// nothing are left out where only positive numbers are wanted.
pub open spec fn test_sizes(
    records: Seq<RecordView>,
    node_id: Seq<char>,
    kind: MeasurementKind,
    positive: bool,
) -> Seq<u64>
    decreases records.len(),
{
    if records.len() == 0 {
        Seq::empty()
    } else {
        let front = test_sizes(records.drop_last(), node_id, kind, positive);
        let last = records.last();
        let bytes = if kind == MeasurementKind::Download {
            last.bytes_down
        } else {
            last.bytes_up
        };
        if last.node_id == node_id && last.kind == kind && last.success && (bytes > 0 || !positive) {
            front.push(bytes)
        } else {
            front
        }
    }
}

/// The usual size of a test of a node: the median of its successful tests, or a default.
pub open spec fn usual_size(
    records: Seq<RecordView>,
    node_id: Seq<char>,
    kind: MeasurementKind,
    positive: bool,
    default: int,
) -> int {
    match median(test_sizes(records, node_id, kind, positive)) {
        Some(size) => size,
        None => default,
    }
}

/// The usual size of a test of a node.
pub fn measure_usual_size(
    records: &[MeasurementRecord],
    node_id: &str,
    kind: MeasurementKind,
    positive: bool,
    default: u64,
) -> (size: u64)
    ensures
        size == usual_size(measurement_records(records@), node_id@, kind, positive, default as int),
{
    let ghost all = measurement_records(records@);
    let mut sizes: Vec<u64> = Vec::new();
    assert(all.take(0) =~= Seq::empty());
    for i in 0..records.len()
        invariant
            all == measurement_records(records@),
            sizes@ == test_sizes(all.take(i as int), node_id@, kind, positive),
    {
        let record = &records[i];
        assert(all[i as int] == record@);
        assert(all.take(i + 1).drop_last() =~= all.take(i as int));
        assert(all.take(i + 1).last() == record@);
        let bytes: u64 = if kind == MeasurementKind::Download {
            record.bytes_down
        } else {
            record.bytes_up
        };
        if same_text(record.node_id.as_str(), node_id) && record.kind == kind && record.success && (bytes > 0
            || !positive) {
            sizes.push(bytes);
        }
    }
    assert(all.take(all.len() as int) =~= all);
    match median_u64(sizes) {
        Some(size) => size,
        None => default,
    }
}

/// What the traffic of a profile stands for.
pub struct TrafficView {
    pub profile_uid: Seq<char>,
    pub profile_name: Seq<char>,
    pub estimated_download_bytes: int,
    pub estimated_upload_bytes: int,
    pub actual_download_bytes: int,
    pub actual_upload_bytes: int,
    pub multiplier: FloatBits,
}

impl View for ProfileTrafficSummary {
    type V = TrafficView;

    open spec fn view(&self) -> TrafficView {
        TrafficView {
            profile_uid: self.profile_uid@,
            profile_name: self.profile_name@,
            estimated_download_bytes: self.estimated_download_bytes as int,
            estimated_upload_bytes: self.estimated_upload_bytes as int,
            actual_download_bytes: self.actual_download_bytes as int,
            actual_upload_bytes: self.actual_upload_bytes as int,
            multiplier: self.multiplier,
        }
    }
}

/// What the traffic of several profiles stands for.
pub open spec fn traffic_views(profiles: Seq<ProfileTrafficSummary>) -> Seq<TrafficView> {
    profiles.map_values(|profile: ProfileTrafficSummary| profile@)
}

/// The multiplier of a profile: the first that is given for it, or 1.
pub open spec fn multiplier_of(multipliers: Seq<(Seq<char>, FloatBits)>, uid: Seq<char>) -> FloatBits
    decreases multipliers.len(),
{
    if multipliers.len() == 0 {
        FloatBits { bits: PLAIN_MULTIPLIER }
    } else if multipliers[0].0 == uid {
        multipliers[0].1
    } else {
        multiplier_of(multipliers.drop_first(), uid)
    }
}

/// The multiplier of a profile.
pub fn find_multiplier(settings: &BenchmarkSettings, uid: &str) -> (multiplier: FloatBits)
    ensures
        multiplier == multiplier_of(settings@.profile_traffic_multipliers, uid@),
{
    let ghost all = multiplier_views(settings.profile_traffic_multipliers@);
    assert(all.skip(0) =~= all);
    for i in 0..settings.profile_traffic_multipliers.len()
        invariant
            all == multiplier_views(settings.profile_traffic_multipliers@),
            multiplier_of(all, uid@) == multiplier_of(all.skip(i as int), uid@),
    {
        let entry = &settings.profile_traffic_multipliers[i];
        assert(all.skip(i as int)[0] == (entry.0@, entry.1));
        if same_text(entry.0.as_str(), uid) {
            return entry.1;
        }
        assert(all.skip(i as int).drop_first() =~= all.skip(i + 1));
    }
    FloatBits { bits: PLAIN_MULTIPLIER }
}

/// The index of the traffic of a profile, or the number of profiles.
pub open spec fn traffic_at(profiles: Seq<TrafficView>, uid: Seq<char>) -> int
    decreases profiles.len(),
{
    if profiles.len() == 0 {
        0
    } else if profiles[0].profile_uid == uid {
        0
    } else {
        1 + traffic_at(profiles.drop_first(), uid)
    }
}

proof fn lemma_traffic_at_bounds(profiles: Seq<TrafficView>, uid: Seq<char>)
    ensures
        0 <= traffic_at(profiles, uid) <= profiles.len(),
        traffic_at(profiles, uid) < profiles.len() ==> profiles[traffic_at(profiles, uid)].profile_uid == uid,
    decreases profiles.len(),
{
    if profiles.len() > 0 && profiles[0].profile_uid != uid {
        lemma_traffic_at_bounds(profiles.drop_first(), uid);
    }
}

fn find_traffic(profiles: &Vec<ProfileTrafficSummary>, uid: &str) -> (at: usize)
    ensures
        at == traffic_at(traffic_views(profiles@), uid@),
        at <= profiles.len(),
{
    let ghost all = traffic_views(profiles@);
    assert(all.skip(0) =~= all);
    for i in 0..profiles.len()
        invariant
            all == traffic_views(profiles@),
            traffic_at(all, uid@) == i + traffic_at(all.skip(i as int), uid@),
    {
        assert(all.skip(i as int)[0] == profiles@[i as int]@);
        if same_text(profiles[i].profile_uid.as_str(), uid) {
            return i;
        }
        assert(all.skip(i as int).drop_first() =~= all.skip(i + 1));
    }
    profiles.len()
}

/// The traffic with the entry of a profile added or put in the place of an earlier one.
pub open spec fn with_traffic(profiles: Seq<TrafficView>, entry: TrafficView) -> Seq<TrafficView> {
    let at = traffic_at(profiles, entry.profile_uid);
    if at < profiles.len() {
        profiles.update(at, entry)
    } else {
        profiles.push(entry)
    }
}

fn put_traffic(profiles: &mut Vec<ProfileTrafficSummary>, at: usize, entry: ProfileTrafficSummary)
    requires
        at == traffic_at(traffic_views(old(profiles)@), entry@.profile_uid),
        at <= old(profiles).len(),
    ensures
        traffic_views(final(profiles)@) == with_traffic(traffic_views(old(profiles)@), entry@),
{
    if at < profiles.len() {
        profiles.set(at, entry);
    } else {
        profiles.push(entry);
    }
    assert(traffic_views(profiles@) =~= with_traffic(traffic_views(old(profiles)@), entry@));
}

/// The entry of a profile that starts with what it used.
pub open spec fn used_traffic(row: ProfileTraffic, settings: SettingsView) -> TrafficView {
    TrafficView {
        profile_uid: row.0,
        profile_name: row.1,
        estimated_download_bytes: row.2,
        estimated_upload_bytes: row.3,
        actual_download_bytes: row.2,
        actual_upload_bytes: row.3,
        multiplier: multiplier_of(settings.profile_traffic_multipliers, row.0),
    }
}

/// The entries of the profiles that used something.
pub open spec fn used_traffics(rows: Seq<ProfileTraffic>, settings: SettingsView) -> Seq<TrafficView>
    decreases rows.len(),
{
    if rows.len() == 0 {
        Seq::empty()
    } else {
        with_traffic(used_traffics(rows.drop_last(), settings), used_traffic(rows.last(), settings))
    }
}

/// Whether tests of a node are expected: the user confirmed that it takes part or is observed.
pub open spec fn expected(node: NodeView) -> bool {
    node.manual_override && (node.state == ParticipationState::Participating || node.state
        == ParticipationState::Observe)
}

/// The bytes that the remaining tests of a node download today.
pub open spec fn expected_download(
    node: NodeView,
    records: Seq<RecordView>,
    settings: SettingsView,
    now: int,
    day_end: int,
) -> int {
    if node.state == ParticipationState::Participating {
        capped(
            usual_size(
                records,
                node.node_id,
                MeasurementKind::Download,
                true,
                settings.speed_max_bytes as int,
            ) * speed_runs(
                node.download_bootstrap_stage as int,
                first_run(node.next_download_at as int, now),
                settings.speed_interval_hours as int,
                day_end,
            ),
        )
    } else {
        0
    }
}

/// The bytes that the remaining tests of a node upload today.
pub open spec fn expected_upload(
    node: NodeView,
    records: Seq<RecordView>,
    settings: SettingsView,
    now: int,
    day_end: int,
) -> int {
    if node.state == ParticipationState::Participating {
        capped(
            usual_size(
                records,
                node.node_id,
                MeasurementKind::Upload,
                true,
                settings.speed_max_bytes as int,
            ) * speed_runs(
                node.upload_bootstrap_stage as int,
                first_run(node.next_upload_at as int, now),
                settings.speed_interval_hours as int,
                day_end,
            ),
        )
    } else {
        0
    }
}

/// The seconds between two latency tests, at least one.
pub open spec fn latency_seconds(settings: SettingsView) -> int {
    if settings.latency_interval_minutes == 0 {
        1
    } else {
        capped(settings.latency_interval_minutes * 60)
    }
}

/// The latency tests of a node that remain today.
pub open spec fn expected_latency_runs(node: NodeView, settings: SettingsView, now: int, day_end: int) -> int {
    interval_runs(node.next_latency_at as int, latency_seconds(settings), now, day_end)
}

/// The entry to which the expected traffic of a node is added.
pub open spec fn traffic_entry(profiles: Seq<TrafficView>, node: NodeView, settings: SettingsView) -> TrafficView {
    let at = traffic_at(profiles, node.profile_uid);
    if at < profiles.len() {
        profiles[at]
    } else {
        TrafficView {
            profile_uid: node.profile_uid,
            profile_name: node.profile_name,
            estimated_download_bytes: 0,
            estimated_upload_bytes: 0,
            actual_download_bytes: 0,
            actual_upload_bytes: 0,
            multiplier: multiplier_of(settings.profile_traffic_multipliers, node.profile_uid),
        }
    }
}

/// The traffic with the expected tests of a node added.
pub open spec fn with_expected(
    profiles: Seq<TrafficView>,
    node: NodeView,
    records: Seq<RecordView>,
    settings: SettingsView,
    now: int,
    day_end: int,
) -> Seq<TrafficView> {
    if expected(node) {
        let entry = traffic_entry(profiles, node, settings);
        let runs = expected_latency_runs(node, settings, now, day_end);
        with_traffic(
            profiles,
            TrafficView {
                estimated_download_bytes: capped(
                    capped(
                        entry.estimated_download_bytes + capped(LATENCY_ESTIMATED_DOWNLOAD_BYTES * runs),
                    ) + expected_download(node, records, settings, now, day_end),
                ),
                estimated_upload_bytes: capped(
                    capped(entry.estimated_upload_bytes + capped(LATENCY_ESTIMATED_UPLOAD_BYTES * runs))
                        + expected_upload(node, records, settings, now, day_end),
                ),
                ..entry
            },
        )
    } else {
        profiles
    }
}

/// The traffic with the expected tests of all nodes added.
pub open spec fn with_all_expected(
    profiles: Seq<TrafficView>,
    nodes: Seq<NodeView>,
    records: Seq<RecordView>,
    settings: SettingsView,
    now: int,
    day_end: int,
) -> Seq<TrafficView>
    decreases nodes.len(),
{
    if nodes.len() == 0 {
        profiles
    } else {
        with_expected(
            with_all_expected(profiles, nodes.drop_last(), records, settings, now, day_end),
            nodes.last(),
            records,
            settings,
            now,
            day_end,
        )
    }
}

/// The bytes expected of a profile: what it used, and what is still to come with its margin.
pub open spec fn secured(estimated: int, actual: int) -> int {
    capped(
        actual + with_margin(
            if estimated >= actual {
                estimated - actual
            } else {
                0
            },
        ),
    )
}

/// An entry with the margin on what is still to come.
pub open spec fn secured_traffic(entry: TrafficView) -> TrafficView {
    TrafficView {
        estimated_download_bytes: secured(entry.estimated_download_bytes, entry.actual_download_bytes),
        estimated_upload_bytes: secured(entry.estimated_upload_bytes, entry.actual_upload_bytes),
        ..entry
    }
}

/// The key that orders the traffic of profiles: by profile name.
pub open spec fn traffic_key() -> spec_fn(TrafficView) -> Seq<KeyView> {
    |entry: TrafficView| seq![KeyView::Text(entry.profile_name)]
}

/// The traffic of all profiles on a day, by profile name.
pub open spec fn day_traffic(
    nodes: Seq<NodeView>,
    records: Seq<RecordView>,
    used: Seq<ProfileTraffic>,
    settings: SettingsView,
    now: int,
    day_end: int,
) -> Seq<TrafficView> {
    let entries = with_all_expected(
        used_traffics(used, settings),
        nodes,
        records,
        settings,
        now,
        day_end,
    ).map_values(|entry: TrafficView| secured_traffic(entry));
    arranged(entries, entries.map_values(traffic_key()))
}

/// Which number of a profile is added up.
pub enum TrafficColumn {
    EstimatedDownload,
    EstimatedUpload,
    ActualDownload,
    ActualUpload,
}

/// A number of a profile.
pub open spec fn column(entry: TrafficView, which: TrafficColumn) -> int {
    match which {
        TrafficColumn::EstimatedDownload => entry.estimated_download_bytes,
        TrafficColumn::EstimatedUpload => entry.estimated_upload_bytes,
        TrafficColumn::ActualDownload => entry.actual_download_bytes,
        TrafficColumn::ActualUpload => entry.actual_upload_bytes,
    }
}

/// The sum of a number over all profiles.
pub open spec fn total(profiles: Seq<TrafficView>, which: TrafficColumn) -> int
    decreases profiles.len(),
{
    if profiles.len() == 0 {
        0
    } else {
        total(profiles.drop_last(), which) + column(profiles.last(), which)
    }
}

/// Whether every sum over the profiles fits into 64 bits.
pub open spec fn totals_fit(profiles: Seq<TrafficView>) -> bool {
    &&& total(profiles, TrafficColumn::EstimatedDownload) <= u64::MAX
    &&& total(profiles, TrafficColumn::EstimatedUpload) <= u64::MAX
    &&& total(profiles, TrafficColumn::ActualDownload) <= u64::MAX
    &&& total(profiles, TrafficColumn::ActualUpload) <= u64::MAX
}

/// The end of the day, given the seconds until then. A count beyond the signed 64-bit numbers
/// stands for a negative one, and the sum stays within them.
pub open spec fn day_end(now: int, seconds: u64) -> int {
    let signed: int = if seconds > i64::MAX {
        seconds - 0x1_0000_0000_0000_0000
    } else {
        seconds as int
    };
    if now + signed > i64::MAX {
        i64::MAX as int
    } else if now + signed < i64::MIN {
        i64::MIN as int
    } else {
        now + signed
    }
}

fn text_key(text: &str) -> (key: SortKey)
    ensures
        key@ == seq![KeyView::Text(text@)],
{
    let mut parts: Vec<KeyPart> = Vec::new();
    parts.push(KeyPart::text(text));
    let key = SortKey { parts };
    assert(key@ =~= seq![KeyView::Text(text@)]);
    key
}

fn start_traffic(used: &[(String, String, u64, u64)], settings: &BenchmarkSettings) -> (profiles: Vec<
    ProfileTrafficSummary,
>)
    ensures
        traffic_views(profiles@) == used_traffics(traffic_rows(used@), settings@),
{
    let ghost rows = traffic_rows(used@);
    let mut profiles: Vec<ProfileTrafficSummary> = Vec::new();
    assert(traffic_views(profiles@) =~= Seq::empty());
    assert(rows.take(0) =~= Seq::empty());
    for i in 0..used.len()
        invariant
            rows == traffic_rows(used@),
            traffic_views(profiles@) == used_traffics(rows.take(i as int), settings@),
    {
        let row = &used[i];
        let entry = ProfileTrafficSummary {
            profile_uid: row.0.clone(),
            profile_name: row.1.clone(),
            estimated_download_bytes: row.2,
            estimated_upload_bytes: row.3,
            actual_download_bytes: row.2,
            actual_upload_bytes: row.3,
            multiplier: find_multiplier(settings, row.0.as_str()),
        };
        assert(rows.take(i + 1).drop_last() =~= rows.take(i as int));
        assert(entry@ == used_traffic(rows[i as int], settings@));
        let at: usize = find_traffic(&profiles, row.0.as_str());
        put_traffic(&mut profiles, at, entry);
    }
    assert(rows.take(rows.len() as int) =~= rows);
    profiles
}

fn add_expected(
    profiles: &mut Vec<ProfileTrafficSummary>,
    node: &StoredNode,
    records: &[MeasurementRecord],
    settings: &BenchmarkSettings,
    now: i64,
    end: i64,
)
    requires
        settings.speed_interval_hours * 3_600 <= i64::MAX,
    ensures
        traffic_views(final(profiles)@) == with_expected(
            traffic_views(old(profiles)@),
            node@,
            measurement_records(records@),
            settings@,
            now as int,
            end as int,
        ),
{
    let takes_part: bool = node.state == ParticipationState::Participating || node.state
        == ParticipationState::Observe;
    if !node.manual_override || !takes_part {
        return;
    }
    let minutes: u64 = settings.latency_interval_minutes;
    let interval: u64 = if minutes == 0 {
        1
    } else {
        multiply_capped(minutes, 60)
    };
    let runs: u64 = planned_interval_runs(node.next_latency_at, interval, now, end);
    let at: usize = find_traffic(profiles, node.profile_uid.as_str());
    let mut entry = if at < profiles.len() {
        profiles[at].clone()
    } else {
        ProfileTrafficSummary {
            profile_uid: node.profile_uid.clone(),
            profile_name: node.profile_name.clone(),
            estimated_download_bytes: 0,
            estimated_upload_bytes: 0,
            actual_download_bytes: 0,
            actual_upload_bytes: 0,
            multiplier: find_multiplier(settings, node.profile_uid.as_str()),
        }
    };
    proof {
        lemma_traffic_at_bounds(traffic_views(profiles@), node@.profile_uid);
        if at < profiles.len() {
            assert(traffic_views(profiles@)[at as int] == profiles@[at as int]@);
        }
        assert(entry@ == traffic_entry(traffic_views(profiles@), node@, settings@));
    }
    entry.estimated_download_bytes = add_capped(
        entry.estimated_download_bytes,
        multiply_capped(LATENCY_ESTIMATED_DOWNLOAD_BYTES, runs),
    );
    entry.estimated_upload_bytes = add_capped(
        entry.estimated_upload_bytes,
        multiply_capped(LATENCY_ESTIMATED_UPLOAD_BYTES, runs),
    );
    if node.state == ParticipationState::Participating {
        let download_runs: u64 = planned_speed_runs(
            node.download_bootstrap_stage,
            node.next_download_at,
            settings,
            now,
            end,
        );
        let upload_runs: u64 = planned_speed_runs(
            node.upload_bootstrap_stage,
            node.next_upload_at,
            settings,
            now,
            end,
        );
        let download_size: u64 = measure_usual_size(
            records,
            node.node_id.as_str(),
            MeasurementKind::Download,
            true,
            settings.speed_max_bytes,
        );
        let upload_size: u64 = measure_usual_size(
            records,
            node.node_id.as_str(),
            MeasurementKind::Upload,
            true,
            settings.speed_max_bytes,
        );
        entry.estimated_download_bytes = add_capped(
            entry.estimated_download_bytes,
            multiply_capped(download_size, download_runs),
        );
        entry.estimated_upload_bytes = add_capped(
            entry.estimated_upload_bytes,
            multiply_capped(upload_size, upload_runs),
        );
    }
    put_traffic(profiles, at, entry);
}

fn secure(estimated: u64, actual: u64) -> (result: u64)
    ensures
        result == secured(estimated as int, actual as int),
{
    let future: u64 = if estimated >= actual {
        estimated - actual
    } else {
        0
    };
    add_capped(actual, add_safety_margin(future))
}

fn secure_all(profiles: Vec<ProfileTrafficSummary>) -> (result: Vec<ProfileTrafficSummary>)
    ensures
        traffic_views(result@) == traffic_views(profiles@).map_values(
            |entry: TrafficView| secured_traffic(entry),
        ),
{
    let ghost wanted = traffic_views(profiles@).map_values(|entry: TrafficView| secured_traffic(entry));
    let mut result: Vec<ProfileTrafficSummary> = Vec::new();
    for i in 0..profiles.len()
        invariant
            wanted == traffic_views(profiles@).map_values(|entry: TrafficView| secured_traffic(entry)),
            traffic_views(result@) == wanted.take(i as int),
    {
        let ghost before = result@;
        let mut entry = profiles[i].clone();
        entry.estimated_download_bytes = secure(
            entry.estimated_download_bytes,
            entry.actual_download_bytes,
        );
        entry.estimated_upload_bytes = secure(entry.estimated_upload_bytes, entry.actual_upload_bytes);
        assert(wanted[i as int] == entry@);
        result.push(entry);
        assert(traffic_views(result@) =~= traffic_views(before).push(entry@));
    }
    assert(wanted.take(wanted.len() as int) =~= wanted);
    result
}

fn arrange_traffic(profiles: Vec<ProfileTrafficSummary>) -> (result: Vec<ProfileTrafficSummary>)
    ensures
        traffic_views(result@) == arranged(
            traffic_views(profiles@),
            traffic_views(profiles@).map_values(traffic_key()),
        ),
{
    let ghost views = traffic_views(profiles@);
    let ghost keyed = views.map_values(traffic_key());
    let mut keys: Vec<SortKey> = Vec::new();
    for i in 0..profiles.len()
        invariant
            views == traffic_views(profiles@),
            keyed == views.map_values(traffic_key()),
            keys.len() == i,
            key_views(keys@) == keyed.take(i as int),
    {
        let ghost before = keys@;
        let key = text_key(profiles[i].profile_name.as_str());
        keys.push(key);
        assert(key_views(keys@) =~= key_views(before).push(key@));
        assert(keyed[i as int] == key@);
    }
    assert(keyed.take(keyed.len() as int) =~= keyed);
    let order = stable_order(&keys);
    let ghost wanted = arranged(views, keyed);
    let mut result: Vec<ProfileTrafficSummary> = Vec::new();
    for i in 0..order.len()
        invariant
            order.len() == profiles.len(),
            views == traffic_views(profiles@),
            wanted == indices(order@).map_values(|i: int| views[i]),
            forall|k: int| 0 <= k < order.len() ==> #[trigger] order@[k] < profiles.len(),
            traffic_views(result@) == wanted.take(i as int),
    {
        let ghost before = result@;
        let copy = profiles[order[i]].clone();
        result.push(copy);
        assert(indices(order@)[i as int] == order@[i as int]);
        assert(traffic_views(result@) =~= traffic_views(before).push(copy@));
        assert(wanted.take(i + 1) =~= wanted.take(i as int).push(wanted[i as int]));
    }
    assert(wanted.take(wanted.len() as int) =~= wanted);
    result
}

proof fn lemma_total_grows(profiles: Seq<TrafficView>, which: TrafficColumn, n: int)
    requires
        0 <= n <= profiles.len(),
        forall|i: int| 0 <= i < profiles.len() ==> column(#[trigger] profiles[i], which) >= 0,
    ensures
        0 <= total(profiles.take(n), which) <= total(profiles, which),
    decreases profiles.len(),
{
    if n == profiles.len() {
        assert(profiles.take(n) =~= profiles);
        if n > 0 {
            let front = profiles.drop_last();
            assert forall|i: int| 0 <= i < front.len() implies column(#[trigger] front[i], which) >= 0 by {
                assert(front[i] == profiles[i]);
            }
            lemma_total_grows(front, which, n - 1);
            assert(front.take(n - 1) =~= front);
            assert(column(profiles[n - 1], which) >= 0);
        }
    } else {
        let front = profiles.drop_last();
        assert forall|i: int| 0 <= i < front.len() implies column(#[trigger] front[i], which) >= 0 by {
            assert(front[i] == profiles[i]);
        }
        lemma_total_grows(front, which, n);
        assert(front.take(n) =~= profiles.take(n));
        assert(column(profiles[profiles.len() - 1], which) >= 0);
    }
}

fn sum_column(profiles: &Vec<ProfileTrafficSummary>, which: TrafficColumn) -> (sum: Option<u64>)
    ensures
        match sum {
            Some(value) => value == total(traffic_views(profiles@), which),
            None => total(traffic_views(profiles@), which) > u64::MAX,
        },
{
    let ghost views = traffic_views(profiles@);
    let mut sum: u64 = 0;
    assert(views.take(0) =~= Seq::empty());
    for i in 0..profiles.len()
        invariant
            views == traffic_views(profiles@),
            sum == total(views.take(i as int), which),
    {
        let entry = &profiles[i];
        let value: u64 = match &which {
            TrafficColumn::EstimatedDownload => entry.estimated_download_bytes,
            TrafficColumn::EstimatedUpload => entry.estimated_upload_bytes,
            TrafficColumn::ActualDownload => entry.actual_download_bytes,
            TrafficColumn::ActualUpload => entry.actual_upload_bytes,
        };
        assert(views[i as int] == entry@);
        assert(views.take(i + 1).drop_last() =~= views.take(i as int));
        assert(views.take(i + 1).last() == entry@);
        if value > u64::MAX - sum {
            proof {
                assert forall|k: int| 0 <= k < views.len() implies column(#[trigger] views[k], which) >= 0 by {
                    assert(views[k] == profiles@[k]@);
                }
                lemma_total_grows(views, which, i + 1);
            }
            return None;
        }
        sum = sum + value;
    }
    assert(views.take(views.len() as int) =~= views);
    Some(sum)
}

/// Whether a summary holds the traffic of the profiles, its sums and the limits of the settings.
pub open spec fn summarises(summary: TrafficSummary, profiles: Seq<TrafficView>, settings: SettingsView) -> bool {
    &&& traffic_views(summary.profiles@) == profiles
    &&& summary.estimated_download_bytes == total(profiles, TrafficColumn::EstimatedDownload)
    &&& summary.estimated_upload_bytes == total(profiles, TrafficColumn::EstimatedUpload)
    &&& summary.actual_download_bytes == total(profiles, TrafficColumn::ActualDownload)
    &&& summary.actual_upload_bytes == total(profiles, TrafficColumn::ActualUpload)
    &&& summary.download_limit_bytes == settings.download_daily_limit_bytes
    &&& summary.upload_limit_bytes == settings.upload_daily_limit_bytes
}

/// The traffic of the day: what each profile used and is expected to use, with the sums and the
/// limits. Sums that do not fit into 64 bits are refused.
pub fn build_traffic_summary(
    nodes: &[StoredNode],
    measurements: &[MeasurementRecord],
    actual_by_profile: &[(String, String, u64, u64)],
    settings: &BenchmarkSettings,
    now: i64,
    seconds_until_day_end: u64,
) -> (result: Result<TrafficSummary, BenchmarkError>)
    requires
        settings.speed_interval_hours * 3_600 <= i64::MAX,
    ensures
        ({
            let profiles = day_traffic(
                node_views(nodes@),
                measurement_records(measurements@),
                traffic_rows(actual_by_profile@),
                settings@,
                now as int,
                day_end(now as int, seconds_until_day_end),
            );
            match result {
                Ok(summary) => totals_fit(profiles) && summarises(summary, profiles, settings@),
                Err(error) => !totals_fit(profiles) && error == BenchmarkError::TrafficOverflow,
            }
        }),
{
    let signed: i128 = if seconds_until_day_end > i64::MAX as u64 {
        seconds_until_day_end as i128 - 0x1_0000_0000_0000_0000
    } else {
        seconds_until_day_end as i128
    };
    let sum: i128 = now as i128 + signed;
    let end: i64 = if sum > i64::MAX as i128 {
        i64::MAX
    } else if sum < i64::MIN as i128 {
        i64::MIN
    } else {
        sum as i64
    };
    let ghost views = node_views(nodes@);
    let ghost records = measurement_records(measurements@);
    let mut profiles = start_traffic(actual_by_profile, settings);
    let ghost started = traffic_views(profiles@);
    assert(views.take(0) =~= Seq::empty());
    for i in 0..nodes.len()
        invariant
            settings.speed_interval_hours * 3_600 <= i64::MAX,
            views == node_views(nodes@),
            records == measurement_records(measurements@),
            traffic_views(profiles@) == with_all_expected(
                started,
                views.take(i as int),
                records,
                settings@,
                now as int,
                end as int,
            ),
    {
        assert(views.take(i + 1).drop_last() =~= views.take(i as int));
        assert(views.take(i + 1).last() == nodes@[i as int]@);
        add_expected(&mut profiles, &nodes[i], measurements, settings, now, end);
    }
    assert(views.take(views.len() as int) =~= views);
    let rows = arrange_traffic(secure_all(profiles));
    let estimated_download = sum_column(&rows, TrafficColumn::EstimatedDownload);
    let estimated_upload = sum_column(&rows, TrafficColumn::EstimatedUpload);
    let actual_download = sum_column(&rows, TrafficColumn::ActualDownload);
    let actual_upload = sum_column(&rows, TrafficColumn::ActualUpload);
    if estimated_download.is_none() || estimated_upload.is_none() || actual_download.is_none()
        || actual_upload.is_none() {
        return Err(BenchmarkError::TrafficOverflow);
    }
    Ok(
        TrafficSummary {
            estimated_download_bytes: estimated_download.unwrap(),
            estimated_upload_bytes: estimated_upload.unwrap(),
            actual_download_bytes: actual_download.unwrap(),
            actual_upload_bytes: actual_upload.unwrap(),
            download_limit_bytes: settings.download_daily_limit_bytes,
            upload_limit_bytes: settings.upload_daily_limit_bytes,
            profiles: rows,
        },
    )
}

/// No profile is expected to use less than it used.
pub proof fn law_estimates_cover_what_was_used(
    nodes: Seq<NodeView>,
    records: Seq<RecordView>,
    used: Seq<ProfileTraffic>,
    settings: SettingsView,
    now: int,
    day_end: int,
    i: int,
)
    requires
        0 <= i < day_traffic(nodes, records, used, settings, now, day_end).len(),
        forall|k: int|
            0 <= k < used.len() ==> 0 <= (#[trigger] used[k]).2 <= u64::MAX && 0 <= used[k].3 <= u64::MAX,
    ensures
        ({
            let entry = day_traffic(nodes, records, used, settings, now, day_end)[i];
            &&& entry.estimated_download_bytes >= entry.actual_download_bytes
            &&& entry.estimated_upload_bytes >= entry.actual_upload_bytes
        }),
{
    let started = used_traffics(used, settings);
    let all = with_all_expected(started, nodes, records, settings, now, day_end);
    let entries = all.map_values(|entry: TrafficView| secured_traffic(entry));
    let keys = entries.map_values(traffic_key());
    law_sorted_order_is_stable(keys);
    let from = sorted_order(keys)[i];
    assert(arranged(entries, keys)[i] == entries[from]);
    lemma_used_fit(used, settings);
    lemma_expected_keep_used(started, nodes, records, settings, now, day_end);
    assert(used_fits(all[from]));
}

spec fn used_fits(entry: TrafficView) -> bool {
    0 <= entry.actual_download_bytes <= u64::MAX && 0 <= entry.actual_upload_bytes <= u64::MAX
}

proof fn lemma_used_fit(used: Seq<ProfileTraffic>, settings: SettingsView)
    requires
        forall|k: int|
            0 <= k < used.len() ==> 0 <= (#[trigger] used[k]).2 <= u64::MAX && 0 <= used[k].3 <= u64::MAX,
    ensures
        forall|k: int|
            0 <= k < used_traffics(used, settings).len() ==> used_fits(
                #[trigger] used_traffics(used, settings)[k],
            ),
    decreases used.len(),
{
    if used.len() > 0 {
        let front = used.drop_last();
        assert forall|k: int| 0 <= k < front.len() implies 0 <= (#[trigger] front[k]).2 <= u64::MAX && 0
            <= front[k].3 <= u64::MAX by {
            assert(front[k] == used[k]);
        }
        lemma_used_fit(front, settings);
        assert(0 <= used[used.len() - 1].2);
        lemma_traffic_at_bounds(used_traffics(front, settings), used.last().0);
    }
}

proof fn lemma_expected_keep_used(
    profiles: Seq<TrafficView>,
    nodes: Seq<NodeView>,
    records: Seq<RecordView>,
    settings: SettingsView,
    now: int,
    day_end: int,
)
    requires
        forall|k: int| 0 <= k < profiles.len() ==> used_fits(#[trigger] profiles[k]),
    ensures
        forall|k: int|
            0 <= k < with_all_expected(profiles, nodes, records, settings, now, day_end).len() ==> used_fits(
                #[trigger] with_all_expected(profiles, nodes, records, settings, now, day_end)[k],
            ),
    decreases nodes.len(),
{
    if nodes.len() > 0 {
        let before = with_all_expected(profiles, nodes.drop_last(), records, settings, now, day_end);
        lemma_expected_keep_used(profiles, nodes.drop_last(), records, settings, now, day_end);
        lemma_traffic_at_bounds(before, nodes.last().profile_uid);
    }
}

/// The nodes of which tests are expected, in their order.
pub open spec fn expected_nodes(nodes: Seq<NodeView>) -> Seq<NodeView>
    decreases nodes.len(),
{
    if nodes.len() == 0 {
        nodes
    } else {
        let front = expected_nodes(nodes.drop_last());
        if expected(nodes.last()) {
            front.push(nodes.last())
        } else {
            front
        }
    }
}

proof fn lemma_other_nodes_add_nothing(
    profiles: Seq<TrafficView>,
    nodes: Seq<NodeView>,
    records: Seq<RecordView>,
    settings: SettingsView,
    now: int,
    day_end: int,
)
    ensures
        with_all_expected(profiles, nodes, records, settings, now, day_end) == with_all_expected(
            profiles,
            expected_nodes(nodes),
            records,
            settings,
            now,
            day_end,
        ),
    decreases nodes.len(),
{
    if nodes.len() > 0 {
        let front = expected_nodes(nodes.drop_last());
        lemma_other_nodes_add_nothing(profiles, nodes.drop_last(), records, settings, now, day_end);
        if expected(nodes.last()) {
            assert(front.push(nodes.last()).drop_last() =~= front);
        }
    }
}

/// Nodes that the user has not confirmed, and confirmed ones that neither take part nor are
/// observed, cost nothing: the traffic of the day, and with it every summary of it, is the same
/// without them.
pub proof fn law_unconfirmed_nodes_cost_nothing(
    nodes: Seq<NodeView>,
    records: Seq<RecordView>,
    used: Seq<ProfileTraffic>,
    settings: SettingsView,
    now: int,
    day_end: int,
    summary: TrafficSummary,
)
    ensures
        day_traffic(nodes, records, used, settings, now, day_end) == day_traffic(
            expected_nodes(nodes),
            records,
            used,
            settings,
            now,
            day_end,
        ),
        summarises(summary, day_traffic(nodes, records, used, settings, now, day_end), settings)
            == summarises(
            summary,
            day_traffic(expected_nodes(nodes), records, used, settings, now, day_end),
            settings,
        ),
{
    lemma_other_nodes_add_nothing(
        used_traffics(used, settings),
        nodes,
        records,
        settings,
        now,
        day_end,
    );
}

/// Whether some nodes are the same as others, but for participants that are only observed.
pub open spec fn only_observed(fewer: Seq<NodeView>, nodes: Seq<NodeView>) -> bool {
    &&& fewer.len() == nodes.len()
    &&& forall|i: int|
        0 <= i < nodes.len() ==> {
            ||| (#[trigger] fewer[i]) == nodes[i]
            ||| nodes[i].state == ParticipationState::Participating && fewer[i] == (NodeView {
                state: ParticipationState::Observe,
                ..nodes[i]
            })
        }
}

/// Whether one entry expects no more than another of the same profile with the same use.
pub open spec fn expects_no_more(less: TrafficView, more: TrafficView) -> bool {
    &&& less.estimated_download_bytes <= more.estimated_download_bytes
    &&& less.estimated_upload_bytes <= more.estimated_upload_bytes
    &&& less == (TrafficView {
        estimated_download_bytes: less.estimated_download_bytes,
        estimated_upload_bytes: less.estimated_upload_bytes,
        ..more
    })
}

/// Whether the entries of one list expect no more than those of another, one by one.
pub open spec fn all_expect_no_more(less: Seq<TrafficView>, more: Seq<TrafficView>) -> bool {
    &&& less.len() == more.len()
    &&& forall|i: int| 0 <= i < more.len() ==> expects_no_more(#[trigger] less[i], more[i])
}

proof fn lemma_speed_runs_not_negative(stage: int, at: int, interval_hours: int, day_end: int)
    ensures
        speed_runs(stage, at, interval_hours, day_end) >= 0,
    decreases
            if at >= day_end {
                0
            } else {
                day_end - at
            },
{
    if at < day_end {
        lemma_speed_runs_not_negative(
            next_stage(stage),
            at + stage_delay(stage, interval_hours),
            interval_hours,
            day_end,
        );
    }
}

proof fn lemma_tests_cost_something(
    node: NodeView,
    records: Seq<RecordView>,
    settings: SettingsView,
    now: int,
    day_end: int,
)
    ensures
        expected_download(node, records, settings, now, day_end) >= 0,
        expected_upload(node, records, settings, now, day_end) >= 0,
{
    let hours = settings.speed_interval_hours as int;
    let size = settings.speed_max_bytes as int;
    let down = usual_size(records, node.node_id, MeasurementKind::Download, true, size);
    let up = usual_size(records, node.node_id, MeasurementKind::Upload, true, size);
    let down_at = first_run(node.next_download_at as int, now);
    let up_at = first_run(node.next_upload_at as int, now);
    let down_runs = speed_runs(node.download_bootstrap_stage as int, down_at, hours, day_end);
    let up_runs = speed_runs(node.upload_bootstrap_stage as int, up_at, hours, day_end);
    lemma_speed_runs_not_negative(node.download_bootstrap_stage as int, down_at, hours, day_end);
    lemma_speed_runs_not_negative(node.upload_bootstrap_stage as int, up_at, hours, day_end);
    assert(down * down_runs >= 0) by (nonlinear_arith)
        requires
            down >= 0,
            down_runs >= 0,
    ;
    assert(up * up_runs >= 0) by (nonlinear_arith)
        requires
            up >= 0,
            up_runs >= 0,
    ;
}

proof fn lemma_same_places(less: Seq<TrafficView>, more: Seq<TrafficView>, uid: Seq<char>)
    requires
        all_expect_no_more(less, more),
    ensures
        traffic_at(less, uid) == traffic_at(more, uid),
    decreases more.len(),
{
    if more.len() > 0 {
        assert(expects_no_more(less[0], more[0]));
        assert forall|i: int| 0 <= i < more.len() - 1 implies expects_no_more(
            #[trigger] less.drop_first()[i],
            more.drop_first()[i],
        ) by {
            assert(expects_no_more(less[i + 1], more[i + 1]));
        }
        lemma_same_places(less.drop_first(), more.drop_first(), uid);
    }
}

proof fn lemma_one_observed(
    less: Seq<TrafficView>,
    more: Seq<TrafficView>,
    fewer: NodeView,
    node: NodeView,
    records: Seq<RecordView>,
    settings: SettingsView,
    now: int,
    day_end: int,
)
    requires
        all_expect_no_more(less, more),
        fewer == node || (node.state == ParticipationState::Participating && fewer == (NodeView {
            state: ParticipationState::Observe,
            ..node
        })),
    ensures
        all_expect_no_more(
            with_expected(less, fewer, records, settings, now, day_end),
            with_expected(more, node, records, settings, now, day_end),
        ),
{
    lemma_same_places(less, more, node.profile_uid);
    lemma_traffic_at_bounds(more, node.profile_uid);
    lemma_tests_cost_something(node, records, settings, now, day_end);
    let at = traffic_at(more, node.profile_uid);
    if at < more.len() {
        assert(expects_no_more(less[at], more[at]));
    }
    let after_less = with_expected(less, fewer, records, settings, now, day_end);
    let after_more = with_expected(more, node, records, settings, now, day_end);
    assert forall|i: int| 0 <= i < after_more.len() implies expects_no_more(
        #[trigger] after_less[i],
        after_more[i],
    ) by {
        if i < more.len() {
            assert(expects_no_more(less[i], more[i]));
        }
    }
}

proof fn lemma_all_observed(
    profiles: Seq<TrafficView>,
    fewer: Seq<NodeView>,
    nodes: Seq<NodeView>,
    records: Seq<RecordView>,
    settings: SettingsView,
    now: int,
    day_end: int,
)
    requires
        only_observed(fewer, nodes),
    ensures
        all_expect_no_more(
            with_all_expected(profiles, fewer, records, settings, now, day_end),
            with_all_expected(profiles, nodes, records, settings, now, day_end),
        ),
    decreases nodes.len(),
{
    if nodes.len() > 0 {
        let last = nodes.len() - 1;
        assert(fewer[last] == nodes[last] || nodes[last].state == ParticipationState::Participating);
        assert forall|i: int| 0 <= i < last implies {
            ||| (#[trigger] fewer.drop_last()[i]) == nodes.drop_last()[i]
            ||| nodes.drop_last()[i].state == ParticipationState::Participating && fewer.drop_last()[i] == (
            NodeView { state: ParticipationState::Observe, ..nodes.drop_last()[i] })
        } by {
            assert(fewer.drop_last()[i] == fewer[i]);
        }
        lemma_all_observed(
            profiles,
            fewer.drop_last(),
            nodes.drop_last(),
            records,
            settings,
            now,
            day_end,
        );
        lemma_one_observed(
            with_all_expected(profiles, fewer.drop_last(), records, settings, now, day_end),
            with_all_expected(profiles, nodes.drop_last(), records, settings, now, day_end),
            fewer.last(),
            nodes.last(),
            records,
            settings,
            now,
            day_end,
        );
    }
}

/// A node that is only observed never costs more than one that takes part: profile by profile, no
/// more traffic is expected.
pub proof fn law_observed_nodes_cost_no_more(
    fewer: Seq<NodeView>,
    nodes: Seq<NodeView>,
    records: Seq<RecordView>,
    used: Seq<ProfileTraffic>,
    settings: SettingsView,
    now: int,
    day_end: int,
)
    requires
        only_observed(fewer, nodes),
    ensures
        all_expect_no_more(
            day_traffic(fewer, records, used, settings, now, day_end),
            day_traffic(nodes, records, used, settings, now, day_end),
        ),
{
    let started = used_traffics(used, settings);
    let less = with_all_expected(started, fewer, records, settings, now, day_end);
    let more = with_all_expected(started, nodes, records, settings, now, day_end);
    lemma_all_observed(started, fewer, nodes, records, settings, now, day_end);
    let secured_less = less.map_values(|entry: TrafficView| secured_traffic(entry));
    let secured_more = more.map_values(|entry: TrafficView| secured_traffic(entry));
    let keys = secured_more.map_values(traffic_key());
    assert forall|i: int| 0 <= i < more.len() implies expects_no_more(
        #[trigger] secured_less[i],
        secured_more[i],
    ) by {
        assert(expects_no_more(less[i], more[i]));
    }
    assert(secured_less.map_values(traffic_key()) =~= keys) by {
        assert forall|i: int| 0 <= i < more.len() implies secured_less.map_values(traffic_key())[i]
            == keys[i] by {
            assert(expects_no_more(secured_less[i], secured_more[i]));
        }
    }
    law_sorted_order_is_stable(keys);
    assert forall|i: int| 0 <= i < keys.len() implies expects_no_more(
        #[trigger] arranged(secured_less, keys)[i],
        arranged(secured_more, keys)[i],
    ) by {
        let from = sorted_order(keys)[i];
        assert(expects_no_more(secured_less[from], secured_more[from]));
    }
}

} // verus!
