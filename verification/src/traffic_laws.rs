//! What holds of every estimate of the traffic of a day.

use crate::floats::FloatBits;
use crate::models::{MeasurementKind, NodeView, ParticipationState, RecordView};
use crate::order::{arranged, ascending, law_ascending_sorts, law_sorted_order_is_stable, sorted_order};
use crate::queries::ProfileTraffic;
use crate::settings::SettingsView;
use crate::traffic::{
    TrafficColumn, TrafficView, day_traffic, expected_download, expected_upload, first_run, interval_runs,
    latency_seconds, law_median_is_in_the_middle, median, multiplier_of, secured_traffic, speed_runs,
    test_sizes, total, traffic_at, traffic_key, used_traffics, usual_size, with_all_expected,
    with_expected,
};
use vstd::prelude::*;

verus! {

/// Whether a result says nothing of the size of the tests of a node in one direction: it is of
/// another node, of another kind, or of a test that failed.
pub open spec fn beside_the_point(record: RecordView, node_id: Seq<char>, kind: MeasurementKind) -> bool {
    record.node_id != node_id || record.kind != kind || !record.success
}

proof fn lemma_sizes_ignore(
    records: Seq<RecordView>,
    at: int,
    record: RecordView,
    node_id: Seq<char>,
    kind: MeasurementKind,
    positive: bool,
)
    requires
        0 <= at <= records.len(),
        beside_the_point(record, node_id, kind),
    ensures
        test_sizes(records.insert(at, record), node_id, kind, positive) == test_sizes(
            records,
            node_id,
            kind,
            positive,
        ),
    decreases records.len(),
{
    let more = records.insert(at, record);
    if at == records.len() {
        assert(more.drop_last() =~= records);
    } else {
        assert(more.drop_last() =~= records.drop_last().insert(at, record));
        assert(more.last() == records.last());
        lemma_sizes_ignore(records.drop_last(), at, record, node_id, kind, positive);
    }
}

/// The usual size of the tests of a node in one direction rests on the node's own successful
/// results of that kind alone: a result of another kind, of another node or of a failed test leaves
/// it as it is, wherever it stands among the results.
pub proof fn law_usual_size_rests_on_own_results(
    records: Seq<RecordView>,
    at: int,
    record: RecordView,
    node_id: Seq<char>,
    kind: MeasurementKind,
    positive: bool,
    default: int,
)
    requires
        0 <= at <= records.len(),
        record.node_id != node_id || record.kind != kind || !record.success,
    ensures
        usual_size(records.insert(at, record), node_id, kind, positive, default) == usual_size(
            records,
            node_id,
            kind,
            positive,
            default,
        ),
{
    lemma_sizes_ignore(records, at, record, node_id, kind, positive);
}

/// The bytes that a result moved in the direction of a kind of test.
pub open spec fn moved(record: RecordView, kind: MeasurementKind) -> u64 {
    match kind {
        MeasurementKind::Download => record.bytes_down,
        _ => record.bytes_up,
    }
}

proof fn lemma_sizes_within(
    records: Seq<RecordView>,
    node_id: Seq<char>,
    kind: MeasurementKind,
    positive: bool,
    low: u64,
    high: u64,
)
    requires
        kind != MeasurementKind::Latency,
        forall|i: int|
            0 <= i < records.len() && (#[trigger] records[i]).node_id == node_id && records[i].kind == kind
                && records[i].success && (moved(records[i], kind) > 0 || !positive) ==> low <= moved(
                records[i],
                kind,
            ) <= high,
    ensures
        forall|k: int|
            0 <= k < test_sizes(records, node_id, kind, positive).len() ==> low <= #[trigger] test_sizes(
                records,
                node_id,
                kind,
                positive,
            )[k] <= high,
        test_sizes(records, node_id, kind, positive).len() == records.filter(
            |record: RecordView|
                record.node_id == node_id && record.kind == kind && record.success && (moved(record, kind) > 0
                    || !positive),
        ).len(),
    decreases records.len(),
{
    reveal(Seq::filter);
    if records.len() > 0 {
        let front = records.drop_last();
        assert forall|i: int|
            0 <= i < front.len() && (#[trigger] front[i]).node_id == node_id && front[i].kind == kind
                && front[i].success && (moved(front[i], kind) > 0 || !positive) implies low <= moved(
            front[i],
            kind,
        ) <= high by {
            assert(records[i] == front[i]);
        }
        lemma_sizes_within(front, node_id, kind, positive, low, high);
        let last = records[records.len() - 1];
        assert(last.node_id == node_id && last.kind == kind && last.success && (moved(last, kind) > 0
            || !positive) ==> low <= moved(last, kind) <= high);
    }
}

proof fn lemma_median_within(values: Seq<u64>, low: u64, high: u64)
    requires
        values.len() > 0,
        forall|k: int| 0 <= k < values.len() ==> low <= #[trigger] values[k] <= high,
    ensures
        median(values) is Some,
        low <= median(values)->0 <= high,
{
    broadcast use vstd::seq_lib::group_to_multiset_ensures;

    law_ascending_sorts(values);
    law_median_is_in_the_middle(values);
    let sorted = ascending(values);
    let n = values.len() as int;
    assert(sorted.contains(sorted[0]) && sorted.contains(sorted[n - 1]));
    assert(sorted.to_multiset().count(sorted[0]) > 0);
    assert(values.contains(sorted[0]));
    assert(sorted.to_multiset().count(sorted[n - 1]) > 0);
    assert(values.contains(sorted[n - 1]));
}

/// The usual size of the tests of a node in one direction lies between the smallest and the largest
/// number of bytes that its own successful tests of that kind moved. Where all of them moved the
/// same number, it is that number; without such a test it is the default.
pub proof fn law_usual_size_lies_among_own_sizes(
    records: Seq<RecordView>,
    node_id: Seq<char>,
    kind: MeasurementKind,
    positive: bool,
    default: int,
    low: u64,
    high: u64,
)
    requires
        kind != MeasurementKind::Latency,
        forall|i: int|
            0 <= i < records.len() && (#[trigger] records[i]).node_id == node_id && records[i].kind == kind
                && records[i].success && (moved(records[i], kind) > 0 || !positive) ==> low <= moved(
                records[i],
                kind,
            ) <= high,
    ensures
        (exists|i: int|
            0 <= i < records.len() && (#[trigger] records[i]).node_id == node_id && records[i].kind == kind
                && records[i].success && (moved(records[i], kind) > 0 || !positive)) ==> low <= usual_size(
            records,
            node_id,
            kind,
            positive,
            default,
        ) <= high,
        !(exists|i: int|
            0 <= i < records.len() && (#[trigger] records[i]).node_id == node_id && records[i].kind == kind
                && records[i].success && (moved(records[i], kind) > 0 || !positive)) ==> usual_size(
            records,
            node_id,
            kind,
            positive,
            default,
        ) == default,
{
    let sizes = test_sizes(records, node_id, kind, positive);
    let own = |record: RecordView|
        record.node_id == node_id && record.kind == kind && record.success && (moved(record, kind) > 0
            || !positive);
    lemma_sizes_within(records, node_id, kind, positive, low, high);
    if exists|i: int|
        0 <= i < records.len() && (#[trigger] records[i]).node_id == node_id && records[i].kind == kind
            && records[i].success && (moved(records[i], kind) > 0 || !positive) {
        let i = choose|i: int|
            0 <= i < records.len() && (#[trigger] records[i]).node_id == node_id && records[i].kind == kind
                && records[i].success && (moved(records[i], kind) > 0 || !positive);
        assert(own(records[i]));
        records.lemma_filter_contains(own, i);
        assert(records.filter(own).len() > 0);
        lemma_median_within(sizes, low, high);
    } else {
        if sizes.len() > 0 {
            records.lemma_filter_pred(own, 0);
            let record = records.filter(own)[0];
            records.lemma_filter_contains_rev(own, record);
            let i = choose|i: int| 0 <= i < records.len() && records[i] == record;
            assert(own(records[i]));
        }
    }
}

/// Where all successful tests of a node in one direction moved the same positive number of bytes,
/// that number is the usual size.
pub proof fn law_equal_sizes_are_the_usual_size(
    records: Seq<RecordView>,
    node_id: Seq<char>,
    kind: MeasurementKind,
    positive: bool,
    default: int,
    bytes: u64,
    some: int,
)
    requires
        kind == MeasurementKind::Download || kind == MeasurementKind::Upload,
        bytes > 0,
        0 <= some < records.len(),
        records[some].node_id == node_id && records[some].kind == kind && records[some].success,
        forall|i: int|
            0 <= i < records.len() && (#[trigger] records[i]).node_id == node_id && records[i].kind == kind
                && records[i].success ==> if kind == MeasurementKind::Download {
                records[i].bytes_down == bytes
            } else {
                records[i].bytes_up == bytes
            },
    ensures
        usual_size(records, node_id, kind, positive, default) == bytes,
{
    assert(moved(records[some], kind) == bytes);
    law_usual_size_lies_among_own_sizes(records, node_id, kind, positive, default, bytes, bytes);
}

/// Whether a result has no part in the estimate of the day: its test failed, was a latency test, or
/// was of none of the nodes.
pub open spec fn beside_every_node(record: RecordView, nodes: Seq<NodeView>) -> bool {
    !record.success || record.kind == MeasurementKind::Latency || forall|i: int|
        0 <= i < nodes.len() ==> (#[trigger] nodes[i]).node_id != record.node_id
}

proof fn lemma_expected_ignores(
    profiles: Seq<TrafficView>,
    nodes: Seq<NodeView>,
    records: Seq<RecordView>,
    at: int,
    record: RecordView,
    settings: SettingsView,
    now: int,
    day_end: int,
)
    requires
        0 <= at <= records.len(),
        beside_every_node(record, nodes),
    ensures
        with_all_expected(profiles, nodes, records.insert(at, record), settings, now, day_end)
            == with_all_expected(profiles, nodes, records, settings, now, day_end),
    decreases nodes.len(),
{
    if nodes.len() > 0 {
        let front = nodes.drop_last();
        let node = nodes.last();
        assert(beside_every_node(record, front)) by {
            if record.success && record.kind != MeasurementKind::Latency {
                assert forall|i: int| 0 <= i < front.len() implies (#[trigger] front[i]).node_id
                    != record.node_id by {
                    assert(nodes[i].node_id != record.node_id);
                }
            }
        }
        lemma_expected_ignores(profiles, front, records, at, record, settings, now, day_end);
        assert(beside_the_point(record, node.node_id, MeasurementKind::Download)) by {
            if record.success && record.kind != MeasurementKind::Latency {
                assert(nodes[nodes.len() - 1].node_id != record.node_id);
            }
        }
        assert(beside_the_point(record, node.node_id, MeasurementKind::Upload)) by {
            if record.success && record.kind != MeasurementKind::Latency {
                assert(nodes[nodes.len() - 1].node_id != record.node_id);
            }
        }
        lemma_sizes_ignore(records, at, record, node.node_id, MeasurementKind::Download, true);
        lemma_sizes_ignore(records, at, record, node.node_id, MeasurementKind::Upload, true);
    }
}

/// A failed test, a latency test and a test of a node that is not counted leave the estimate of the
/// day as it is, wherever the result stands among the results.
pub proof fn law_estimates_rest_on_successful_speed_tests(
    nodes: Seq<NodeView>,
    records: Seq<RecordView>,
    at: int,
    record: RecordView,
    used: Seq<ProfileTraffic>,
    settings: SettingsView,
    now: int,
    day_end: int,
)
    requires
        0 <= at <= records.len(),
        !record.success || record.kind == MeasurementKind::Latency || forall|i: int|
            0 <= i < nodes.len() ==> (#[trigger] nodes[i]).node_id != record.node_id,
    ensures
        day_traffic(nodes, records.insert(at, record), used, settings, now, day_end) == day_traffic(
            nodes,
            records,
            used,
            settings,
            now,
            day_end,
        ),
{
    lemma_expected_ignores(
        used_traffics(used, settings),
        nodes,
        records,
        at,
        record,
        settings,
        now,
        day_end,
    );
}

/// Whether two entries are the same but for what is expected in the direction of a kind of test.
pub open spec fn same_beside(left: TrafficView, right: TrafficView, kind: MeasurementKind) -> bool {
    match kind {
        MeasurementKind::Download => left == (TrafficView {
            estimated_download_bytes: left.estimated_download_bytes,
            ..right
        }),
        _ => left == (TrafficView { estimated_upload_bytes: left.estimated_upload_bytes, ..right }),
    }
}

/// Whether two lists of entries are the same but for what is expected in one direction.
pub open spec fn all_same_beside(
    left: Seq<TrafficView>,
    right: Seq<TrafficView>,
    kind: MeasurementKind,
) -> bool {
    left.len() == right.len() && forall|i: int|
        0 <= i < right.len() ==> same_beside(#[trigger] left[i], right[i], kind)
}

proof fn lemma_same_place(left: Seq<TrafficView>, right: Seq<TrafficView>, kind: MeasurementKind, uid: Seq<char>)
    requires
        all_same_beside(left, right, kind),
    ensures
        traffic_at(left, uid) == traffic_at(right, uid),
        0 <= traffic_at(right, uid) <= right.len(),
        traffic_at(right, uid) < right.len() ==> right[traffic_at(right, uid)].profile_uid == uid,
    decreases right.len(),
{
    if right.len() > 0 {
        assert(same_beside(left[0], right[0], kind));
        assert forall|i: int| 0 <= i < right.len() - 1 implies same_beside(
            #[trigger] left.drop_first()[i],
            right.drop_first()[i],
            kind,
        ) by {
            assert(same_beside(left[i + 1], right[i + 1], kind));
        }
        lemma_same_place(left.drop_first(), right.drop_first(), kind, uid);
    }
}

proof fn lemma_one_direction(
    left: Seq<TrafficView>,
    right: Seq<TrafficView>,
    node: NodeView,
    records: Seq<RecordView>,
    at: int,
    record: RecordView,
    settings: SettingsView,
    now: int,
    day_end: int,
)
    requires
        0 <= at <= records.len(),
        record.kind != MeasurementKind::Latency,
        all_same_beside(left, right, record.kind),
    ensures
        all_same_beside(
            with_expected(left, node, records.insert(at, record), settings, now, day_end),
            with_expected(right, node, records, settings, now, day_end),
            record.kind,
        ),
{
    let more = records.insert(at, record);
    lemma_same_place(left, right, record.kind, node.profile_uid);
    let place = traffic_at(right, node.profile_uid);
    if place < right.len() {
        assert(same_beside(left[place], right[place], record.kind));
    }
    if record.kind == MeasurementKind::Download {
        lemma_sizes_ignore(records, at, record, node.node_id, MeasurementKind::Upload, true);
        assert(expected_upload(node, more, settings, now, day_end) == expected_upload(
            node,
            records,
            settings,
            now,
            day_end,
        ));
    } else {
        lemma_sizes_ignore(records, at, record, node.node_id, MeasurementKind::Download, true);
        assert(expected_download(node, more, settings, now, day_end) == expected_download(
            node,
            records,
            settings,
            now,
            day_end,
        ));
    }
    let after_left = with_expected(left, node, more, settings, now, day_end);
    let after_right = with_expected(right, node, records, settings, now, day_end);
    assert forall|i: int| 0 <= i < after_right.len() implies same_beside(
        #[trigger] after_left[i],
        after_right[i],
        record.kind,
    ) by {
        if i < right.len() {
            assert(same_beside(left[i], right[i], record.kind));
        }
    }
}

proof fn lemma_all_in_one_direction(
    profiles: Seq<TrafficView>,
    nodes: Seq<NodeView>,
    records: Seq<RecordView>,
    at: int,
    record: RecordView,
    settings: SettingsView,
    now: int,
    day_end: int,
)
    requires
        0 <= at <= records.len(),
        record.kind != MeasurementKind::Latency,
    ensures
        all_same_beside(
            with_all_expected(profiles, nodes, records.insert(at, record), settings, now, day_end),
            with_all_expected(profiles, nodes, records, settings, now, day_end),
            record.kind,
        ),
    decreases nodes.len(),
{
    if nodes.len() > 0 {
        lemma_all_in_one_direction(
            profiles,
            nodes.drop_last(),
            records,
            at,
            record,
            settings,
            now,
            day_end,
        );
        lemma_one_direction(
            with_all_expected(
                profiles,
                nodes.drop_last(),
                records.insert(at, record),
                settings,
                now,
                day_end,
            ),
            with_all_expected(profiles, nodes.drop_last(), records, settings, now, day_end),
            nodes.last(),
            records,
            at,
            record,
            settings,
            now,
            day_end,
        );
    }
}

/// The result of a download test leaves every upload estimate of the day as it is, and the result of
/// an upload test leaves every download estimate.
pub proof fn law_directions_are_estimated_apart(
    nodes: Seq<NodeView>,
    records: Seq<RecordView>,
    at: int,
    record: RecordView,
    used: Seq<ProfileTraffic>,
    settings: SettingsView,
    now: int,
    day_end: int,
    i: int,
)
    requires
        0 <= at <= records.len(),
        0 <= i < day_traffic(nodes, records, used, settings, now, day_end).len(),
    ensures
        ({
            let before = day_traffic(nodes, records, used, settings, now, day_end);
            let after = day_traffic(nodes, records.insert(at, record), used, settings, now, day_end);
            &&& after.len() == before.len()
            &&& after[i].profile_uid == before[i].profile_uid
            &&& after[i].actual_download_bytes == before[i].actual_download_bytes
            &&& after[i].actual_upload_bytes == before[i].actual_upload_bytes
            &&& record.kind == MeasurementKind::Download ==> after[i].estimated_upload_bytes
                == before[i].estimated_upload_bytes
            &&& record.kind == MeasurementKind::Upload ==> after[i].estimated_download_bytes
                == before[i].estimated_download_bytes
        }),
{
    if record.kind == MeasurementKind::Latency {
        law_estimates_rest_on_successful_speed_tests(
            nodes,
            records,
            at,
            record,
            used,
            settings,
            now,
            day_end,
        );
    } else {
        let started = used_traffics(used, settings);
        let left = with_all_expected(started, nodes, records.insert(at, record), settings, now, day_end);
        let right = with_all_expected(started, nodes, records, settings, now, day_end);
        lemma_all_in_one_direction(started, nodes, records, at, record, settings, now, day_end);
        let safe_left = left.map_values(|entry: TrafficView| secured_traffic(entry));
        let safe_right = right.map_values(|entry: TrafficView| secured_traffic(entry));
        let keys = safe_right.map_values(traffic_key());
        assert forall|k: int| 0 <= k < right.len() implies same_beside(
            #[trigger] safe_left[k],
            safe_right[k],
            record.kind,
        ) by {
            assert(same_beside(left[k], right[k], record.kind));
        }
        assert(safe_left.map_values(traffic_key()) =~= keys) by {
            assert forall|k: int| 0 <= k < right.len() implies safe_left.map_values(traffic_key())[k]
                == keys[k] by {
                assert(same_beside(safe_left[k], safe_right[k], record.kind));
            }
        }
        law_sorted_order_is_stable(keys);
        let from = sorted_order(keys)[i];
        assert(arranged(safe_left, keys)[i] == safe_left[from]);
        assert(arranged(safe_right, keys)[i] == safe_right[from]);
        assert(same_beside(safe_left[from], safe_right[from], record.kind));
    }
}

proof fn lemma_late_speed_runs(stage: int, at: int, interval_hours: int, day_end: int, k: int)
    requires
        stage >= 2,
        interval_hours >= 1,
        k >= 0,
    ensures
        k < speed_runs(stage, at, interval_hours, day_end) <==> at + k * (interval_hours * 3_600) < day_end,
    decreases k,
{
    let step = interval_hours * 3_600;
    if k == 0 {
        lemma_runs_not_negative(
            if stage >= 3 {
                3
            } else {
                stage + 1
            },
            at + step,
            interval_hours,
            day_end,
        );
    } else {
        let next: int = if stage >= 3 {
            3
        } else {
            stage + 1
        };
        lemma_late_speed_runs(next, at + step, interval_hours, day_end, k - 1);
        assert(k * step == step + (k - 1) * step) by (nonlinear_arith);
        assert((k - 1) * step >= 0) by (nonlinear_arith)
            requires
                k >= 1,
                step >= 1,
        ;
        lemma_runs_not_negative(next, at + step, interval_hours, day_end);
    }
}

/// Tests are never expected less than not at all.
pub proof fn lemma_runs_not_negative(stage: int, at: int, interval_hours: int, day_end: int)
    ensures
        speed_runs(stage, at, interval_hours, day_end) >= 0,
    decreases
            if at >= day_end {
                0
            } else {
                day_end - at
            },
{
    if at < day_end {
        lemma_runs_not_negative(
            if stage >= 3 {
                3
            } else {
                stage + 1
            },
            at + if stage == 0 {
                3_600int
            } else if stage == 1 {
                10_800
            } else if interval_hours < 1 {
                3_600
            } else {
                interval_hours * 3_600
            },
            interval_hours,
            day_end,
        );
    }
}

/// The speed tests of a new series that are expected of a day are exactly those that start before it
/// ends: one at once, one an hour later, one three hours after that, and then one per interval. A
/// series that is past its first test or past its second one goes on from there.
pub proof fn law_speed_runs_end_with_the_day(at: int, interval_hours: int, day_end: int, k: int)
    requires
        interval_hours >= 1,
        k >= 0,
    ensures
        k < speed_runs(0, at, interval_hours, day_end) <==> (if k == 0 {
            at
        } else if k == 1 {
            at + 3_600
        } else {
            at + 14_400 + (k - 2) * (interval_hours * 3_600)
        }) < day_end,
        k < speed_runs(1, at, interval_hours, day_end) <==> (if k == 0 {
            at
        } else {
            at + 10_800 + (k - 1) * (interval_hours * 3_600)
        }) < day_end,
        k < speed_runs(2, at, interval_hours, day_end) <==> at + k * (interval_hours * 3_600) < day_end,
        k < speed_runs(3, at, interval_hours, day_end) <==> at + k * (interval_hours * 3_600) < day_end,
{
    let step = interval_hours * 3_600;
    lemma_late_speed_runs(2, at, interval_hours, day_end, k);
    lemma_late_speed_runs(3, at, interval_hours, day_end, k);
    lemma_runs_not_negative(1, at + 3_600, interval_hours, day_end);
    lemma_runs_not_negative(2, at + 10_800, interval_hours, day_end);
    lemma_runs_not_negative(2, at + 14_400, interval_hours, day_end);
    if k >= 1 {
        lemma_late_speed_runs(2, at + 10_800, interval_hours, day_end, k - 1);
        assert((k - 1) * step >= 0) by (nonlinear_arith)
            requires
                k >= 1,
                step >= 1,
        ;
    }
    if k >= 2 {
        lemma_late_speed_runs(2, at + 14_400, interval_hours, day_end, k - 2);
        assert((k - 2) * step >= 0) by (nonlinear_arith)
            requires
                k >= 2,
                step >= 1,
        ;
    }
    assert(speed_runs(1, at + 3_600, interval_hours, day_end) == if at + 3_600 >= day_end {
        0
    } else {
        1 + speed_runs(2, at + 14_400, interval_hours, day_end)
    });
}

/// The estimate for a day on which nothing was used and one confirmed node is tested: in each
/// direction the latency tests that remain, and for a participant the speed tests that remain at
/// their usual size, with a tenth more.
pub proof fn law_estimate_of_one_node(
    node: NodeView,
    records: Seq<RecordView>,
    settings: SettingsView,
    now: int,
    day_end: int,
    latency_runs: int,
    download_runs: int,
    upload_runs: int,
)
    requires
        node.manual_override,
        node.state == ParticipationState::Participating || node.state == ParticipationState::Observe,
        settings.latency_interval_minutes >= 1,
        settings.latency_interval_minutes * 60 <= u64::MAX,
        latency_runs == interval_runs(
            node.next_latency_at as int,
            settings.latency_interval_minutes * 60,
            now,
            day_end,
        ),
        download_runs == speed_runs(
            node.download_bootstrap_stage as int,
            first_run(node.next_download_at as int, now),
            settings.speed_interval_hours as int,
            day_end,
        ),
        upload_runs == speed_runs(
            node.upload_bootstrap_stage as int,
            first_run(node.next_upload_at as int, now),
            settings.speed_interval_hours as int,
            day_end,
        ),
    ensures
        ({
            let day = day_traffic(seq![node], records, Seq::empty(), settings, now, day_end);
            let takes_part = node.state == ParticipationState::Participating;
            let down_size = usual_size(
                records,
                node.node_id,
                MeasurementKind::Download,
                true,
                settings.speed_max_bytes as int,
            );
            let up_size = usual_size(
                records,
                node.node_id,
                MeasurementKind::Upload,
                true,
                settings.speed_max_bytes as int,
            );
            let down = 16_384 * latency_runs + if takes_part {
                down_size * download_runs
            } else {
                0
            };
            let up = 4_096 * latency_runs + if takes_part {
                up_size * upload_runs
            } else {
                0
            };
            &&& day.len() == 1
            &&& day[0].profile_uid == node.profile_uid
            &&& day[0].profile_name == node.profile_name
            &&& day[0].actual_download_bytes == 0
            &&& day[0].actual_upload_bytes == 0
            &&& down + down / 10 <= u64::MAX ==> day[0].estimated_download_bytes == down + down / 10
            &&& up + up / 10 <= u64::MAX ==> day[0].estimated_upload_bytes == up + up / 10
        }),
{
    let none = Seq::<TrafficView>::empty();
    let used = Seq::<ProfileTraffic>::empty();
    let nodes = seq![node];
    assert(nodes.drop_last() =~= Seq::empty());
    assert(used_traffics(used, settings) == none);
    assert(with_all_expected(none, nodes.drop_last(), records, settings, now, day_end) == none);
    let all = with_all_expected(none, nodes, records, settings, now, day_end);
    assert(all == with_expected(none, node, records, settings, now, day_end));
    assert(latency_seconds(settings) == settings.latency_interval_minutes * 60);
    assert(traffic_at(none, node.profile_uid) == 0);
    assert(all.len() == 1);
    let entries = all.map_values(|entry: TrafficView| secured_traffic(entry));
    let keys = entries.map_values(traffic_key());
    law_sorted_order_is_stable(keys);
    assert(sorted_order(keys)[0] == 0);
    assert(arranged(entries, keys)[0] == entries[0]);
    assert(entries[0] == secured_traffic(all[0]));
    lemma_interval_runs_not_negative(
        node.next_latency_at as int,
        settings.latency_interval_minutes * 60,
        now,
        day_end,
    );
    let hours = settings.speed_interval_hours as int;
    let default = settings.speed_max_bytes as int;
    let down_at = first_run(node.next_download_at as int, now);
    let up_at = first_run(node.next_upload_at as int, now);
    lemma_runs_not_negative(node.download_bootstrap_stage as int, down_at, hours, day_end);
    lemma_runs_not_negative(node.upload_bootstrap_stage as int, up_at, hours, day_end);
    let down_size = usual_size(records, node.node_id, MeasurementKind::Download, true, default);
    let up_size = usual_size(records, node.node_id, MeasurementKind::Upload, true, default);
    assert(down_size * download_runs >= 0) by (nonlinear_arith)
        requires
            down_size >= 0,
            download_runs >= 0,
    ;
    assert(up_size * upload_runs >= 0) by (nonlinear_arith)
        requires
            up_size >= 0,
            upload_runs >= 0,
    ;
}

proof fn lemma_interval_runs_not_negative(next_at: int, interval_seconds: int, now: int, day_end: int)
    requires
        interval_seconds >= 1,
    ensures
        interval_runs(next_at, interval_seconds, now, day_end) >= 0,
{
    let first = first_run(next_at, now);
    if first < day_end {
        let left = day_end - first - 1;
        let bounded: int = if left > i64::MAX {
            i64::MAX as int
        } else {
            left
        };
        assert(bounded / interval_seconds >= 0) by (nonlinear_arith)
            requires
                bounded >= 0,
                interval_seconds >= 1,
        ;
    }
}

/// The sums over profiles grow by what each profile adds to them.
pub proof fn law_totals_add_up(profiles: Seq<TrafficView>, entry: TrafficView)
    ensures
        total(Seq::empty(), TrafficColumn::EstimatedDownload) == 0,
        total(Seq::empty(), TrafficColumn::EstimatedUpload) == 0,
        total(Seq::empty(), TrafficColumn::ActualDownload) == 0,
        total(Seq::empty(), TrafficColumn::ActualUpload) == 0,
        total(profiles.push(entry), TrafficColumn::EstimatedDownload) == total(
            profiles,
            TrafficColumn::EstimatedDownload,
        ) + entry.estimated_download_bytes,
        total(profiles.push(entry), TrafficColumn::EstimatedUpload) == total(
            profiles,
            TrafficColumn::EstimatedUpload,
        ) + entry.estimated_upload_bytes,
        total(profiles.push(entry), TrafficColumn::ActualDownload) == total(
            profiles,
            TrafficColumn::ActualDownload,
        ) + entry.actual_download_bytes,
        total(profiles.push(entry), TrafficColumn::ActualUpload) == total(
            profiles,
            TrafficColumn::ActualUpload,
        ) + entry.actual_upload_bytes,
{
    assert(profiles.push(entry).drop_last() =~= profiles);
}

/// A profile is billed with the first multiplier that is given for it, and plainly where none is.
pub proof fn law_multipliers_are_those_of_the_profile(
    multipliers: Seq<(Seq<char>, FloatBits)>,
    uid: Seq<char>,
    k: int,
)
    requires
        0 <= k <= multipliers.len(),
        forall|i: int| 0 <= i < k ==> (#[trigger] multipliers[i]).0 != uid,
        k < multipliers.len() ==> multipliers[k].0 == uid,
    ensures
        k < multipliers.len() ==> multiplier_of(multipliers, uid) == multipliers[k].1,
        k == multipliers.len() ==> multiplier_of(multipliers, uid).bits == 0x3ff0_0000_0000_0000,
    decreases multipliers.len(),
{
    if k > 0 {
        assert(multipliers[0].0 != uid);
        let rest = multipliers.drop_first();
        assert forall|i: int| 0 <= i < k - 1 implies (#[trigger] rest[i]).0 != uid by {
            assert(multipliers[i + 1].0 != uid);
        }
        law_multipliers_are_those_of_the_profile(rest, uid, k - 1);
    }
}

} // verus!
