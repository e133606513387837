//! What is expected of a day: what was used, and the tests of every node that are still to come.

use crate::models::{MeasurementKind, NodeView, ParticipationState, RecordView};
use crate::queries::ProfileTraffic;
use crate::query_laws::lemma_arranged;
use crate::settings::SettingsView;
use crate::traffic::{
    TrafficView, capped, day_traffic, expected_download, expected_latency_runs, expected_upload, first_run,
    interval_runs, median, secured_traffic, speed_runs, test_sizes, traffic_at, traffic_entry, traffic_key,
    used_traffic, used_traffics, usual_size, with_all_expected, with_expected, with_traffic,
};
use crate::traffic_laws::lemma_runs_not_negative;
use vstd::prelude::*;

verus! {

/// A test that is overdue comes at once, any other one when it is planned.
pub proof fn law_overdue_tests_come_at_once(next_at: int, now: int)
    ensures
        next_at <= now ==> first_run(next_at, now) == now,
        next_at >= now ==> first_run(next_at, now) == next_at,
{
}

/// Whether tests of a node are to come: the user decided that it takes part or is observed.
pub open spec fn awaited(node: NodeView) -> bool {
    node.manual_override && (node.state == ParticipationState::Participating || node.state
        == ParticipationState::Observe)
}

/// The latency tests of a node that are to come before the day ends.
pub open spec fn latency_tests(node: NodeView, settings: SettingsView, now: int, day_end: int) -> int {
    interval_runs(node.next_latency_at as int, settings.latency_interval_minutes * 60, now, day_end)
}

/// The bytes that the tests of a node download before the day ends.
pub open spec fn coming_down(
    node: NodeView,
    records: Seq<RecordView>,
    settings: SettingsView,
    now: int,
    day_end: int,
) -> int {
    if awaited(node) {
        16_384 * latency_tests(node, settings, now, day_end) + if node.state
            == ParticipationState::Participating {
            usual_size(
                records,
                node.node_id,
                MeasurementKind::Download,
                true,
                settings.speed_max_bytes as int,
            ) * speed_runs(
                node.download_bootstrap_stage as int,
                first_run(node.next_download_at as int, now),
                settings.speed_interval_hours as int,
                day_end,
            )
        } else {
            0
        }
    } else {
        0
    }
}

/// The bytes that the tests of a node upload before the day ends.
pub open spec fn coming_up(
    node: NodeView,
    records: Seq<RecordView>,
    settings: SettingsView,
    now: int,
    day_end: int,
) -> int {
    if awaited(node) {
        4_096 * latency_tests(node, settings, now, day_end) + if node.state
            == ParticipationState::Participating {
            usual_size(
                records,
                node.node_id,
                MeasurementKind::Upload,
                true,
                settings.speed_max_bytes as int,
            ) * speed_runs(
                node.upload_bootstrap_stage as int,
                first_run(node.next_upload_at as int, now),
                settings.speed_interval_hours as int,
                day_end,
            )
        } else {
            0
        }
    } else {
        0
    }
}

/// What the tests of all nodes of a profile move before the day ends, down and up.
pub open spec fn coming_of(
    nodes: Seq<NodeView>,
    uid: Seq<char>,
    records: Seq<RecordView>,
    settings: SettingsView,
    now: int,
    day_end: int,
) -> (int, int)
    decreases nodes.len(),
{
    if nodes.len() == 0 {
        (0, 0)
    } else {
        let front = coming_of(nodes.drop_last(), uid, records, settings, now, day_end);
        if nodes.last().profile_uid == uid {
            (
                front.0 + coming_down(nodes.last(), records, settings, now, day_end),
                front.1 + coming_up(nodes.last(), records, settings, now, day_end),
            )
        } else {
            front
        }
    }
}

spec fn found(profiles: Seq<TrafficView>, uid: Seq<char>) -> Option<TrafficView> {
    let at = traffic_at(profiles, uid);
    if at < profiles.len() {
        Some(profiles[at])
    } else {
        None
    }
}

proof fn lemma_traffic_at(profiles: Seq<TrafficView>, uid: Seq<char>)
    ensures
        0 <= traffic_at(profiles, uid) <= profiles.len(),
        traffic_at(profiles, uid) < profiles.len() ==> profiles[traffic_at(profiles, uid)].profile_uid == uid,
        forall|i: int| 0 <= i < traffic_at(profiles, uid) ==> (#[trigger] profiles[i]).profile_uid != uid,
    decreases profiles.len(),
{
    if profiles.len() > 0 && profiles[0].profile_uid != uid {
        let rest = profiles.drop_first();
        lemma_traffic_at(rest, uid);
        assert forall|i: int| 0 <= i < traffic_at(profiles, uid) implies (#[trigger] profiles[i]).profile_uid
            != uid by {
            if i > 0 {
                assert(rest[i - 1] == profiles[i]);
            }
        }
    }
}

proof fn lemma_with_traffic(profiles: Seq<TrafficView>, entry: TrafficView, uid: Seq<char>)
    ensures
        found(with_traffic(profiles, entry), uid) == if entry.profile_uid == uid {
            Some(entry)
        } else {
            found(profiles, uid)
        },
{
    let after = with_traffic(profiles, entry);
    lemma_traffic_at(profiles, uid);
    lemma_traffic_at(profiles, entry.profile_uid);
    lemma_traffic_at(after, uid);
    let at = traffic_at(profiles, entry.profile_uid);
    let own = traffic_at(profiles, uid);
    let place = traffic_at(after, uid);
    if entry.profile_uid == uid {
        assert(after[at].profile_uid == uid);
        assert(place <= at);
        if place < at {
            assert(after[place] == profiles[place]);
        }
    } else if own < profiles.len() {
        assert(own != at);
        assert(after[own] == profiles[own]);
        assert(place <= own);
        if place < own {
            if place < profiles.len() && place != at {
                assert(after[place] == profiles[place]);
            }
        }
    } else if place < after.len() {
        assert(place != at);
        assert(after[place] == profiles[place]);
    }
}

proof fn lemma_used(used: Seq<ProfileTraffic>, settings: SettingsView, uid: Seq<char>, k: int)
    ensures
        0 <= k < used.len() && used[k].0 == uid && (forall|q: int|
            k < q < used.len() ==> (#[trigger] used[q]).0 != uid) ==> found(used_traffics(used, settings), uid)
            == Some(used_traffic(used[k], settings)),
        (forall|q: int| 0 <= q < used.len() ==> (#[trigger] used[q]).0 != uid) ==> found(
            used_traffics(used, settings),
            uid,
        ) is None,
    decreases used.len(),
{
    if used.len() > 0 {
        let front = used.drop_last();
        lemma_used(front, settings, uid, k);
        lemma_with_traffic(used_traffics(front, settings), used_traffic(used.last(), settings), uid);
        if 0 <= k < used.len() && used[k].0 == uid && (forall|q: int|
            k < q < used.len() ==> (#[trigger] used[q]).0 != uid) {
            if k < front.len() {
                assert(used[used.len() - 1].0 != uid);
                assert(front[k] == used[k]);
                assert forall|q: int| k < q < front.len() implies (#[trigger] front[q]).0 != uid by {
                    assert(used[q].0 != uid);
                }
            }
        }
        if forall|q: int| 0 <= q < used.len() ==> (#[trigger] used[q]).0 != uid {
            assert(used[used.len() - 1].0 != uid);
            assert forall|q: int| 0 <= q < front.len() implies (#[trigger] front[q]).0 != uid by {
                assert(used[q].0 != uid);
            }
        }
    }
}

proof fn lemma_usual_size_not_negative(
    records: Seq<RecordView>,
    node_id: Seq<char>,
    kind: MeasurementKind,
    default: int,
)
    requires
        default >= 0,
    ensures
        usual_size(records, node_id, kind, true, default) >= 0,
{
    let sizes = test_sizes(records, node_id, kind, true);
    if sizes.len() > 0 {
        assert(median(sizes)->0 >= 0);
    }
}

proof fn lemma_coming_not_negative(
    node: NodeView,
    records: Seq<RecordView>,
    settings: SettingsView,
    now: int,
    day_end: int,
)
    requires
        settings.latency_interval_minutes >= 1,
    ensures
        latency_tests(node, settings, now, day_end) >= 0,
        coming_down(node, records, settings, now, day_end) >= 16_384 * latency_tests(node, settings, now, day_end)
            || !awaited(node),
        coming_up(node, records, settings, now, day_end) >= 4_096 * latency_tests(node, settings, now, day_end)
            || !awaited(node),
        coming_down(node, records, settings, now, day_end) >= 0,
        coming_up(node, records, settings, now, day_end) >= 0,
{
    let interval = settings.latency_interval_minutes * 60;
    let first = first_run(node.next_latency_at as int, now);
    let left = day_end - first - 1;
    let limited: int = if left > i64::MAX {
        i64::MAX as int
    } else {
        left
    };
    if first < day_end {
        assert(limited / interval >= 0) by (nonlinear_arith)
            requires
                limited >= 0,
                interval >= 1,
        ;
    }
    let most = settings.speed_max_bytes as int;
    lemma_usual_size_not_negative(records, node.node_id, MeasurementKind::Download, most);
    lemma_usual_size_not_negative(records, node.node_id, MeasurementKind::Upload, most);
    let down = usual_size(records, node.node_id, MeasurementKind::Download, true, most);
    let up = usual_size(records, node.node_id, MeasurementKind::Upload, true, most);
    let down_at = first_run(node.next_download_at as int, now);
    let up_at = first_run(node.next_upload_at as int, now);
    let hours = settings.speed_interval_hours as int;
    lemma_runs_not_negative(node.download_bootstrap_stage as int, down_at, hours, day_end);
    lemma_runs_not_negative(node.upload_bootstrap_stage as int, up_at, hours, day_end);
    let down_runs = speed_runs(node.download_bootstrap_stage as int, down_at, hours, day_end);
    let up_runs = speed_runs(node.upload_bootstrap_stage as int, up_at, hours, day_end);
    assert(down * down_runs >= 0) by (nonlinear_arith)
        requires
            down >= 0,
            down_runs >= 0,
    ;
    assert(up * up_runs >= 0) by (nonlinear_arith)
        requires
            up >= 0,
            up_runs >= 0,
    ;
}

/// Whether some node of a profile has tests to come.
pub open spec fn awaits_tests(nodes: Seq<NodeView>, uid: Seq<char>) -> bool {
    exists|i: int| 0 <= i < nodes.len() && (#[trigger] nodes[i]).profile_uid == uid && awaited(nodes[i])
}

proof fn lemma_expected(
    started: Seq<TrafficView>,
    nodes: Seq<NodeView>,
    uid: Seq<char>,
    records: Seq<RecordView>,
    settings: SettingsView,
    now: int,
    day_end: int,
)
    requires
        settings.latency_interval_minutes >= 1,
        settings.latency_interval_minutes * 60 <= u64::MAX,
        found(started, uid) is Some ==> found(started, uid)->0.estimated_download_bytes >= 0 && found(
            started,
            uid,
        )->0.estimated_upload_bytes >= 0,
    ensures
        ({
            let base = found(started, uid);
            let entry = found(with_all_expected(started, nodes, records, settings, now, day_end), uid);
            let coming = coming_of(nodes, uid, records, settings, now, day_end);
            let (down, up, used_down, used_up) = if base is Some {
                (
                    base->0.estimated_download_bytes,
                    base->0.estimated_upload_bytes,
                    base->0.actual_download_bytes,
                    base->0.actual_upload_bytes,
                )
            } else {
                (0, 0, 0, 0)
            };
            &&& coming.0 >= 0 && coming.1 >= 0
            &&& entry is Some <==> base is Some || awaits_tests(nodes, uid)
            &&& entry is None ==> coming == (0int, 0int)
            &&& entry is Some ==> {
                &&& entry->0.profile_uid == uid
                &&& entry->0.actual_download_bytes == used_down && entry->0.actual_upload_bytes == used_up
                &&& down + coming.0 <= u64::MAX ==> entry->0.estimated_download_bytes == down + coming.0
                &&& up + coming.1 <= u64::MAX ==> entry->0.estimated_upload_bytes == up + coming.1
            }
        }),
    decreases nodes.len(),
{
    lemma_traffic_at(started, uid);
    if nodes.len() > 0 {
        let front = nodes.drop_last();
        let last = nodes.last();
        let before = with_all_expected(started, front, records, settings, now, day_end);
        let after = with_all_expected(started, nodes, records, settings, now, day_end);
        lemma_expected(started, front, uid, records, settings, now, day_end);
        lemma_coming_not_negative(last, records, settings, now, day_end);
        assert(after == with_expected(before, last, records, settings, now, day_end));
        lemma_traffic_at(before, uid);
        lemma_traffic_at(before, last.profile_uid);
        if awaits_tests(front, uid) {
            let i = choose|i: int|
                0 <= i < front.len() && (#[trigger] front[i]).profile_uid == uid && awaited(front[i]);
            assert(nodes[i] == front[i]);
        }
        if awaits_tests(nodes, uid) {
            let i = choose|i: int|
                0 <= i < nodes.len() && (#[trigger] nodes[i]).profile_uid == uid && awaited(nodes[i]);
            if i < front.len() {
                assert(front[i] == nodes[i]);
            }
        }
        if awaited(last) {
            assert(nodes[nodes.len() - 1] == last);
            let entry = traffic_entry(before, last, settings);
            let runs = latency_tests(last, settings, now, day_end);
            assert(expected_latency_runs(last, settings, now, day_end) == runs);
            let changed = TrafficView {
                estimated_download_bytes: capped(
                    capped(entry.estimated_download_bytes + capped(16_384 * runs)) + expected_download(
                        last,
                        records,
                        settings,
                        now,
                        day_end,
                    ),
                ),
                estimated_upload_bytes: capped(
                    capped(entry.estimated_upload_bytes + capped(4_096 * runs))
                        + expected_upload(last, records, settings, now, day_end),
                ),
                ..entry
            };
            assert(after == with_traffic(before, changed));
            lemma_with_traffic(before, changed, uid);
        }
    }
}

/// What the day comes to for a profile: what it used, and what the tests of all of its nodes still
/// move, with a tenth more of that. The used bytes get no margin, and no node is counted for another
/// profile.
pub proof fn law_days_add_up(
    nodes: Seq<NodeView>,
    records: Seq<RecordView>,
    used: Seq<ProfileTraffic>,
    settings: SettingsView,
    now: int,
    day_end: int,
    uid: Seq<char>,
    k: int,
)
    requires
        settings.latency_interval_minutes >= 1,
        settings.latency_interval_minutes * 60 <= u64::MAX,
        0 <= k <= used.len(),
        k < used.len() ==> used[k].0 == uid && used[k].2 >= 0 && used[k].3 >= 0,
        forall|q: int| 0 <= q < used.len() && q != k ==> (#[trigger] used[q]).0 != uid,
        k < used.len() || awaits_tests(nodes, uid),
    ensures
        ({
            let day = day_traffic(nodes, records, used, settings, now, day_end);
            let (down, up): (int, int) = if k < used.len() {
                (used[k].2, used[k].3)
            } else {
                (0, 0)
            };
            let coming = coming_of(nodes, uid, records, settings, now, day_end);
            exists|i: int|
                0 <= i < day.len() && (#[trigger] day[i]).profile_uid == uid && day[i].actual_download_bytes == down
                    && day[i].actual_upload_bytes == up && (down + coming.0 + coming.0 / 10 <= u64::MAX
                    ==> day[i].estimated_download_bytes == down + coming.0 + coming.0 / 10) && (up + coming.1
                    + coming.1 / 10 <= u64::MAX ==> day[i].estimated_upload_bytes == up + coming.1 + coming.1 / 10)
        }),
{
    let started = used_traffics(used, settings);
    lemma_used(used, settings, uid, k);
    lemma_expected(started, nodes, uid, records, settings, now, day_end);
    let all = with_all_expected(started, nodes, records, settings, now, day_end);
    let entries = all.map_values(|entry: TrafficView| secured_traffic(entry));
    let day = day_traffic(nodes, records, used, settings, now, day_end);
    lemma_arranged(entries, traffic_key());
    lemma_traffic_at(all, uid);
    let at = traffic_at(all, uid);
    assert(found(all, uid) == Some(all[at]));
    assert(day.contains(entries[at]));
    let i = choose|i: int| 0 <= i < day.len() && day[i] == entries[at];
    assert(day[i] == secured_traffic(all[at]));
}

} // verus!
