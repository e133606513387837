//! What the outcome of a test leaves in the tables, stated of their rows.

use crate::floats::FloatBits;
use crate::models::{MeasurementKind, NodeView, SpeedTestResult};
use crate::outcomes::SpeedErrorView;
use crate::status::ScheduledWorker;
use crate::store::StoreView;
use vstd::prelude::*;

verus! {

/// Whether an outcome left everything in the tables but one more result and the nodes as it was.
pub open spec fn adds_one_result(before: StoreView, after: StoreView) -> bool {
    &&& after.measurements.len() == before.measurements.len() + 1
    &&& after.measurements.take(before.measurements.len() as int) == before.measurements
    &&& after.settings == before.settings
    &&& after.profiles == before.profiles
    &&& after.changes == before.changes
    &&& after.nodes.len() == before.nodes.len()
}

/// Whether a node differs from its former self at most in the time of its next latency test.
pub open spec fn same_but_latency(after: NodeView, before: NodeView) -> bool {
    after == (NodeView { next_latency_at: after.next_latency_at, ..before })
}

/// A latency test adds one result of its node. The result counts unless the target could not be
/// reached without the node either. The next test follows after the interval; where the environment
/// was at fault, after ten minutes, but no earlier than planned. Nothing else changes.
pub proof fn law_latency_tests_are_noted(
    store: StoreView,
    node_id: Seq<char>,
    outcome: Result<u32, Seq<char>>,
    reachable: bool,
    duration_ms: u64,
    interval_minutes: u64,
    now: i64,
    i: int,
)
    requires
        now + interval_minutes * 60 <= i64::MAX,
        now + 600 <= i64::MAX,
        0 <= i < store.nodes.len(),
    ensures
        ({
            let after = store.after_latency_test(
                node_id,
                outcome,
                reachable,
                duration_ms,
                interval_minutes,
                now,
            );
            let record = after.measurements.last();
            let counted = outcome is Ok || reachable;
            &&& adds_one_result(store, after)
            &&& record.node_id == node_id && record.kind == MeasurementKind::Latency && record.created_at
                == now
            &&& record.success == outcome is Ok
            &&& record.rank_eligible == counted
            &&& outcome is Err ==> record.value is None
            &&& record.value is Some ==> record.value == Some(FloatBits::of_count(outcome->Ok_0 as u64))
            &&& record.error is Some <==> outcome is Err
            &&& outcome is Err && reachable ==> record.error == Some(outcome->Err_0)
            &&& counted ==> record.bytes_down == 16_384 && record.bytes_up == 4_096 && record.trigger
                == "scheduled"@
            &&& !counted ==> record.bytes_down == 32_768 && record.bytes_up == 8_192 && record.trigger
                == "environment"@
            &&& store.nodes[i].node.node_id != node_id ==> after.nodes[i] == store.nodes[i]
            &&& store.nodes[i].node.node_id == node_id ==> {
                &&& after.nodes[i].active == store.nodes[i].active
                &&& same_but_latency(after.nodes[i].node, store.nodes[i].node)
                &&& counted ==> after.nodes[i].node.next_latency_at == now + interval_minutes * 60
                &&& !counted ==> after.nodes[i].node.next_latency_at >= now + 600
                    && after.nodes[i].node.next_latency_at >= store.nodes[i].node.next_latency_at && (
                after.nodes[i].node.next_latency_at == now + 600 || after.nodes[i].node.next_latency_at
                    == store.nodes[i].node.next_latency_at)
            }
        }),
{
    let after = store.after_latency_test(node_id, outcome, reachable, duration_ms, interval_minutes, now);
    assert(after.measurements.take(store.measurements.len() as int) =~= store.measurements);
}

/// Whether a node differs from its former self at most in its download schedule.
pub open spec fn same_but_download(after: NodeView, before: NodeView) -> bool {
    after == (NodeView {
        download_bootstrap_stage: after.download_bootstrap_stage,
        next_download_at: after.next_download_at,
        bootstrap_stage: after.bootstrap_stage,
        next_speed_at: after.next_speed_at,
        ..before
    })
}

/// Whether a node differs from its former self at most in its upload schedule.
pub open spec fn same_but_upload(after: NodeView, before: NodeView) -> bool {
    after == (NodeView {
        upload_bootstrap_stage: after.upload_bootstrap_stage,
        next_upload_at: after.next_upload_at,
        bootstrap_stage: after.bootstrap_stage,
        next_speed_at: after.next_speed_at,
        ..before
    })
}

/// The seconds until the test that follows one of a stage: one hour, three hours, and then the
/// interval.
pub open spec fn pause(stage: u8, interval_hours: u64) -> int {
    match stage {
        0 => 3_600,
        1 => 10_800,
        _ => interval_hours * 3_600,
    }
}

/// A successful speed test adds one counting result of its node and direction with the bytes that it
/// moved. Its direction goes one stage on, up to the third, and is planned after the pause of its
/// stage. The other direction, the latency test and all other nodes stay as they are.
pub proof fn law_speed_successes_are_noted(
    store: StoreView,
    node: NodeView,
    result: SpeedTestResult,
    interval_hours: u64,
    now: i64,
    i: int,
)
    requires
        0 <= i < store.nodes.len(),
        now + 10_800 <= i64::MAX,
        now + interval_hours * 3_600 <= i64::MAX,
        match result {
            SpeedTestResult::Download(result) => result.bytes_read <= i64::MAX && result.elapsed_ms <= i64::MAX,
            SpeedTestResult::Upload(result) => result.bytes_sent <= i64::MAX && result.elapsed_ms <= i64::MAX,
        },
    ensures
        ({
            let after = store.after_speed_success(node, result, interval_hours, now);
            let record = after.measurements.last();
            let stage = match result {
                SpeedTestResult::Download(_) => node.download_bootstrap_stage,
                SpeedTestResult::Upload(_) => node.upload_bootstrap_stage,
            };
            let next: int = if stage >= 2 {
                3
            } else {
                stage + 1
            };
            &&& adds_one_result(store, after)
            &&& record.node_id == node.node_id && record.created_at == now
            &&& record.success && record.rank_eligible && record.error is None
            &&& record.value is Some ==> record.value == Some(
                FloatBits::of_count(
                    match result {
                        SpeedTestResult::Download(result) => result.average_bytes_per_second,
                        SpeedTestResult::Upload(result) => result.average_bytes_per_second,
                    },
                ),
            )
            &&& record.trigger == if stage < 3 {
                "bootstrap"@
            } else {
                "scheduled"@
            }
            &&& match result {
                SpeedTestResult::Download(result) => record.kind == MeasurementKind::Download
                    && record.bytes_down == result.bytes_read && record.bytes_up == 0 && record.duration_ms
                    == result.elapsed_ms,
                SpeedTestResult::Upload(result) => record.kind == MeasurementKind::Upload && record.bytes_up
                    == result.bytes_sent && record.bytes_down == 0 && record.duration_ms == result.elapsed_ms,
            }
            &&& store.nodes[i].node.node_id != node.node_id ==> after.nodes[i] == store.nodes[i]
            &&& store.nodes[i].node.node_id == node.node_id ==> {
                let was = store.nodes[i].node;
                let became = after.nodes[i].node;
                &&& after.nodes[i].active == store.nodes[i].active
                &&& result is Download ==> same_but_download(became, was) && became.download_bootstrap_stage == next
                    && became.next_download_at == now + pause(stage, interval_hours)
                &&& result is Upload ==> same_but_upload(became, was) && became.upload_bootstrap_stage == next
                    && became.next_upload_at == now + pause(stage, interval_hours)
                &&& became.next_speed_at <= became.next_download_at && became.next_speed_at <= became.next_upload_at
                &&& became.next_speed_at == became.next_download_at || became.next_speed_at == became.next_upload_at
            }
        }),
{
    let after = store.after_speed_success(node, result, interval_hours, now);
    assert(after.measurements.take(store.measurements.len() as int) =~= store.measurements);
}

/// A failed speed test adds one failed result of its node and direction with the bytes that it had
/// moved; the result counts only where the source can be reached without the node. Its direction is
/// put off by half an hour, or by ten minutes where the environment was at fault, never earlier than
/// planned, and keeps its stage. Nothing else changes.
pub proof fn law_speed_failures_are_noted(
    store: StoreView,
    node: NodeView,
    kind: MeasurementKind,
    error: SpeedErrorView,
    reachable: bool,
    measured_ms: u64,
    now: i64,
    i: int,
)
    requires
        0 <= i < store.nodes.len(),
        now + 1_800 <= i64::MAX,
        kind != MeasurementKind::Latency,
        error.progress matches Some(progress) ==> progress.0 <= i64::MAX && progress.1 <= i64::MAX,
    ensures
        ({
            let after = store.after_speed_failure(node, kind, error, reachable, measured_ms, now);
            let record = after.measurements.last();
            let retry: int = now + if reachable {
                1_800int
            } else {
                600int
            };
            &&& adds_one_result(store, after)
            &&& record.node_id == node.node_id && record.kind == kind && record.created_at == now
            &&& !record.success && record.value is None && record.error is Some
            &&& record.rank_eligible == reachable
            &&& match error.progress {
                Some(progress) => record.bytes_down == progress.0 && record.bytes_up == progress.1,
                None => record.bytes_down == 0 && record.bytes_up == 0,
            }
            &&& !reachable ==> record.trigger == "environment"@
            &&& reachable ==> record.error == Some(error.message)
            &&& store.nodes[i].node.node_id != node.node_id ==> after.nodes[i] == store.nodes[i]
            &&& store.nodes[i].node.node_id == node.node_id ==> {
                let was = store.nodes[i].node;
                let became = after.nodes[i].node;
                &&& after.nodes[i].active == store.nodes[i].active
                &&& kind == MeasurementKind::Download ==> same_but_download(became, was)
                    && became.download_bootstrap_stage == was.download_bootstrap_stage && put_off(
                    became.next_download_at,
                    was.next_download_at,
                    retry,
                )
                &&& kind == MeasurementKind::Upload ==> same_but_upload(became, was) && became.upload_bootstrap_stage
                    == was.upload_bootstrap_stage && put_off(became.next_upload_at, was.next_upload_at, retry)
            }
        }),
{
    let after = store.after_speed_failure(node, kind, error, reachable, measured_ms, now);
    assert(after.measurements.take(store.measurements.len() as int) =~= store.measurements);
}

/// Whether a time is the later of a planned time and a time of retry.
pub open spec fn put_off(time: i64, was: i64, retry: int) -> bool {
    &&& time >= was
    &&& time >= retry
    &&& time == was || time == retry
}

/// A direction whose source does not answer gets a result that moved nothing and does not count, and
/// is put off by ten minutes.
pub proof fn law_dead_sources_are_noted(store: StoreView, node: NodeView, kind: MeasurementKind, now: i64, i: int)
    requires
        0 <= i < store.nodes.len(),
        now + 600 <= i64::MAX,
        kind != MeasurementKind::Latency,
    ensures
        ({
            let after = store.after_dead_source(node, kind, now);
            let record = after.measurements.last();
            &&& adds_one_result(store, after)
            &&& record.node_id == node.node_id && record.kind == kind && record.created_at == now
            &&& !record.success && !record.rank_eligible && record.value is None && record.error is Some
            &&& record.bytes_down == 0 && record.bytes_up == 0 && record.duration_ms == 0
            &&& record.trigger == "environment"@
            &&& store.nodes[i].node.node_id != node.node_id ==> after.nodes[i] == store.nodes[i]
            &&& store.nodes[i].node.node_id == node.node_id ==> {
                let was = store.nodes[i].node;
                let became = after.nodes[i].node;
                &&& kind == MeasurementKind::Download ==> same_but_download(became, was) && put_off(
                    became.next_download_at,
                    was.next_download_at,
                    now + 600,
                )
                &&& kind == MeasurementKind::Upload ==> same_but_upload(became, was) && put_off(
                    became.next_upload_at,
                    was.next_upload_at,
                    now + 600,
                )
            }
        }),
{
    let after = store.after_dead_source(node, kind, now);
    assert(after.measurements.take(store.measurements.len() as int) =~= store.measurements);
}

/// Tests that could not be started leave one failed result for each direction that was due, which
/// does not count and moved nothing, and put that direction off by ten minutes. A direction that was
/// not due is left alone.
pub proof fn law_false_starts_are_noted(store: StoreView, node: NodeView, now: i64, error: Seq<char>, i: int)
    requires
        0 <= i < store.nodes.len(),
        now + 600 <= i64::MAX,
    ensures
        ({
            let after = store.after_false_starts(node, now, error);
            let down: int = if node.next_download_at <= now {
                1
            } else {
                0
            };
            let up: int = if node.next_upload_at <= now {
                1
            } else {
                0
            };
            let n = store.measurements.len() as int;
            &&& after.measurements.len() == n + down + up
            &&& after.measurements.take(n) == store.measurements
            &&& forall|k: int|
                n <= k < after.measurements.len() ==> {
                    let record = #[trigger] after.measurements[k];
                    &&& record.node_id == node.node_id && record.created_at == now
                    &&& record.kind == if k == n && down == 1 {
                        MeasurementKind::Download
                    } else {
                        MeasurementKind::Upload
                    }
                    &&& !record.success && !record.rank_eligible && record.error == Some(error)
                    &&& record.bytes_down == 0 && record.bytes_up == 0
                }
            &&& store.nodes[i].node.node_id != node.node_id ==> after.nodes[i] == store.nodes[i]
            &&& store.nodes[i].node.node_id == node.node_id ==> {
                let was = store.nodes[i].node;
                let became = after.nodes[i].node;
                &&& became == (NodeView {
                    next_download_at: became.next_download_at,
                    next_upload_at: became.next_upload_at,
                    next_speed_at: became.next_speed_at,
                    ..was
                })
                &&& down == 1 ==> put_off(became.next_download_at, was.next_download_at, now + 600)
                &&& down == 0 ==> became.next_download_at == was.next_download_at
                &&& up == 1 ==> put_off(became.next_upload_at, was.next_upload_at, now + 600)
                &&& up == 0 ==> became.next_upload_at == was.next_upload_at
            }
        }),
{
    let first = store.after_false_start(node, MeasurementKind::Download, now, error);
    let after = store.after_false_starts(node, now, error);
    assert(after.measurements.take(store.measurements.len() as int) =~= store.measurements);
    assert(first.nodes[i].node.node_id == store.nodes[i].node.node_id);
}

/// Putting off the due tests of a node touches what is due of its worker and nothing else: latency
/// tests are put off together, speed tests direction by direction.
pub proof fn law_only_due_tests_are_put_off(
    store: StoreView,
    worker: ScheduledWorker,
    node: NodeView,
    now: i64,
    retry_at: i64,
    i: int,
)
    requires
        0 <= i < store.nodes.len(),
    ensures
        ({
            let after = store.after_delay(worker, node, now, retry_at);
            let was = store.nodes[i].node;
            let became = after.nodes[i].node;
            &&& after.measurements == store.measurements && after.changes == store.changes
            &&& was.node_id != node.node_id ==> after.nodes[i] == store.nodes[i]
            &&& was.node_id == node.node_id && worker == ScheduledWorker::Latency ==> same_but_latency(became, was)
                && put_off(became.next_latency_at, was.next_latency_at, retry_at as int)
            &&& was.node_id == node.node_id && worker == ScheduledWorker::Speed ==> {
                &&& became == (NodeView {
                    next_download_at: became.next_download_at,
                    next_upload_at: became.next_upload_at,
                    next_speed_at: became.next_speed_at,
                    ..was
                })
                &&& if node.next_download_at <= now {
                    put_off(became.next_download_at, was.next_download_at, retry_at as int)
                } else {
                    became.next_download_at == was.next_download_at
                }
                &&& if node.next_upload_at <= now {
                    put_off(became.next_upload_at, was.next_upload_at, retry_at as int)
                } else {
                    became.next_upload_at == was.next_upload_at
                }
            }
        }),
{
}

} // verus!
