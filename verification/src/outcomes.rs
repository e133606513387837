//! What the outcome of a scheduled test leaves in the tables.

use crate::errors::BenchmarkError;
use crate::floats::FloatBits;
use crate::models::{
    LATENCY_ESTIMATED_DOWNLOAD_BYTES, LATENCY_ESTIMATED_UPLOAD_BYTES, MeasurementKind,
    MeasurementRecord, NodeView, RecordView, SpeedTestResult, StoredNode,
};
use crate::schedule::{
    LONG_RETRY, SHORT_RETRY, is_ranking_test, next_speed_schedule, speed_options, speed_pause,
    speed_trigger, trigger_text,
};
use crate::settings::{BenchmarkSettings, SettingsView};
use crate::speed::{SpeedTestFailure, SpeedTestOptions};
use crate::status::ScheduledWorker;
use crate::store::{
    BenchmarkStore, NodeChange, StoreView, delayed, knows_node, lemma_same_ids, node_views, planned,
    stored_record, with_id,
};
use vstd::prelude::*;

verus! {

/// Why a speed test failed: after it had moved bytes, or before.
#[derive(Debug)]
pub enum SpeedTestError {
    Interrupted(SpeedTestFailure),
    Refused(String),
}

/// What the failure of a speed test stands for: the message and, where bytes were moved, how many
/// down and up, and in how many milliseconds.
#[verifier::ext_equal]
pub struct SpeedErrorView {
    pub message: Seq<char>,
    pub progress: Option<(u64, u64, u64)>,
}

impl View for SpeedTestError {
    type V = SpeedErrorView;

    open spec fn view(&self) -> SpeedErrorView {
        match self {
            SpeedTestError::Interrupted(failure) => SpeedErrorView {
                message: failure.message@,
                progress: Some((failure.bytes_down, failure.bytes_up, failure.elapsed_ms)),
            },
            SpeedTestError::Refused(message) => SpeedErrorView { message: message@, progress: None },
        }
    }
}

impl SpeedErrorView {
    /// The bytes that came down before the failure.
    pub open spec fn bytes_down(self) -> u64 {
        match self.progress {
            Some(progress) => progress.0,
            None => 0,
        }
    }

    /// The bytes that went up before the failure.
    pub open spec fn bytes_up(self) -> u64 {
        match self.progress {
            Some(progress) => progress.1,
            None => 0,
        }
    }

    /// How long the test took; a test without progress took as long as was measured outside.
    pub open spec fn duration(self, measured_ms: u64) -> u64 {
        match self.progress {
            Some(progress) => progress.2,
            None => measured_ms,
        }
    }
}

impl SpeedTestError {
    /// The message of the failure.
    pub fn message(&self) -> (message: &str)
        ensures
            message@ == self@.message,
    {
        match self {
            SpeedTestError::Interrupted(failure) => failure.message.as_str(),
            SpeedTestError::Refused(message) => message.as_str(),
        }
    }

    /// The bytes down and up and the duration that the failure counts for.
    pub fn progress(&self, measured_ms: u64) -> (progress: (u64, u64, u64))
        ensures
            progress.0 == self@.bytes_down(),
            progress.1 == self@.bytes_up(),
            progress.2 == self@.duration(measured_ms),
    {
        match self {
            SpeedTestError::Interrupted(failure) => (failure.bytes_down, failure.bytes_up, failure.elapsed_ms),
            SpeedTestError::Refused(_) => (0, 0, measured_ms),
        }
    }
}

impl SpeedTestResult {
    /// What was measured.
    pub open spec fn kind_view(self) -> MeasurementKind {
        match self {
            SpeedTestResult::Download(_) => MeasurementKind::Download,
            SpeedTestResult::Upload(_) => MeasurementKind::Upload,
        }
    }

    /// The bytes per second.
    pub open spec fn speed_view(self) -> u64 {
        match self {
            SpeedTestResult::Download(result) => result.average_bytes_per_second,
            SpeedTestResult::Upload(result) => result.average_bytes_per_second,
        }
    }

    /// What a successful test leaves as its result for a node.
    pub open spec fn record_view(
        self,
        node_id: Seq<char>,
        trigger: Seq<char>,
        rank_eligible: bool,
        now: i64,
    ) -> RecordView {
        RecordView {
            node_id,
            kind: self.kind_view(),
            success: true,
            value: Some(FloatBits::of_count(self.speed_view())),
            bytes_down: match self {
                SpeedTestResult::Download(result) => result.bytes_read,
                SpeedTestResult::Upload(_) => 0,
            },
            bytes_up: match self {
                SpeedTestResult::Download(_) => 0,
                SpeedTestResult::Upload(result) => result.bytes_sent,
            },
            duration_ms: match self {
                SpeedTestResult::Download(result) => result.elapsed_ms,
                SpeedTestResult::Upload(result) => result.elapsed_ms,
            },
            trigger,
            rank_eligible,
            error: None,
            created_at: now,
        }
    }

    /// What was measured.
    pub fn kind(&self) -> (kind: MeasurementKind)
        ensures
            kind == self.kind_view(),
    {
        match self {
            SpeedTestResult::Download(_) => MeasurementKind::Download,
            SpeedTestResult::Upload(_) => MeasurementKind::Upload,
        }
    }

    /// What a successful test leaves as its result for a node.
    pub fn record(&self, node_id: &str, trigger: &str, rank_eligible: bool, now: i64) -> (record: MeasurementRecord)
        ensures
            record@ == self.record_view(node_id@, trigger@, rank_eligible, now),
    {
        let (speed, bytes_down, bytes_up, duration_ms): (u64, u64, u64, u64) = match self {
            SpeedTestResult::Download(result) => (
                result.average_bytes_per_second,
                result.bytes_read,
                0,
                result.elapsed_ms,
            ),
            SpeedTestResult::Upload(result) => (
                result.average_bytes_per_second,
                0,
                result.bytes_sent,
                result.elapsed_ms,
            ),
        };
        MeasurementRecord {
            node_id: node_id.to_owned(),
            kind: self.kind(),
            success: true,
            value: Some(FloatBits::from_u64(speed)),
            bytes_down,
            bytes_up,
            duration_ms,
            trigger: trigger.to_owned(),
            rank_eligible,
            error: None,
            created_at: now,
        }
    }
}

/// What a failed test leaves as its result.
pub open spec fn failed_record(
    node_id: Seq<char>,
    kind: MeasurementKind,
    bytes_down: u64,
    bytes_up: u64,
    duration_ms: u64,
    trigger: Seq<char>,
    rank_eligible: bool,
    error: Seq<char>,
    now: i64,
) -> RecordView {
    RecordView {
        node_id,
        kind,
        success: false,
        value: None,
        bytes_down,
        bytes_up,
        duration_ms,
        trigger,
        rank_eligible,
        error: Some(error),
        created_at: now,
    }
}

/// What a failed test leaves as its result.
pub fn failed_test_record(
    node_id: &str,
    kind: MeasurementKind,
    progress: (u64, u64, u64),
    trigger: &str,
    rank_eligible: bool,
    error: String,
    now: i64,
) -> (record: MeasurementRecord)
    ensures
        record@ == failed_record(
            node_id@,
            kind,
            progress.0,
            progress.1,
            progress.2,
            trigger@,
            rank_eligible,
            error@,
            now,
        ),
{
    MeasurementRecord {
        node_id: node_id.to_owned(),
        kind,
        success: false,
        value: None,
        bytes_down: progress.0,
        bytes_up: progress.1,
        duration_ms: progress.2,
        trigger: trigger.to_owned(),
        rank_eligible,
        error: Some(error),
        created_at: now,
    }
}

/// The outcome of a latency test: the milliseconds, or why there are none.
pub open spec fn delay_view(outcome: Result<u32, String>) -> Result<u32, Seq<char>> {
    match outcome {
        Ok(delay) => Ok(delay),
        Err(error) => Err(error@),
    }
}

/// What a latency test leaves as its result. Where the target cannot be reached without the node
/// either, the environment is at fault: the result does not count, and both attempts cost traffic.
pub open spec fn latency_record(
    node_id: Seq<char>,
    outcome: Result<u32, Seq<char>>,
    reachable: bool,
    duration_ms: u64,
    now: i64,
) -> RecordView {
    let sound = outcome is Ok || reachable;
    RecordView {
        node_id,
        kind: MeasurementKind::Latency,
        success: outcome is Ok,
        value: match outcome {
            Ok(delay) => Some(FloatBits::of_count(delay as u64)),
            Err(_) => None,
        },
        bytes_down: if sound {
            LATENCY_ESTIMATED_DOWNLOAD_BYTES
        } else {
            (2 * LATENCY_ESTIMATED_DOWNLOAD_BYTES) as u64
        },
        bytes_up: if sound {
            LATENCY_ESTIMATED_UPLOAD_BYTES
        } else {
            (2 * LATENCY_ESTIMATED_UPLOAD_BYTES) as u64
        },
        duration_ms,
        trigger: if sound {
            "scheduled"@
        } else {
            "environment"@
        },
        rank_eligible: sound,
        error: match outcome {
            Ok(_) => None,
            Err(error) => Some(
                if reachable {
                    error
                } else {
                    "测试环境异常，不计入节点稳定率："@ + error
                },
            ),
        },
        created_at: now,
    }
}

/// What a failed scheduled speed test leaves as its result. Where the source cannot be reached
/// without the node either, the result does not count.
pub open spec fn speed_failure_record(
    node_id: Seq<char>,
    kind: MeasurementKind,
    stage: u8,
    error: SpeedErrorView,
    reachable: bool,
    measured_ms: u64,
    now: i64,
) -> RecordView {
    failed_record(
        node_id,
        kind,
        error.bytes_down(),
        error.bytes_up(),
        error.duration(measured_ms),
        if reachable {
            trigger_text(stage)
        } else {
            "environment"@
        },
        reachable,
        if reachable {
            error.message
        } else {
            "测速源或本机直连检查失败，不计入节点结果："@ + error.message
        },
        now,
    )
}

/// The stage of a node in one direction.
pub open spec fn stage_of(node: NodeView, kind: MeasurementKind) -> u8 {
    match kind {
        MeasurementKind::Upload => node.upload_bootstrap_stage,
        _ => node.download_bootstrap_stage,
    }
}

/// Whether the speed test of a node in one direction is due.
pub open spec fn direction_due(node: NodeView, kind: MeasurementKind, now: i64) -> bool {
    match kind {
        MeasurementKind::Download => node.next_download_at <= now,
        MeasurementKind::Upload => node.next_upload_at <= now,
        MeasurementKind::Latency => false,
    }
}

/// The bytes of a day in one direction.
pub open spec fn used_bytes(traffic: (int, int), kind: MeasurementKind) -> int {
    match kind {
        MeasurementKind::Upload => traffic.1,
        _ => traffic.0,
    }
}

/// The daily limit in one direction.
pub open spec fn daily_limit(settings: SettingsView, kind: MeasurementKind) -> u64 {
    match kind {
        MeasurementKind::Upload => settings.upload_daily_limit_bytes,
        _ => settings.download_daily_limit_bytes,
    }
}

/// Whether a test of that size would exceed a limit; sums count up to the largest 64-bit number.
pub open spec fn exceeds(used: int, planned_size: u64, limit: u64) -> bool {
    used + planned_size > limit && limit < u64::MAX
}

/// Whether a test of that size would exceed a limit.
pub fn exceeds_limit(used: u64, planned_size: u64, limit: u64) -> (result: bool)
    ensures
        result == exceeds(used as int, planned_size, limit),
{
    limit < u64::MAX && (used > limit || planned_size > limit - used)
}

impl StoreView {
    /// The tables with one more test result.
    pub open spec fn with_record(self, record: RecordView) -> StoreView {
        StoreView { measurements: self.measurements.push(stored_record(record)), ..self }
    }

    /// The tables after a latency test of a node.
    pub open spec fn after_latency_test(
        self,
        node_id: Seq<char>,
        outcome: Result<u32, Seq<char>>,
        reachable: bool,
        duration_ms: u64,
        interval_minutes: u64,
        now: i64,
    ) -> StoreView {
        self.with_record(
            latency_record(node_id, outcome, reachable, duration_ms, now),
        ).with_nodes_changed(
            with_id(node_id),
            if outcome is Ok || reachable {
                NodeChange::PlanLatency { at: (now + interval_minutes * 60) as i64 }
            } else {
                NodeChange::DelayLatency { at: (now + SHORT_RETRY) as i64 }
            },
        )
    }

    /// The tables after a successful scheduled speed test.
    pub open spec fn after_speed_success(
        self,
        node: NodeView,
        result: SpeedTestResult,
        interval_hours: u64,
        now: i64,
    ) -> StoreView {
        let kind = result.kind_view();
        let stage = stage_of(node, kind);
        let recorded = self.with_record(result.record_view(node.node_id, trigger_text(stage), true, now));
        let next: u8 = if stage >= 2 {
            3
        } else {
            (stage + 1) as u8
        };
        recorded.with_nodes_changed(
            with_id(node.node_id),
            planned(kind, next, (now + speed_pause(stage, interval_hours)) as i64)->0,
        )
    }

    /// The tables after a failed scheduled speed test.
    pub open spec fn after_speed_failure(
        self,
        node: NodeView,
        kind: MeasurementKind,
        error: SpeedErrorView,
        reachable: bool,
        measured_ms: u64,
        now: i64,
    ) -> StoreView {
        self.with_record(
            speed_failure_record(
                node.node_id,
                kind,
                stage_of(node, kind),
                error,
                reachable,
                measured_ms,
                now,
            ),
        ).with_nodes_changed(
            with_id(node.node_id),
            delayed(
                kind,
                (now + if reachable {
                    LONG_RETRY
                } else {
                    SHORT_RETRY
                }) as i64,
            )->0,
        )
    }

    /// The tables after a direction was left out because its source does not answer.
    pub open spec fn after_dead_source(self, node: NodeView, kind: MeasurementKind, now: i64) -> StoreView {
        self.with_record(
            failed_record(
                node.node_id,
                kind,
                0,
                0,
                0,
                "environment"@,
                false,
                "本轮测速源直连检查失败，已自动顺延且不计入节点结果"@,
                now,
            ),
        ).with_nodes_changed(
            with_id(node.node_id),
            delayed(kind, (now + SHORT_RETRY) as i64)->0,
        )
    }

    /// The tables after a due direction of a node could not be started.
    pub open spec fn after_false_start(
        self,
        node: NodeView,
        kind: MeasurementKind,
        now: i64,
        error: Seq<char>,
    ) -> StoreView {
        if direction_due(node, kind, now) {
            self.with_record(
                failed_record(node.node_id, kind, 0, 0, 0, trigger_text(stage_of(node, kind)), false, error, now),
            ).with_nodes_changed(
                with_id(node.node_id),
                delayed(kind, (now + SHORT_RETRY) as i64)->0,
            )
        } else {
            self
        }
    }

    /// The tables after neither due direction of a node could be started.
    pub open spec fn after_false_starts(self, node: NodeView, now: i64, error: Seq<char>) -> StoreView {
        self.after_false_start(node, MeasurementKind::Download, now, error).after_false_start(
            node,
            MeasurementKind::Upload,
            now,
            error,
        )
    }

    /// The tables after the due tests of a node were put off.
    pub open spec fn after_delay(
        self,
        worker: ScheduledWorker,
        node: NodeView,
        now: i64,
        retry_at: i64,
    ) -> StoreView {
        match worker {
            ScheduledWorker::Latency => self.with_nodes_changed(
                with_id(node.node_id),
                NodeChange::DelayLatency { at: retry_at },
            ),
            ScheduledWorker::Speed => {
                let first = if direction_due(node, MeasurementKind::Download, now) {
                    self.with_nodes_changed(
                        with_id(node.node_id),
                        NodeChange::DelayDownload { at: retry_at },
                    )
                } else {
                    self
                };
                if direction_due(node, MeasurementKind::Upload, now) {
                    first.with_nodes_changed(
                        with_id(node.node_id),
                        NodeChange::DelayUpload { at: retry_at },
                    )
                } else {
                    first
                }
            },
        }
    }

    /// The tables after the due tests of some nodes were put off.
    pub open spec fn after_delays(
        self,
        worker: ScheduledWorker,
        nodes: Seq<NodeView>,
        now: i64,
        retry_at: i64,
    ) -> StoreView
        decreases nodes.len(),
    {
        if nodes.len() == 0 {
            self
        } else {
            self.after_delays(worker, nodes.drop_last(), now, retry_at).after_delay(
                worker,
                nodes.last(),
                now,
                retry_at,
            )
        }
    }
}

/// What is to be done about a due direction of a node.
#[derive(Debug)]
pub enum SpeedPlan {
    /// The test was put off, and the tables say so.
    Postponed,
    /// The test is to be made.
    Test(SpeedTestOptions),
}

impl BenchmarkStore {
    /// Notes the outcome of a latency test and plans the next one: at the interval of the settings,
    /// or soon where the environment was at fault.
    pub fn record_latency(
        &mut self,
        node_id: &str,
        outcome: Result<u32, String>,
        reachable: bool,
        duration_ms: u64,
        settings: &BenchmarkSettings,
        now: i64,
    ) -> (result: Result<(), BenchmarkError>)
        requires
            old(self)@.valid(),
            settings.latency_interval_minutes * 60 <= i64::MAX,
            now + settings.latency_interval_minutes * 60 <= i64::MAX,
            now + SHORT_RETRY <= i64::MAX,
        ensures
            final(self)@.valid(),
            match result {
                Ok(_) => knows_node(old(self)@.nodes, node_id@) && final(self)@ == old(self)@.after_latency_test(
                    node_id@,
                    delay_view(outcome),
                    reachable,
                    duration_ms,
                    settings@.latency_interval_minutes,
                    now,
                ),
                Err(error) => !knows_node(old(self)@.nodes, node_id@) && error == BenchmarkError::ForeignNode
                    && final(self)@ == old(self)@,
            },
    {
        let ghost wished = delay_view(outcome);
        let sound: bool = outcome.is_ok() || reachable;
        let (success, value, error): (bool, Option<FloatBits>, Option<String>) = match outcome {
            Ok(delay) => (true, Some(FloatBits::from_u64(delay as u64)), None),
            Err(error) => if reachable {
                (false, None, Some(error))
            } else {
                (false, None, Some("测试环境异常，不计入节点稳定率：".to_owned().concat(error.as_str())))
            },
        };
        let record = MeasurementRecord {
            node_id: node_id.to_owned(),
            kind: MeasurementKind::Latency,
            success,
            value,
            bytes_down: if sound {
                LATENCY_ESTIMATED_DOWNLOAD_BYTES
            } else {
                2 * LATENCY_ESTIMATED_DOWNLOAD_BYTES
            },
            bytes_up: if sound {
                LATENCY_ESTIMATED_UPLOAD_BYTES
            } else {
                2 * LATENCY_ESTIMATED_UPLOAD_BYTES
            },
            duration_ms,
            trigger: (if sound {
                "scheduled"
            } else {
                "environment"
            }).to_owned(),
            rank_eligible: sound,
            error,
            created_at: now,
        };
        assert(record@ =~= latency_record(node_id@, wished, reachable, duration_ms, now));
        match self.insert_measurement(&record) {
            Ok(_) => {},
            Err(error) => {
                return Err(error);
            },
        }
        if sound {
            self.schedule_next_latency(node_id, now + settings.latency_interval_minutes as i64 * 60);
        } else {
            self.defer_latency(node_id, now + SHORT_RETRY);
        }
        Ok(())
    }

    /// Decides what to do about a due direction of a node: where the day has no room for a test of
    /// full size, the next day is planned; where the source is known not to answer, the test is put
    /// off and a result that does not count says why; otherwise the test is to be made.
    pub fn plan_speed_test(
        &mut self,
        node: &StoredNode,
        kind: MeasurementKind,
        settings: &BenchmarkSettings,
        source_answers: Option<bool>,
        day_start: i64,
        next_day_start: i64,
        now: i64,
    ) -> (result: Result<SpeedPlan, BenchmarkError>)
        requires
            old(self)@.valid(),
            now + SHORT_RETRY <= i64::MAX,
        ensures
            final(self)@.valid(),
            match old(self)@.traffic_since(day_start) {
                Err(refusal) => result == Err::<SpeedPlan, BenchmarkError>(refusal) && final(self)@ == old(self)@,
                Ok(traffic) => if kind == MeasurementKind::Latency {
                    result == Err::<SpeedPlan, BenchmarkError>(BenchmarkError::LatencyInSpeedQueue) && final(self)@ == old(self)@
                } else if exceeds(
                    used_bytes(traffic, kind),
                    settings@.speed_max_bytes,
                    daily_limit(settings@, kind),
                ) {
                    result == Ok::<SpeedPlan, BenchmarkError>(SpeedPlan::Postponed) && final(self)@ == old(self)@.with_nodes_changed(
                        with_id(node@.node_id),
                        planned(kind, stage_of(node@, kind), next_day_start)->0,
                    )
                } else if source_answers == Some(false) {
                    match result {
                        Ok(plan) => plan is Postponed && knows_node(old(self)@.nodes, node@.node_id) && final(self)@ == old(self)@.after_dead_source(node@, kind, now),
                        Err(error) => error == BenchmarkError::ForeignNode && !knows_node(
                            old(self)@.nodes,
                            node@.node_id,
                        ) && final(self)@ == old(self)@,
                    }
                } else {
                    &&& final(self)@ == old(self)@
                    &&& result matches Ok(SpeedPlan::Test(options))
                    &&& is_ranking_test(
                        options,
                        if kind == MeasurementKind::Upload {
                            settings@.upload_url
                        } else {
                            settings@.download_url
                        },
                        settings@,
                    )
                },
            },
    {
        let used = match self.actual_traffic_since(day_start) {
            Ok(used) => used,
            Err(error) => {
                return Err(error);
            },
        };
        let (url, used_here, limit, stage): (&str, u64, u64, u8) = match kind {
            MeasurementKind::Download => (
                settings.download_url.as_str(),
                used.0,
                settings.download_daily_limit_bytes,
                node.download_bootstrap_stage,
            ),
            MeasurementKind::Upload => (
                settings.upload_url.as_str(),
                used.1,
                settings.upload_daily_limit_bytes,
                node.upload_bootstrap_stage,
            ),
            MeasurementKind::Latency => {
                return Err(BenchmarkError::LatencyInSpeedQueue);
            },
        };
        if exceeds_limit(used_here, settings.speed_max_bytes, limit) {
            match self.schedule_next_speed_direction(node.node_id.as_str(), kind, stage, next_day_start) {
                Ok(_) => {},
                Err(error) => {
                    return Err(error);
                },
            }
            return Ok(SpeedPlan::Postponed);
        }
        let dead: bool = match source_answers {
            Some(answers) => !answers,
            None => false,
        };
        if dead {
            let record = failed_test_record(
                node.node_id.as_str(),
                kind,
                (0, 0, 0),
                "environment",
                false,
                "本轮测速源直连检查失败，已自动顺延且不计入节点结果".to_owned(),
                now,
            );
            match self.insert_measurement(&record) {
                Ok(_) => {},
                Err(error) => {
                    return Err(error);
                },
            }
            match self.defer_speed_direction(node.node_id.as_str(), kind, now + SHORT_RETRY) {
                Ok(_) => {},
                Err(error) => {
                    return Err(error);
                },
            }
            return Ok(SpeedPlan::Postponed);
        }
        Ok(SpeedPlan::Test(speed_options(url, settings)))
    }

    /// Notes a successful scheduled speed test and plans the next one of that direction.
    pub fn record_speed_success(
        &mut self,
        node: &StoredNode,
        result: &SpeedTestResult,
        settings: &BenchmarkSettings,
        now: i64,
    ) -> (noted: Result<(), BenchmarkError>)
        requires
            old(self)@.valid(),
            stage_of(node@, result.kind_view()) >= 2 ==> settings.speed_interval_hours * 3_600 <= i64::MAX,
            now + speed_pause(stage_of(node@, result.kind_view()), settings.speed_interval_hours) <= i64::MAX,
        ensures
            final(self)@.valid(),
            match noted {
                Ok(_) => knows_node(old(self)@.nodes, node@.node_id) && final(self)@ == old(self)@.after_speed_success(node@, *result, settings@.speed_interval_hours, now),
                Err(error) => !knows_node(old(self)@.nodes, node@.node_id) && error
                    == BenchmarkError::ForeignNode && final(self)@ == old(self)@,
            },
    {
        let kind = result.kind();
        let stage: u8 = match kind {
            MeasurementKind::Upload => node.upload_bootstrap_stage,
            _ => node.download_bootstrap_stage,
        };
        let record = result.record(node.node_id.as_str(), speed_trigger(stage), true, now);
        match self.insert_measurement(&record) {
            Ok(_) => {},
            Err(error) => {
                return Err(error);
            },
        }
        let (next_stage, next_at): (u8, i64) = next_speed_schedule(stage, now, settings.speed_interval_hours);
        self.schedule_next_speed_direction(node.node_id.as_str(), kind, next_stage, next_at)
    }

    /// Notes a failed scheduled speed test and puts the direction off: longer where the node is at
    /// fault, shorter where the source cannot be reached without the node either.
    pub fn record_speed_failure(
        &mut self,
        node: &StoredNode,
        kind: MeasurementKind,
        error: &SpeedTestError,
        reachable: bool,
        measured_ms: u64,
        now: i64,
    ) -> (noted: Result<(), BenchmarkError>)
        requires
            old(self)@.valid(),
            kind != MeasurementKind::Latency,
            now + LONG_RETRY <= i64::MAX,
        ensures
            final(self)@.valid(),
            match noted {
                Ok(_) => knows_node(old(self)@.nodes, node@.node_id) && final(self)@ == old(self)@.after_speed_failure(node@, kind, error@, reachable, measured_ms, now),
                Err(refusal) => !knows_node(old(self)@.nodes, node@.node_id) && refusal
                    == BenchmarkError::ForeignNode && final(self)@ == old(self)@,
            },
    {
        let stage: u8 = match kind {
            MeasurementKind::Upload => node.upload_bootstrap_stage,
            _ => node.download_bootstrap_stage,
        };
        let progress: (u64, u64, u64) = error.progress(measured_ms);
        let record = if reachable {
            failed_test_record(
                node.node_id.as_str(),
                kind,
                progress,
                speed_trigger(stage),
                true,
                error.message().to_owned(),
                now,
            )
        } else {
            failed_test_record(
                node.node_id.as_str(),
                kind,
                progress,
                "environment",
                false,
                "测速源或本机直连检查失败，不计入节点结果：".to_owned().concat(error.message()),
                now,
            )
        };
        match self.insert_measurement(&record) {
            Ok(_) => {},
            Err(refusal) => {
                return Err(refusal);
            },
        }
        let pause: i64 = if reachable {
            LONG_RETRY
        } else {
            SHORT_RETRY
        };
        self.defer_speed_direction(node.node_id.as_str(), kind, now + pause)
    }

    fn record_false_start(
        &mut self,
        node: &StoredNode,
        kind: MeasurementKind,
        due: bool,
        stage: u8,
        now: i64,
        error: &str,
    ) -> (noted: Result<(), BenchmarkError>)
        requires
            old(self)@.valid(),
            kind != MeasurementKind::Latency,
            due == direction_due(node@, kind, now),
            stage == stage_of(node@, kind),
            now + SHORT_RETRY <= i64::MAX,
        ensures
            final(self)@.valid(),
            match noted {
                Ok(_) => (due ==> knows_node(old(self)@.nodes, node@.node_id)) && final(self)@ == old(self)@.after_false_start(node@, kind, now, error@),
                Err(refusal) => due && !knows_node(old(self)@.nodes, node@.node_id) && refusal
                    == BenchmarkError::ForeignNode && final(self)@ == old(self)@,
            },
    {
        if !due {
            return Ok(());
        }
        let record = failed_test_record(
            node.node_id.as_str(),
            kind,
            (0, 0, 0),
            speed_trigger(stage),
            false,
            error.to_owned(),
            now,
        );
        match self.insert_measurement(&record) {
            Ok(_) => {},
            Err(refusal) => {
                return Err(refusal);
            },
        }
        self.defer_speed_direction(node.node_id.as_str(), kind, now + SHORT_RETRY)
    }

    /// Notes for every due direction of a node why no test was started, and puts it off. Such
    /// results do not count.
    pub fn record_scheduled_speed_failure(&mut self, node: &StoredNode, now: i64, error: &str) -> (noted: Result<
        (),
        BenchmarkError,
    >)
        requires
            old(self)@.valid(),
            now + SHORT_RETRY <= i64::MAX,
        ensures
            final(self)@.valid(),
            ({
                let due = direction_due(node@, MeasurementKind::Download, now) || direction_due(
                    node@,
                    MeasurementKind::Upload,
                    now,
                );
                match noted {
                    Ok(_) => (due ==> knows_node(old(self)@.nodes, node@.node_id)) && final(self)@ == old(self)@.after_false_starts(node@, now, error@),
                    Err(refusal) => due && !knows_node(old(self)@.nodes, node@.node_id) && refusal
                        == BenchmarkError::ForeignNode && final(self)@ == old(self)@,
                }
            }),
    {
        let ghost given = self@;
        match self.record_false_start(
            node,
            MeasurementKind::Download,
            node.next_download_at <= now,
            node.download_bootstrap_stage,
            now,
            error,
        ) {
            Ok(_) => {},
            Err(refusal) => {
                return Err(refusal);
            },
        }
        proof {
            lemma_same_ids(given.nodes, self@.nodes);
            assert(knows_node(given.nodes, node@.node_id) == knows_node(self@.nodes, node@.node_id));
        }
        self.record_false_start(
            node,
            MeasurementKind::Upload,
            node.next_upload_at <= now,
            node.upload_bootstrap_stage,
            now,
            error,
        )
    }

    /// Puts the due tests of some nodes off.
    pub fn defer_nodes(&mut self, worker: ScheduledWorker, nodes: &[StoredNode], now: i64, retry_at: i64)
        requires
            old(self)@.valid(),
        ensures
            final(self)@ == old(self)@.after_delays(worker, node_views(nodes@), now, retry_at),
            final(self)@.valid(),
    {
        let ghost given = self@;
        let ghost all = node_views(nodes@);
        assert(all.take(0) =~= Seq::empty());
        for i in 0..nodes.len()
            invariant
                all == node_views(nodes@),
                self@.valid(),
                self@ == given.after_delays(worker, all.take(i as int), now, retry_at),
        {
            assert(all.take(i + 1).drop_last() =~= all.take(i as int));
            assert(all.take(i + 1).last() == nodes@[i as int]@);
            let node = &nodes[i];
            match worker {
                ScheduledWorker::Latency => {
                    self.defer_latency(node.node_id.as_str(), retry_at);
                },
                ScheduledWorker::Speed => {
                    if node.next_download_at <= now {
                        self.change_one(node.node_id.as_str(), NodeChange::DelayDownload { at: retry_at });
                    }
                    if node.next_upload_at <= now {
                        self.change_one(node.node_id.as_str(), NodeChange::DelayUpload { at: retry_at });
                    }
                },
            }
        }
        assert(all.take(all.len() as int) =~= all);
    }
}

/// A failed speed test keeps the bytes that it moved, claims no speed, and counts only where the
/// source can be reached without the node.
pub proof fn law_failures_keep_their_traffic(
    node_id: Seq<char>,
    kind: MeasurementKind,
    stage: u8,
    error: SpeedErrorView,
    reachable: bool,
    measured_ms: u64,
    now: i64,
)
    ensures
        ({
            let record = speed_failure_record(node_id, kind, stage, error, reachable, measured_ms, now);
            &&& record.bytes_down == error.bytes_down() && record.bytes_up == error.bytes_up()
            &&& record.value is None && !record.success
            &&& record.rank_eligible == reachable
        }),
{
}

/// A scheduled test is only made where a transfer of full size keeps the traffic of the day
/// within its limit.
pub proof fn law_tests_fit_the_day(used: int, settings: SettingsView, kind: MeasurementKind)
    requires
        !exceeds(used, settings.speed_max_bytes, daily_limit(settings, kind)),
        daily_limit(settings, kind) < u64::MAX,
    ensures
        used + settings.speed_max_bytes <= daily_limit(settings, kind),
{
}

} // verus!
