//! The course of a manual batch: node by node, as long as the day has room.
//!
//! A batch is driven from outside: each step says what to do next, and what came of it is handed
//! back.

use vstd::prelude::*;

use crate::batch::{
    fresh_batch, job_of, law_batches_leave_each_other_alone, lemma_changed_batch, lemma_row_at, row_open,
    with_job, with_job_ended, with_job_row, with_row, BatchRowView, BatchView, ManualJobs,
};
use crate::errors::BenchmarkError;
use crate::laws::law_named_node_is_known;
use crate::models::{
    ManualBatchRequest, ManualSpeedMode, MeasurementKind, NodeView, ParticipationState, RecordView, SpeedTestResult,
    StoredNode,
};
use crate::outcomes::{
    daily_limit, exceeds, exceeds_limit, failed_record, failed_test_record, used_bytes, SpeedErrorView,
    SpeedTestError,
};
use crate::profile::{lemma_found_nodes_fewer, node_pairs, PreparedProfile};
use crate::schedule::{manual_bytes, manual_matches_ranking, matches_ranking, planned_bytes};
use crate::settings::{BenchmarkSettings, SettingsView};
use crate::store::{contains_text, knows_node, BenchmarkStore, StoreView};
use crate::text::texts;

verus! {

/// What a direction measures.
pub open spec fn kind_of(mode: ManualSpeedMode) -> MeasurementKind {
    match mode {
        ManualSpeedMode::Download => MeasurementKind::Download,
        ManualSpeedMode::Upload => MeasurementKind::Upload,
    }
}

/// A batch at work.
#[derive(Debug)]
pub struct ManualRun {
    pub job_id: String,
    pub profile_uid: String,
    pub request: ManualBatchRequest,
    pub settings: BenchmarkSettings,
    /// The nodes that the running core offers.
    pub available: Vec<String>,
    /// Whether the tests are made as those of the ranking are.
    pub alike: bool,
    /// The node that comes next.
    pub next: usize,
}

/// What a batch at work stands for.
#[verifier::ext_equal]
pub struct RunView {
    pub job_id: Seq<char>,
    pub profile_uid: Seq<char>,
    pub request: ManualBatchRequest,
    pub settings: SettingsView,
    pub available: Seq<Seq<char>>,
    pub alike: bool,
    pub next: int,
}

impl View for ManualRun {
    type V = RunView;

    open spec fn view(&self) -> RunView {
        RunView {
            job_id: self.job_id@,
            profile_uid: self.profile_uid@,
            request: self.request,
            settings: self.settings@,
            available: texts(self.available@),
            alike: self.alike,
            next: self.next as int,
        }
    }
}

/// The names among pairs of name and type.
pub open spec fn names_of(nodes: Seq<(Seq<char>, Seq<char>)>) -> Seq<Seq<char>> {
    nodes.map_values(|node: (Seq<char>, Seq<char>)| node.0)
}

/// The names of listed nodes.
pub fn listed_names(nodes: &[(String, String)]) -> (names: Vec<String>)
    ensures
        texts(names@) == names_of(node_pairs(nodes@)),
{
    let ghost wanted = names_of(node_pairs(nodes@));
    let mut names: Vec<String> = Vec::new();
    for i in 0..nodes.len()
        invariant
            wanted == names_of(node_pairs(nodes@)),
            texts(names@) == wanted.take(i as int),
    {
        let ghost before = names@;
        assert(node_pairs(nodes@)[i as int] == (nodes@[i as int].0@, nodes@[i as int].1@));
        names.push(nodes[i].0.clone());
        assert(texts(names@) =~= texts(before).push(nodes@[i as int].0@));
        assert(wanted.take(i + 1) =~= wanted.take(i as int).push(wanted[i as int]));
    }
    assert(wanted.take(wanted.len() as int) =~= wanted);
    names
}

/// What a batch asks for.
#[derive(Debug)]
pub enum ManualStep {
    /// The node is to be selected and tested.
    Test { node_name: String },
    /// A node was passed over.
    Skipped,
    /// The batch is over.
    Finished,
}

/// Whether a manual result counts for a node: the test was made as those of the ranking are, and
/// the user confirmed the node as a participant.
pub open spec fn manual_counts(alike: bool, node: NodeView) -> bool {
    alike && node.manual_override && node.state == ParticipationState::Participating
}

fn counts_for(alike: bool, node: &StoredNode) -> (result: bool)
    ensures
        result == manual_counts(alike, node@),
{
    alike && node.manual_override && node.state == ParticipationState::Participating
}

/// The message of a failed manual test.
pub open spec fn manual_message(error: SpeedErrorView, reachable: bool) -> Seq<char> {
    if reachable {
        error.message
    } else {
        "测试环境异常，不计入节点结果："@ + error.message
    }
}

/// What a failed manual test leaves as its result.
pub open spec fn manual_failure_record(
    node: NodeView,
    mode: ManualSpeedMode,
    error: SpeedErrorView,
    reachable: bool,
    alike: bool,
    measured_ms: u64,
    now: i64,
) -> RecordView {
    failed_record(
        node.node_id,
        kind_of(mode),
        error.bytes_down(),
        error.bytes_up(),
        error.duration(measured_ms),
        if reachable {
            "manual"@
        } else {
            "environment"@
        },
        reachable && manual_counts(alike, node),
        manual_message(error, reachable),
        now,
    )
}

impl RunView {
    /// Whether a node is to be tested.
    pub open spec fn awaits_node(self) -> bool {
        self.next < self.request.node_names@.len()
    }

    /// What holds of a batch at all times.
    pub open spec fn valid(self) -> bool {
        0 <= self.next <= self.request.node_names@.len()
    }

    /// The node that comes next.
    pub open spec fn next_name(self) -> Seq<char> {
        self.request.node_names@[self.next]@
    }

    /// The batch after a node was passed.
    pub open spec fn past_node(self) -> RunView {
        RunView { next: self.next + 1, ..self }
    }

    /// The rows after the one of the next node changed.
    pub open spec fn row_changed(
        self,
        jobs: Seq<BatchView>,
        status: Seq<char>,
        error: Option<Seq<char>>,
        result: Option<SpeedTestResult>,
    ) -> Seq<BatchView> {
        with_job_row(jobs, self.job_id, self.next_name(), status, error, result)
    }

    /// The tables after a successful test of the next node.
    pub open spec fn success_recorded(self, tables: StoreView, result: SpeedTestResult, now: i64) -> StoreView {
        match tables.node_by_name(self.profile_uid, self.next_name()) {
            Some(node) => tables.with_record(
                result.record_view(node.node_id, "manual"@, manual_counts(self.alike, node), now),
            ),
            None => tables,
        }
    }
}

impl ManualRun {
    /// Begins the tests of a batch: the nodes that the core lists are merged into the tables first.
    pub fn begin(
        store: &mut BenchmarkStore,
        job_id: String,
        profile_uid: String,
        request: ManualBatchRequest,
        prepared: &PreparedProfile,
        listed: &[(String, String)],
        now: i64,
    ) -> (result: Result<ManualRun, BenchmarkError>)
        requires
            old(store)@.valid(),
            old(store)@.has_room((listed@.len() + old(store)@.nodes.len() + 1) as int),
        ensures
            final(store)@.valid(),
            match result {
                Err(error) => {
                    &&& !old(store)@.settings_sound()
                    &&& old(store)@.settings_refused(error)
                    &&& final(store)@ == old(store)@
                },
                Ok(run) => {
                    let settings = old(store)@.current_settings();
                    &&& old(store)@.settings_sound()
                    &&& final(store)@ == old(store)@.after_discovery(
                        profile_uid@,
                        prepared@.discovery(Some(node_pairs(listed@))),
                        settings,
                        now,
                    )
                    &&& run@ == (RunView {
                        job_id: job_id@,
                        profile_uid: profile_uid@,
                        request,
                        settings,
                        available: names_of(node_pairs(listed@)),
                        alike: matches_ranking(request, settings),
                        next: 0,
                    })
                },
            },
    {
        let settings = match store.load_settings() {
            Ok(settings) => settings,
            Err(error) => {
                return Err(error);
            },
        };
        let discovery = prepared.discovery(Some(listed));
        proof {
            lemma_found_nodes_fewer(prepared@, node_pairs(listed@));
        }
        store.record_discovery(profile_uid.as_str(), &discovery, &settings, now);
        let alike: bool = manual_matches_ranking(&request, &settings);
        Ok(ManualRun { job_id, profile_uid, request, settings, available: listed_names(listed), alike, next: 0 })
    }

    /// The next step of the batch. Nodes that the core does not offer fail, and so do those for
    /// whose test the day has no room.
    pub fn advance(
        &mut self,
        jobs: &mut ManualJobs,
        store: &BenchmarkStore,
        day_start: i64,
        cancelled: bool,
    ) -> (result: Result<ManualStep, BenchmarkError>)
        requires
            old(self)@.valid(),
        ensures
            final(self)@.valid(),
            ({
                let run = old(self)@;
                let given = old(jobs)@;
                let testing = run.row_changed(given, "testing"@, None, None);
                let kind = kind_of(run.request.mode);
                if cancelled || !run.awaits_node() {
                    &&& result == Ok::<ManualStep, BenchmarkError>(ManualStep::Finished)
                    &&& final(self)@ == run
                    &&& final(jobs)@ == given
                } else if !run.available.contains(run.next_name()) {
                    &&& result == Ok::<ManualStep, BenchmarkError>(ManualStep::Skipped)
                    &&& final(self)@ == run.past_node()
                    &&& final(jobs)@ == run.row_changed(
                        given,
                        "failed"@,
                        Some("独立配置中找不到该节点"@),
                        None,
                    )
                } else {
                    match store@.traffic_since(day_start) {
                        Err(refusal) => {
                            &&& result == Err::<ManualStep, BenchmarkError>(refusal)
                            &&& final(self)@ == run
                            &&& final(jobs)@ == testing
                        },
                        Ok(traffic) => if exceeds(
                            used_bytes(traffic, kind),
                            planned_bytes(run.request),
                            daily_limit(run.settings, kind),
                        ) {
                            &&& result == Ok::<ManualStep, BenchmarkError>(ManualStep::Skipped)
                            &&& final(self)@ == run.past_node()
                            &&& final(jobs)@ == run.row_changed(
                                testing,
                                "failed"@,
                                Some("今日对应方向的测试流量上限已达到"@),
                                None,
                            )
                        } else {
                            &&& result matches Ok(ManualStep::Test { node_name })
                            &&& node_name@ == run.next_name()
                            &&& final(self)@ == run
                            &&& final(jobs)@ == testing
                        },
                    }
                }
            }),
    {
        if cancelled || self.next >= self.request.node_names.len() {
            return Ok(ManualStep::Finished);
        }
        let name = self.request.node_names[self.next].clone();
        if !contains_text(self.available.as_slice(), name.as_str()) {
            jobs.update_manual_row(
                self.job_id.as_str(),
                name.as_str(),
                "failed",
                Some("独立配置中找不到该节点"),
                None,
            );
            self.next = self.next + 1;
            return Ok(ManualStep::Skipped);
        }
        jobs.update_manual_row(self.job_id.as_str(), name.as_str(), "testing", None, None);
        let used = match store.actual_traffic_since(day_start) {
            Ok(used) => used,
            Err(error) => {
                return Err(error);
            },
        };
        let size: u64 = manual_bytes(&self.request);
        let full: bool = match self.request.mode {
            ManualSpeedMode::Download => exceeds_limit(used.0, size, self.settings.download_daily_limit_bytes),
            ManualSpeedMode::Upload => exceeds_limit(used.1, size, self.settings.upload_daily_limit_bytes),
        };
        if full {
            jobs.update_manual_row(
                self.job_id.as_str(),
                name.as_str(),
                "failed",
                Some("今日对应方向的测试流量上限已达到"),
                None,
            );
            self.next = self.next + 1;
            return Ok(ManualStep::Skipped);
        }
        Ok(ManualStep::Test { node_name: name })
    }

    /// Notes that the core did not accept the next node.
    pub fn selection_failed(&mut self, jobs: &mut ManualJobs, error: &str)
        requires
            old(self)@.valid(),
            old(self)@.awaits_node(),
        ensures
            final(self)@ == old(self)@.past_node(),
            final(self)@.valid(),
            final(jobs)@ == old(self)@.row_changed(
                old(jobs)@,
                "failed"@,
                Some("临时内核无法选中节点："@ + error@),
                None,
            ),
    {
        assert(self.next < self.request.node_names.len());
        let message = "临时内核无法选中节点：".to_owned().concat(error);
        jobs.update_manual_row(
            self.job_id.as_str(),
            self.request.node_names[self.next].as_str(),
            "failed",
            Some(message.as_str()),
            None,
        );
        self.next = self.next + 1;
    }

    /// The stored node that the next test is about, where there is one.
    pub fn stored_node(&self, store: &BenchmarkStore) -> (node: Option<StoredNode>)
        requires
            self@.valid(),
            self@.awaits_node(),
        ensures
            match node {
                Some(node) => store@.node_by_name(self@.profile_uid, self@.next_name()) == Some(node@),
                None => store@.node_by_name(self@.profile_uid, self@.next_name()) is None,
            },
    {
        store.node_by_profile_and_name(
            self.profile_uid.as_str(),
            self.request.node_names[self.next].as_str(),
        )
    }

    /// Notes a successful test of the next node. Where the node is stored, the result is stored too.
    pub fn record_success(
        &mut self,
        jobs: &mut ManualJobs,
        store: &mut BenchmarkStore,
        result: SpeedTestResult,
        now: i64,
    )
        requires
            old(self)@.valid(),
            old(self)@.awaits_node(),
            old(store)@.valid(),
        ensures
            final(self)@ == old(self)@.past_node(),
            final(self)@.valid(),
            final(jobs)@ == old(self)@.row_changed(old(jobs)@, "success"@, None, Some(result)),
            final(store)@ == old(self)@.success_recorded(old(store)@, result, now),
            final(store)@.valid(),
    {
        assert(self.next < self.request.node_names.len());
        jobs.update_manual_row(
            self.job_id.as_str(),
            self.request.node_names[self.next].as_str(),
            "success",
            None,
            Some(result.clone()),
        );
        proof {
            law_named_node_is_known(store@, self@.profile_uid, self@.next_name());
        }
        match self.stored_node(store) {
            Some(node) => {
                let record = result.record(
                    node.node_id.as_str(),
                    "manual",
                    counts_for(self.alike, &node),
                    now,
                );
                let stored = store.insert_measurement(&record);
                assert(stored is Ok);
            },
            None => {},
        }
        self.next = self.next + 1;
    }

    /// Notes a failed test of the next node. Where the node is stored, the failure is stored too;
    /// it counts only where the source can be reached without the node.
    pub fn record_failure(
        &mut self,
        jobs: &mut ManualJobs,
        store: &mut BenchmarkStore,
        node: Option<&StoredNode>,
        error: &SpeedTestError,
        reachable: bool,
        measured_ms: u64,
        now: i64,
    ) -> (result: Result<(), BenchmarkError>)
        requires
            old(self)@.valid(),
            old(self)@.awaits_node(),
            old(store)@.valid(),
        ensures
            final(self)@ == old(self)@.past_node(),
            final(self)@.valid(),
            final(store)@.valid(),
            final(jobs)@ == old(self)@.row_changed(
                old(jobs)@,
                "failed"@,
                Some(manual_message(error@, reachable)),
                None,
            ),
            match node {
                None => result is Ok && final(store)@ == old(store)@,
                Some(node) => match result {
                    Ok(_) => knows_node(old(store)@.nodes, node@.node_id) && final(store)@ == old(store)@.with_record(
                        manual_failure_record(
                            node@,
                            old(self)@.request.mode,
                            error@,
                            reachable,
                            old(self)@.alike,
                            measured_ms,
                            now,
                        ),
                    ),
                    Err(refusal) => !knows_node(old(store)@.nodes, node@.node_id) && refusal
                        == BenchmarkError::ForeignNode && final(store)@ == old(store)@,
                },
            },
    {
        assert(self.next < self.request.node_names.len());
        let message = if reachable {
            error.message().to_owned()
        } else {
            "测试环境异常，不计入节点结果：".to_owned().concat(error.message())
        };
        jobs.update_manual_row(
            self.job_id.as_str(),
            self.request.node_names[self.next].as_str(),
            "failed",
            Some(message.as_str()),
            None,
        );
        self.next = self.next + 1;
        match node {
            Some(node) => {
                let record = failed_test_record(
                    node.node_id.as_str(),
                    match self.request.mode {
                        ManualSpeedMode::Download => MeasurementKind::Download,
                        ManualSpeedMode::Upload => MeasurementKind::Upload,
                    },
                    error.progress(measured_ms),
                    if reachable {
                        "manual"
                    } else {
                        "environment"
                    },
                    reachable && counts_for(self.alike, node),
                    message,
                    now,
                );
                store.insert_measurement(&record)
            },
            None => Ok(()),
        }
    }
}

/// A manual result counts only where the test was made with the address, length and size of the
/// ranking and was meant to count, and where the user confirmed the node as a participant.
pub proof fn law_manual_results_count_only_when_alike(
    request: ManualBatchRequest,
    settings: SettingsView,
    node: NodeView,
    result: SpeedTestResult,
    error: SpeedErrorView,
    reachable: bool,
    measured_ms: u64,
    now: i64,
)
    ensures
        ({
            let alike = matches_ranking(request, settings);
            let success = result.record_view(node.node_id, "manual"@, manual_counts(alike, node), now);
            let failure = manual_failure_record(node, request.mode, error, reachable, alike, measured_ms, now);
            &&& success.rank_eligible || failure.rank_eligible ==> request.include_in_ranking
                && node.manual_override && node.state == ParticipationState::Participating
            &&& failure.rank_eligible ==> reachable
        }),
{
}

/// Whether a row has a result exactly where its test succeeded.
pub open spec fn result_fits(row: BatchRowView) -> bool {
    row.result is Some <==> row.status == "success"@
}

impl RunView {
    /// Whether no node is asked for twice.
    pub open spec fn names_differ(self) -> bool {
        forall|i: int, j: int|
            0 <= i < j < self.request.node_names@.len() ==> (#[trigger] self.request.node_names@[i])@ != (
            #[trigger] self.request.node_names@[j])@
    }

    /// Whether the rows of a batch are as far as its course: a row for each node in the order of
    /// the request, none open before the next node, and results with successful tests alone.
    pub open spec fn in_step(self, jobs: Seq<BatchView>) -> bool {
        &&& job_of(jobs, self.job_id) is Some
        &&& {
            let rows = job_of(jobs, self.job_id)->0.rows;
            &&& rows.len() == self.request.node_names@.len()
            &&& forall|i: int|
                0 <= i < rows.len() ==> (#[trigger] rows[i]).node_name == self.request.node_names@[i]@
                    && result_fits(rows[i]) && (i < self.next ==> !row_open(rows[i]))
        }
    }
}

proof fn lemma_statuses()
    ensures
        "queued"@ != "success"@,
        "queued"@ != "failed"@,
        "testing"@ != "success"@,
        "testing"@ != "failed"@,
        "failed"@ != "success"@,
        "cancelled"@ != "success"@,
        "cancelled"@ != "queued"@,
        "cancelled"@ != "testing"@,
{
    reveal_strlit("queued");
    reveal_strlit("testing");
    reveal_strlit("failed");
    reveal_strlit("success");
    reveal_strlit("cancelled");
    assert("queued"@[0] == 'q');
    assert("testing"@[0] == 't');
    assert("failed"@[0] == 'f');
    assert("success"@[0] == 's');
    assert("cancelled"@[0] == 'c');
}

/// A new batch is in step with a course that has passed no node yet.
pub proof fn law_courses_begin_in_step(run: RunView, jobs: Seq<BatchView>)
    requires
        run.next == 0,
    ensures
        run.in_step(
            with_job(jobs, fresh_batch(run.job_id, run.request.mode, texts(run.request.node_names@))),
        ),
{
    let batch = fresh_batch(run.job_id, run.request.mode, texts(run.request.node_names@));
    law_batches_leave_each_other_alone(jobs, batch, run.job_id);
    lemma_statuses();
}

proof fn lemma_row_keeps_step(
    run: RunView,
    jobs: Seq<BatchView>,
    status: Seq<char>,
    error: Option<Seq<char>>,
    result: Option<SpeedTestResult>,
)
    requires
        run.valid(),
        run.awaits_node(),
        run.names_differ(),
        run.in_step(jobs),
        result is Some <==> status == "success"@,
    ensures
        run.in_step(run.row_changed(jobs, status, error, result)),
        status != "queued"@ && status != "testing"@ ==> run.past_node().in_step(
            run.row_changed(jobs, status, error, result),
        ),
{
    let batch = job_of(jobs, run.job_id)->0;
    let name = run.next_name();
    let changed = BatchView { rows: with_row(batch.rows, name, status, error, result), ..batch };
    lemma_changed_batch(jobs, run.job_id, name, status, error, result, false);
    law_batches_leave_each_other_alone(jobs, changed, run.job_id);
    assert forall|i: int| 0 <= i < run.next implies (#[trigger] batch.rows[i]).node_name != name by {
        assert(run.request.node_names@[i]@ != run.request.node_names@[run.next]@);
    }
    assert(batch.rows[run.next].node_name == name);
    lemma_row_at(batch.rows, name, run.next);
    assert forall|i: int| 0 <= i < changed.rows.len() implies (#[trigger] changed.rows[i]).node_name
        == run.request.node_names@[i]@ && result_fits(changed.rows[i]) && (i < run.next ==> !row_open(
        changed.rows[i],
    )) by {
        assert(result_fits(batch.rows[i]));
    }
}

/// Every step of a course keeps the rows in step with it: marking the next node as being tested,
/// noting its failure, and noting its result.
pub proof fn law_courses_stay_in_step(
    run: RunView,
    jobs: Seq<BatchView>,
    error: Seq<char>,
    result: SpeedTestResult,
)
    requires
        run.valid(),
        run.awaits_node(),
        run.names_differ(),
        run.in_step(jobs),
    ensures
        run.in_step(run.row_changed(jobs, "testing"@, None, None)),
        run.past_node().in_step(run.row_changed(jobs, "failed"@, Some(error), None)),
        run.past_node().in_step(run.row_changed(jobs, "success"@, None, Some(result))),
{
    lemma_statuses();
    lemma_row_keeps_step(run, jobs, "testing"@, None, None);
    lemma_row_keeps_step(run, jobs, "failed"@, Some(error), None);
    lemma_row_keeps_step(run, jobs, "success"@, None, Some(result));
}

/// When a batch ends, only its successful rows have a result; and where its course reached the
/// last node, no row is open, even without an error or a cancellation.
pub proof fn law_complete_batches_leave_nothing_open(
    run: RunView,
    jobs: Seq<BatchView>,
    error: Option<Seq<char>>,
    cancelled: bool,
    i: int,
)
    requires
        run.valid(),
        run.in_step(jobs),
        0 <= i < run.request.node_names@.len(),
    ensures
        ({
            let ended = job_of(with_job_ended(jobs, run.job_id, error, cancelled), run.job_id);
            &&& ended is Some
            &&& !ended->0.running
            &&& ended->0.rows.len() == run.request.node_names@.len()
            &&& result_fits(ended->0.rows[i])
            &&& !run.awaits_node() || error is Some || cancelled ==> !row_open(ended->0.rows[i])
        }),
{
    let batch = job_of(jobs, run.job_id)->0;
    lemma_statuses();
    lemma_changed_batch(jobs, run.job_id, run.next_name(), "testing"@, error, None, cancelled);
    law_batches_leave_each_other_alone(jobs, batch.ended(error, cancelled), run.job_id);
    assert(result_fits(batch.rows[i]));
}

} // verus!
