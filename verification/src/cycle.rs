//! One round of a background queue: profile by profile, node by node.
//!
//! A round is driven from outside: each step says what to do next, and what came of it is handed
//! back. Everything that a round leaves in the tables and in the status is decided here.

use crate::errors::BenchmarkError;
use crate::models::{MeasurementKind, NodeView, StoredNode, text_view};
use crate::outcomes::direction_due;
use crate::schedule::{
    GroupView, NodeGroup, SHORT_RETRY, group_sizes, group_views, keep_profiles,
    law_groups_hold_as_many_nodes, of_profiles, plan_groups, round_groups,
};
use crate::settings::{BenchmarkSettings, SettingsView};
use crate::status::{BenchmarkTaskStatus, ScheduledWorker};
use crate::store::{BenchmarkStore, StoreView, contains_text, knows_node, node_views};
use crate::text::texts;
use vstd::prelude::*;

verus! {

/// The nodes that a queue finds due, with the settings of that moment.
#[derive(Debug)]
pub struct PendingCycle {
    pub worker: ScheduledWorker,
    pub now: i64,
    pub settings: BenchmarkSettings,
    pub nodes: Vec<StoredNode>,
}

/// A round of a queue.
#[derive(Debug)]
pub struct Cycle {
    pub worker: ScheduledWorker,
    /// When the round began.
    pub now: i64,
    pub settings: BenchmarkSettings,
    pub groups: Vec<NodeGroup>,
    /// The group that is at work or comes next.
    pub group: usize,
    /// Whether the nodes of that group are being tested.
    pub open: bool,
    /// The name of the profile of that group, once it was prepared.
    pub profile_name: Option<String>,
    /// The nodes that the running core offers.
    pub available: Vec<String>,
    /// The node that comes next in an open group.
    pub node: usize,
    pub completed: usize,
    pub total: usize,
    /// Whether the source of downloads answers without a node, once that was tried.
    pub download_source: Option<bool>,
    /// Whether the target of uploads answers without a node, once that was tried.
    pub upload_source: Option<bool>,
}

/// What a round stands for.
#[verifier::ext_equal]
pub struct CycleView {
    pub worker: ScheduledWorker,
    pub now: i64,
    pub settings: SettingsView,
    pub groups: Seq<GroupView>,
    pub group: int,
    pub open: bool,
    pub profile_name: Option<Seq<char>>,
    pub available: Seq<Seq<char>>,
    pub node: int,
    pub completed: int,
    pub total: int,
    pub download_source: Option<bool>,
    pub upload_source: Option<bool>,
}

impl View for Cycle {
    type V = CycleView;

    open spec fn view(&self) -> CycleView {
        CycleView {
            worker: self.worker,
            now: self.now,
            settings: self.settings@,
            groups: group_views(self.groups@),
            group: self.group as int,
            open: self.open,
            profile_name: text_view(self.profile_name),
            available: texts(self.available@),
            node: self.node as int,
            completed: self.completed as int,
            total: self.total as int,
            download_source: self.download_source,
            upload_source: self.upload_source,
        }
    }
}

/// What a round asks for.
#[derive(Debug)]
pub enum CycleStep {
    /// The profile is to be prepared, its core to be started and the nodes to be listed.
    Prepare { profile_uid: String },
    /// The node is to be tested.
    Test { node: StoredNode },
    /// A node was passed over.
    Skipped,
    /// The core of the group is needed no longer.
    Closed,
    /// The round is over.
    Finished,
}

/// How far the preparation of a group had come when it failed.
#[derive(Debug, Clone, Copy, PartialEq, Eq, Structural)]
pub enum PreparationStep {
    Profile,
    Core,
    Nodes,
}

/// The words before the reason for which a preparation failed.
pub open spec fn complaint(worker: ScheduledWorker, step: PreparationStep) -> Seq<char> {
    match (worker, step) {
        (ScheduledWorker::Latency, PreparationStep::Profile) => "无法准备订阅延迟测试："@,
        (ScheduledWorker::Latency, PreparationStep::Core) => "独立延迟内核启动失败："@,
        (ScheduledWorker::Latency, PreparationStep::Nodes) => "无法读取独立延迟节点："@,
        (ScheduledWorker::Speed, PreparationStep::Profile) => "无法准备订阅速度测试："@,
        (ScheduledWorker::Speed, PreparationStep::Core) => "独立速度内核启动失败："@,
        (ScheduledWorker::Speed, PreparationStep::Nodes) => "无法读取独立速度节点："@,
    }
}

fn complaint_text(worker: ScheduledWorker, step: PreparationStep) -> (text: &'static str)
    ensures
        text@ == complaint(worker, step),
{
    match (worker, step) {
        (ScheduledWorker::Latency, PreparationStep::Profile) => "无法准备订阅延迟测试：",
        (ScheduledWorker::Latency, PreparationStep::Core) => "独立延迟内核启动失败：",
        (ScheduledWorker::Latency, PreparationStep::Nodes) => "无法读取独立延迟节点：",
        (ScheduledWorker::Speed, PreparationStep::Profile) => "无法准备订阅速度测试：",
        (ScheduledWorker::Speed, PreparationStep::Core) => "独立速度内核启动失败：",
        (ScheduledWorker::Speed, PreparationStep::Nodes) => "无法读取独立速度节点：",
    }
}

impl StoreView {
    /// The due nodes of a queue among those of some profiles.
    pub open spec fn due_nodes(
        self,
        worker: ScheduledWorker,
        now: i64,
        profile_uids: Seq<Seq<char>>,
    ) -> Seq<NodeView> {
        of_profiles(
            match worker {
                ScheduledWorker::Latency => self.due_latency_nodes(now),
                ScheduledWorker::Speed => self.due_speed_nodes(now),
            },
            profile_uids,
        )
    }
}

/// The phase in which a queue begins.
pub open spec fn first_phase(worker: ScheduledWorker) -> Seq<char> {
    match worker {
        ScheduledWorker::Latency => "preparing"@,
        ScheduledWorker::Speed => "checkingNetwork"@,
    }
}

/// Looks for due nodes of a queue; nothing is due while the ranking is stopped.
pub fn find_due(
    store: &BenchmarkStore,
    status: &mut BenchmarkTaskStatus,
    worker: ScheduledWorker,
    now: i64,
) -> (result: Result<Option<PendingCycle>, BenchmarkError>)
    ensures
        ({
            let settings = store@.current_settings();
            let due = store@.due_nodes(worker, now, settings.selected_profile_uids);
            match result {
                Err(error) => {
                    &&& !store@.settings_sound()
                    &&& store@.settings_refused(error)
                    &&& final(status)@ == old(status)@
                },
                Ok(None) => {
                    &&& store@.settings_sound()
                    &&& !settings.enabled || due.len() == 0
                    &&& final(status)@ == old(status)@
                },
                Ok(Some(pending)) => {
                    &&& store@.settings_sound()
                    &&& settings.enabled
                    &&& due.len() > 0
                    &&& pending.worker == worker
                    &&& pending.now == now
                    &&& pending.settings@ == settings
                    &&& node_views(pending.nodes@) == due
                    &&& final(status)@ == old(status)@.at_work(
                        worker,
                        first_phase(worker),
                        None,
                        None,
                        0,
                        due.len() as usize,
                        None,
                    )
                },
            }
        }),
{
    let settings = match store.load_settings() {
        Ok(settings) => settings,
        Err(error) => {
            return Err(error);
        },
    };
    if !settings.enabled {
        return Ok(None);
    }
    let (all, phase) = match worker {
        ScheduledWorker::Latency => (store.due_latency_nodes(now), "preparing"),
        ScheduledWorker::Speed => (store.due_speed_nodes(now), "checkingNetwork"),
    };
    let nodes = keep_profiles(&all, &settings.selected_profile_uids);
    assert(node_views(nodes@).len() == nodes@.len());
    if nodes.len() == 0 {
        return Ok(None);
    }
    status.set_worker_status(worker, phase, None, None, 0, nodes.len(), None);
    Ok(Some(PendingCycle { worker, now, settings, nodes }))
}

/// What came of the attempt to begin a round.
#[derive(Debug)]
pub enum CycleStart {
    /// The round is over before it began.
    Ended { completed: usize, total: usize },
    Running(Cycle),
}

/// The number of the next round; after the largest number comes zero.
pub open spec fn next_round(round: u64) -> u64 {
    if round == u64::MAX {
        0
    } else {
        (round + 1) as u64
    }
}

/// The first state of a round.
pub open spec fn fresh_cycle(
    worker: ScheduledWorker,
    now: i64,
    settings: SettingsView,
    nodes: Seq<NodeView>,
    round: u64,
) -> CycleView {
    CycleView {
        worker,
        now,
        settings,
        groups: round_groups(nodes, round),
        group: 0,
        open: false,
        profile_name: None,
        available: Seq::empty(),
        node: 0,
        completed: 0,
        total: nodes.len() as int,
        download_source: None,
        upload_source: None,
    }
}

/// Begins a round. The speed queue gives way to a busy line, and then all due directions are put
/// off; it does not begin at all once it was cancelled.
pub fn open_cycle(
    store: &mut BenchmarkStore,
    pending: PendingCycle,
    round: &mut u64,
    line_busy: bool,
    cancelled: bool,
) -> (start: CycleStart)
    requires
        old(store)@.valid(),
        pending.now + SHORT_RETRY <= i64::MAX,
    ensures
        final(store)@.valid(),
        if pending.worker == ScheduledWorker::Speed && line_busy {
            &&& start == (CycleStart::Ended { completed: pending.nodes.len(), total: pending.nodes.len() })
            &&& final(store)@ == old(store)@.after_delays(
                ScheduledWorker::Speed,
                node_views(pending.nodes@),
                pending.now,
                (pending.now + SHORT_RETRY) as i64,
            )
            &&& *final(round) == *old(round)
        } else if pending.worker == ScheduledWorker::Speed && cancelled {
            &&& start == (CycleStart::Ended { completed: 0, total: pending.nodes.len() })
            &&& final(store)@ == old(store)@
            &&& *final(round) == *old(round)
        } else {
            &&& final(store)@ == old(store)@
            &&& *final(round) == next_round(*old(round))
            &&& start matches CycleStart::Running(cycle)
            &&& cycle@ == fresh_cycle(
                pending.worker,
                pending.now,
                pending.settings@,
                node_views(pending.nodes@),
                *old(round),
            )
            &&& cycle@.valid()
        },
{
    let total: usize = pending.nodes.len();
    if pending.worker == ScheduledWorker::Speed {
        if line_busy {
            store.defer_nodes(
                ScheduledWorker::Speed,
                pending.nodes.as_slice(),
                pending.now,
                pending.now + SHORT_RETRY,
            );
            return CycleStart::Ended { completed: total, total };
        }
        if cancelled {
            return CycleStart::Ended { completed: 0, total };
        }
    }
    let this_round: u64 = *round;
    *round = if this_round == u64::MAX {
        0
    } else {
        this_round + 1
    };
    let groups = plan_groups(&pending.nodes, this_round);
    let cycle = Cycle {
        worker: pending.worker,
        now: pending.now,
        settings: pending.settings,
        groups,
        group: 0,
        open: false,
        profile_name: None,
        available: Vec::new(),
        node: 0,
        completed: 0,
        total,
        download_source: None,
        upload_source: None,
    };
    proof {
        law_groups_hold_as_many_nodes(node_views(pending.nodes@), this_round);
        assert(cycle@ =~= fresh_cycle(
            pending.worker,
            pending.now,
            pending.settings@,
            node_views(pending.nodes@),
            this_round,
        ));
        assert(cycle@.groups.skip(0) =~= cycle@.groups);
    }
    CycleStart::Running(cycle)
}

impl CycleView {
    /// The nodes that were not passed yet.
    pub open spec fn left(self) -> int {
        group_sizes(self.groups.skip(self.group)) - if self.open {
            self.node
        } else {
            0
        }
    }

    /// What holds of a round at all times: its place lies within the groups, and never more nodes
    /// are passed than were due.
    pub open spec fn valid(self) -> bool {
        &&& 0 <= self.group <= self.groups.len()
        &&& self.open ==> self.group < self.groups.len() && 0 <= self.node <= self.groups[self.group].nodes.len()
        &&& 0 <= self.completed
        &&& self.completed + self.left() <= self.total
        &&& self.now + SHORT_RETRY <= i64::MAX
    }

    /// Whether a group waits for its preparation.
    pub open spec fn awaits_group(self) -> bool {
        !self.open && self.group < self.groups.len()
    }

    /// Whether a node is to be tested.
    pub open spec fn awaits_node(self) -> bool {
        self.open && self.node < self.groups[self.group].nodes.len()
    }

    /// The node that comes next.
    pub open spec fn next_node(self) -> NodeView {
        self.groups[self.group].nodes[self.node]
    }

    /// The round after a node was passed.
    pub open spec fn past_node(self) -> CycleView {
        CycleView { node: self.node + 1, completed: self.completed + 1, ..self }
    }

    /// The round after a group was left.
    pub open spec fn past_group(self) -> CycleView {
        CycleView { group: self.group + 1, open: false, profile_name: None, node: 0, ..self }
    }

    /// The round after a group could not be prepared: its nodes count as passed.
    pub open spec fn without_group(self) -> CycleView {
        CycleView { completed: self.completed + self.groups[self.group].nodes.len(), ..self.past_group() }
    }

    /// The round once the nodes of a group can be tested.
    pub open spec fn with_group_open(self, available: Seq<Seq<char>>) -> CycleView {
        CycleView {
            open: true,
            node: 0,
            available,
            download_source: None,
            upload_source: None,
            ..self
        }
    }

    /// The name under which a failed preparation is reported: that of the prepared profile, or the
    /// one that the first node knows.
    pub open spec fn group_name(self) -> Option<Seq<char>> {
        match self.profile_name {
            Some(name) => Some(name),
            None => if self.groups[self.group].nodes.len() > 0 {
                Some(self.groups[self.group].nodes[0].profile_name)
            } else {
                None
            },
        }
    }

    /// What is known of the source of a direction.
    pub open spec fn source_view(self, kind: MeasurementKind) -> Option<bool> {
        match kind {
            MeasurementKind::Upload => self.upload_source,
            _ => self.download_source,
        }
    }
}

/// To pass a group is to pass all of its nodes.
proof fn lemma_group_passed(groups: Seq<GroupView>, at: int)
    requires
        0 <= at < groups.len(),
    ensures
        group_sizes(groups.skip(at)) == groups[at].nodes.len() + group_sizes(groups.skip(at + 1)),
        group_sizes(groups.skip(at + 1)) >= 0,
    decreases groups.len() - at,
{
    assert(groups.skip(at).drop_first() =~= groups.skip(at + 1));
    if at + 1 < groups.len() {
        lemma_group_passed(groups, at + 1);
    }
}

impl Cycle {
    /// The next step of the round. Nodes that the core does not offer are passed over: their
    /// latency test is put off, and their speed tests fail without counting.
    pub fn advance(&mut self, store: &mut BenchmarkStore, cancelled: bool) -> (result: Result<
        CycleStep,
        BenchmarkError,
    >)
        requires
            old(self)@.valid(),
            old(store)@.valid(),
        ensures
            final(self)@.valid(),
            final(store)@.valid(),
            ({
                let cycle = old(self)@;
                let tables = old(store)@;
                if cycle.open {
                    if cancelled || !cycle.awaits_node() {
                        &&& result == Ok::<CycleStep, BenchmarkError>(CycleStep::Closed)
                        &&& final(self)@ == cycle.past_group()
                        &&& final(store)@ == tables
                    } else if cycle.available.contains(cycle.next_node().node_name) {
                        &&& result matches Ok(CycleStep::Test { node })
                        &&& node@ == cycle.next_node()
                        &&& final(self)@ == cycle
                        &&& final(store)@ == tables
                    } else if cycle.worker == ScheduledWorker::Latency {
                        &&& result == Ok::<CycleStep, BenchmarkError>(CycleStep::Skipped)
                        &&& final(self)@ == cycle.past_node()
                        &&& final(store)@ == tables.after_delay(
                            ScheduledWorker::Latency,
                            cycle.next_node(),
                            cycle.now,
                            (cycle.now + SHORT_RETRY) as i64,
                        )
                    } else {
                        unstarted(
                            cycle,
                            tables,
                            final(self)@,
                            final(store)@,
                            "独立测速配置中找不到该节点"@,
                            match result {
                                Ok(_) => None,
                                Err(error) => Some(error),
                            },
                        ) && (result is Ok ==> result->Ok_0 is Skipped)
                    }
                } else if cancelled || cycle.group >= cycle.groups.len() {
                    &&& result == Ok::<CycleStep, BenchmarkError>(CycleStep::Finished)
                    &&& final(self)@ == cycle
                    &&& final(store)@ == tables
                } else {
                    &&& result matches Ok(CycleStep::Prepare { profile_uid })
                    &&& profile_uid@ == cycle.groups[cycle.group].profile_uid
                    &&& final(self)@ == cycle
                    &&& final(store)@ == tables
                }
            }),
    {
        let ghost cycle = self@;
        if !self.open {
            if cancelled || self.group >= self.groups.len() {
                return Ok(CycleStep::Finished);
            }
            assert(cycle.groups[cycle.group] == self.groups@[self.group as int]@);
            return Ok(CycleStep::Prepare { profile_uid: self.groups[self.group].profile_uid.clone() });
        }
        assert(cycle.groups[cycle.group] == self.groups@[self.group as int]@);
        if cancelled || self.node >= self.groups[self.group].nodes.len() {
            proof {
                lemma_group_passed(cycle.groups, cycle.group);
            }
            assert(self.group < self.groups.len());
            self.group = self.group + 1;
            self.open = false;
            self.profile_name = None;
            self.node = 0;
            return Ok(CycleStep::Closed);
        }
        let node = self.groups[self.group].nodes[self.node].clone();
        assert(cycle.next_node() == node@);
        if contains_text(self.available.as_slice(), node.node_name.as_str()) {
            return Ok(CycleStep::Test { node });
        }
        match self.worker {
            ScheduledWorker::Latency => {
                store.defer_latency(node.node_id.as_str(), self.now + SHORT_RETRY);
            },
            ScheduledWorker::Speed => {
                match store.record_scheduled_speed_failure(&node, self.now, "独立测速配置中找不到该节点") {
                    Ok(_) => {},
                    Err(error) => {
                        return Err(error);
                    },
                }
            },
        }
        self.node_done();
        Ok(CycleStep::Skipped)
    }

    /// Notes that a node was dealt with.
    pub fn node_done(&mut self)
        requires
            old(self)@.valid(),
            old(self)@.awaits_node(),
        ensures
            final(self)@ == old(self)@.past_node(),
            final(self)@.valid(),
    {
        let ghost cycle = self@;
        proof {
            assert(cycle.groups[cycle.group] == self.groups@[self.group as int]@);
            lemma_group_passed(cycle.groups, cycle.group);
        }
        assert(self.node < self.groups@[self.group as int].nodes.len());
        self.node = self.node + 1;
        self.completed = self.completed + 1;
    }

    /// Notes that the profile of a group was prepared.
    pub fn group_prepared(&mut self, status: &mut BenchmarkTaskStatus, profile_name: &str)
        requires
            old(self)@.valid(),
            old(self)@.awaits_group(),
        ensures
            final(self)@ == (CycleView { profile_name: Some(profile_name@), ..old(self)@ }),
            final(self)@.valid(),
            final(status)@ == old(status)@.at_work(
                old(self).worker,
                "startingCore"@,
                Some(profile_name@),
                None,
                old(self).completed,
                old(self).total,
                None,
            ),
    {
        self.profile_name = Some(profile_name.to_owned());
        status.set_worker_status(
            self.worker,
            "startingCore",
            Some(profile_name),
            None,
            self.completed,
            self.total,
            None,
        );
    }

    /// Notes that a group could not be prepared: all of its tests are put off.
    pub fn group_failed(
        &mut self,
        store: &mut BenchmarkStore,
        status: &mut BenchmarkTaskStatus,
        step: PreparationStep,
        error: &str,
    )
        requires
            old(self)@.valid(),
            old(self)@.awaits_group(),
            old(store)@.valid(),
        ensures
            final(self)@ == old(self)@.without_group(),
            final(self)@.valid(),
            final(store)@.valid(),
            final(store)@ == old(store)@.after_delays(
                old(self)@.worker,
                old(self)@.groups[old(self)@.group].nodes,
                old(self)@.now,
                (old(self)@.now + SHORT_RETRY) as i64,
            ),
            final(status)@ == old(status)@.at_work(
                old(self)@.worker,
                "startingCore"@,
                old(self)@.group_name(),
                None,
                final(self).completed,
                old(self).total,
                Some(complaint(old(self)@.worker, step) + error@),
            ),
    {
        let ghost cycle = self@;
        proof {
            assert(cycle.groups[cycle.group] == self.groups@[self.group as int]@);
            lemma_group_passed(cycle.groups, cycle.group);
        }
        let message = complaint_text(self.worker, step).to_owned().concat(error);
        store.defer_nodes(
            self.worker,
            self.groups[self.group].nodes.as_slice(),
            self.now,
            self.now + SHORT_RETRY,
        );
        let size: usize = self.groups[self.group].nodes.len();
        let name: Option<String> = match &self.profile_name {
            Some(name) => Some(name.clone()),
            None => if size > 0 {
                assert(cycle.groups[cycle.group].nodes[0] == self.groups@[self.group as int].nodes@[0]@);
                Some(self.groups[self.group].nodes[0].profile_name.clone())
            } else {
                None
            },
        };
        assert(self.group < self.groups.len());
        self.completed = self.completed + size;
        self.group = self.group + 1;
        self.profile_name = None;
        self.node = 0;
        let shown: Option<&str> = match &name {
            Some(name) => Some(name.as_str()),
            None => None,
        };
        status.set_worker_status(
            self.worker,
            "startingCore",
            shown,
            None,
            self.completed,
            self.total,
            Some(message.as_str()),
        );
    }

    /// Notes that the core of a group runs and which nodes it offers.
    pub fn group_opened(&mut self, available: Vec<String>)
        requires
            old(self)@.valid(),
            old(self)@.awaits_group(),
        ensures
            final(self)@ == old(self)@.with_group_open(texts(available@)),
            final(self)@.valid(),
    {
        self.open = true;
        self.node = 0;
        self.available = available;
        self.download_source = None;
        self.upload_source = None;
    }

    /// Notes that the core did not accept a node: its speed tests fail without counting.
    pub fn selection_failed(&mut self, store: &mut BenchmarkStore, node: &StoredNode, error: &str) -> (result: Result<
        (),
        BenchmarkError,
    >)
        requires
            old(self)@.valid(),
            old(self)@.awaits_node(),
            node@ == old(self)@.next_node(),
            old(store)@.valid(),
        ensures
            final(self)@.valid(),
            final(store)@.valid(),
            unstarted(
                old(self)@,
                old(store)@,
                final(self)@,
                final(store)@,
                "临时内核无法选中节点："@ + error@,
                match result {
                    Ok(_) => None,
                    Err(refusal) => Some(refusal),
                },
            ),
    {
        let message = "临时内核无法选中节点：".to_owned().concat(error);
        match store.record_scheduled_speed_failure(node, self.now, message.as_str()) {
            Ok(_) => {},
            Err(refusal) => {
                return Err(refusal);
            },
        }
        self.node_done();
        Ok(())
    }

    /// What is known of the source of a direction.
    pub fn source(&self, kind: MeasurementKind) -> (answers: Option<bool>)
        ensures
            answers == self@.source_view(kind),
    {
        match kind {
            MeasurementKind::Upload => self.upload_source,
            _ => self.download_source,
        }
    }

    /// Notes whether the source of a direction answers without a node.
    pub fn note_source(&mut self, kind: MeasurementKind, answers: bool)
        requires
            old(self)@.valid(),
        ensures
            final(self)@ == match kind {
                MeasurementKind::Upload => CycleView { upload_source: Some(answers), ..old(self)@ },
                _ => CycleView { download_source: Some(answers), ..old(self)@ },
            },
            final(self)@.valid(),
    {
        match kind {
            MeasurementKind::Upload => {
                self.upload_source = Some(answers);
            },
            _ => {
                self.download_source = Some(answers);
            },
        }
    }
}

/// Whether a step dealt with a node whose due speed tests could not be started: it failed where
/// the tables do not know the node, and otherwise the node was passed and the tables tell why.
pub open spec fn unstarted(
    cycle: CycleView,
    tables: StoreView,
    cycle_after: CycleView,
    tables_after: StoreView,
    reason: Seq<char>,
    failure: Option<BenchmarkError>,
) -> bool {
    let node = cycle.next_node();
    let due = direction_due(node, MeasurementKind::Download, cycle.now) || direction_due(
        node,
        MeasurementKind::Upload,
        cycle.now,
    );
    if due && !knows_node(tables.nodes, node.node_id) {
        failure == Some(BenchmarkError::ForeignNode) && cycle_after == cycle && tables_after == tables
    } else {
        failure is None && cycle_after == cycle.past_node() && tables_after == tables.after_false_starts(
            node,
            cycle.now,
            reason,
        )
    }
}

/// How a round ends in the status.
pub open spec fn end_phase(cancelled: bool) -> Seq<char> {
    if cancelled {
        "cancelled"@
    } else {
        "idle"@
    }
}

/// Notes that a round is over.
pub fn finish_cycle(
    status: &mut BenchmarkTaskStatus,
    worker: ScheduledWorker,
    completed: usize,
    total: usize,
    cancelled: bool,
)
    ensures
        final(status)@ == old(status)@.at_rest(worker, completed, total, end_phase(cancelled), None),
{
    status.finish_worker(
        worker,
        completed,
        total,
        if cancelled {
            "cancelled"
        } else {
            "idle"
        },
        None,
    );
}

/// Notes that a round broke off.
pub fn fail_cycle(status: &mut BenchmarkTaskStatus, worker: ScheduledWorker, error: &str)
    ensures
        final(status)@ == old(status)@.at_rest(worker, 0, 0, "failed"@, Some(error@)),
{
    status.finish_worker(worker, 0, 0, "failed", Some(error));
}

/// A round ends: each node that is passed, each group that fails and each group that is left
/// brings it closer to its end.
pub proof fn law_rounds_end(cycle: CycleView)
    requires
        cycle.valid(),
    ensures
        cycle.left() >= 0,
        cycle.awaits_node() ==> cycle.past_node().valid() && cycle.past_node().left() == cycle.left() - 1,
        cycle.awaits_group() ==> cycle.without_group().valid() && cycle.without_group().groups.len()
            - cycle.without_group().group == cycle.groups.len() - cycle.group - 1,
        cycle.open ==> cycle.past_group().valid() && cycle.past_group().groups.len() - cycle.past_group().group
            == cycle.groups.len() - cycle.group - 1,
{
    if cycle.group < cycle.groups.len() {
        lemma_group_passed(cycle.groups, cycle.group);
    } else {
        assert(cycle.groups.skip(cycle.group) =~= Seq::empty());
    }
}

/// A round begins with every due node before it.
pub proof fn law_rounds_begin_with_every_node(
    worker: ScheduledWorker,
    now: i64,
    settings: SettingsView,
    nodes: Seq<NodeView>,
    round: u64,
)
    ensures
        ({
            let cycle = fresh_cycle(worker, now, settings, nodes, round);
            cycle.completed == 0 && cycle.left() == nodes.len() && cycle.total == nodes.len()
        }),
{
    let cycle = fresh_cycle(worker, now, settings, nodes, round);
    law_groups_hold_as_many_nodes(nodes, round);
    assert(cycle.groups.skip(0) =~= cycle.groups);
}

/// While a round leaves no group early, the nodes behind it and those before it make up all due
/// nodes; a round that comes to its end that way has passed every node.
pub proof fn law_finished_rounds_are_complete(cycle: CycleView)
    requires
        cycle.valid(),
        cycle.completed + cycle.left() == cycle.total,
    ensures
        cycle.awaits_node() ==> cycle.past_node().completed + cycle.past_node().left() == cycle.total,
        cycle.awaits_group() ==> cycle.without_group().completed + cycle.without_group().left() == cycle.total,
        cycle.open && !cycle.awaits_node() ==> cycle.past_group().completed + cycle.past_group().left()
            == cycle.total,
        !cycle.open && cycle.group == cycle.groups.len() ==> cycle.completed == cycle.total,
{
    if cycle.group < cycle.groups.len() {
        lemma_group_passed(cycle.groups, cycle.group);
    } else {
        assert(cycle.groups.skip(cycle.group) =~= Seq::empty());
    }
}

} // verus!
