//! The requests of users to the ranking and what they are answered.

use crate::batch::{BatchView, ManualJobs, fresh_batch, job_of, some_running, with_job};
use crate::errors::BenchmarkError;
use crate::models::{
    BenchmarkCandidateNode, BenchmarkPreview, BenchmarkSaveRequest, BenchmarkSnapshot,
    BenchmarkWindow, DiscoveredNode, DiscoveredView, ManualBatchRequest, ManualBatchSnapshot,
    MeasurementRecord, NodeUpdateRequest, NodeView, ParticipationState, ReminderAction, StoredNode,
    text_view,
};
use crate::order::{KeyPart, KeyView, SortKey, arranged, indices, key_views, stable_order};
use crate::queries::{change_views, pair_views, summary_views};
use crate::rankings::{RankingFigures, build_rankings, is_ranking};
use crate::reconcile::discovered_views;
use crate::schedule::{keep_profiles, of_profiles};
use crate::settings::{BenchmarkSettings, SettingsView, refuses};
use crate::status::{BenchmarkTaskStatus, TaskView};
use crate::store::{
    BenchmarkStore, NodeChange, SEVEN_DAYS, StoreView, active_among, active_of_profiles, all_active,
    measurement_records, node_views, reminder_change, with_id,
};
use crate::text::texts;
use crate::traffic::{build_traffic_summary, day_end, day_traffic, summarises, totals_fit};
use vstd::prelude::*;

verus! {

/// How many changes one look at the ranking considers.
pub const SHOWN_CHANGES: usize = 50;

/// The ranking: its tables, what its queues are doing and its manual batches.
#[derive(Debug)]
pub struct BenchmarkManager {
    pub store: BenchmarkStore,
    pub task_status: BenchmarkTaskStatus,
    pub manual_jobs: ManualJobs,
    /// When the profiles were scanned last.
    pub last_scan_at: i64,
    /// How many rounds of tests were begun.
    pub measurement_round: u64,
}

/// What the ranking stands for.
#[verifier::ext_equal]
pub struct ManagerView {
    pub store: StoreView,
    pub task_status: TaskView,
    pub manual_jobs: Seq<BatchView>,
    pub last_scan_at: i64,
    pub measurement_round: u64,
}

impl View for BenchmarkManager {
    type V = ManagerView;

    open spec fn view(&self) -> ManagerView {
        ManagerView {
            store: self.store@,
            task_status: self.task_status@,
            manual_jobs: self.manual_jobs@,
            last_scan_at: self.last_scan_at,
            measurement_round: self.measurement_round,
        }
    }
}

impl SettingsView {
    /// The settings in normal form with the ranking stopped.
    pub open spec fn stopped(self) -> SettingsView {
        SettingsView { enabled: false, ..self.normal() }
    }
}

/// Checks settings that a user wishes: they are brought into normal form, the ranking is stopped,
/// and some profile must be selected.
pub fn check_settings(settings: BenchmarkSettings) -> (result: Result<BenchmarkSettings, BenchmarkError>)
    ensures
        match (result, settings@.refusal()) {
            (Ok(checked), None) => checked@ == settings@.stopped() && checked@.selected_profile_uids.len() > 0,
            (Err(error), None) => settings@.normal().selected_profile_uids.len() == 0 && error
                == BenchmarkError::NoProfileSelected,
            (Err(error), Some((field, refusal))) => refuses(error, field, refusal),
            (Ok(_), Some(_)) => false,
        },
{
    let mut checked = match settings.normalized() {
        Ok(checked) => checked,
        Err(error) => {
            return Err(error);
        },
    };
    checked.enabled = false;
    if checked.selected_profile_uids.len() == 0 {
        return Err(BenchmarkError::NoProfileSelected);
    }
    Ok(checked)
}

/// Checks a wish to store settings and participants: some node must be chosen as well.
pub fn check_request(request: BenchmarkSaveRequest) -> (result: Result<BenchmarkSaveRequest, BenchmarkError>)
    ensures
        ({
            let wished = request.settings@;
            match (result, wished.refusal()) {
                (Ok(checked), None) => {
                    &&& checked.settings@ == wished.stopped()
                    &&& checked.settings@.selected_profile_uids.len() > 0
                    &&& checked.participating_node_ids == request.participating_node_ids
                    &&& request.participating_node_ids@.len() > 0
                },
                (Err(error), None) => if wished.normal().selected_profile_uids.len() == 0 {
                    error == BenchmarkError::NoProfileSelected
                } else {
                    request.participating_node_ids@.len() == 0 && error == BenchmarkError::NoParticipantChosen
                },
                (Err(error), Some((field, refusal))) => refuses(error, field, refusal),
                (Ok(_), Some(_)) => false,
            }
        }),
{
    let settings = match check_settings(request.settings) {
        Ok(settings) => settings,
        Err(error) => {
            return Err(error);
        },
    };
    if request.participating_node_ids.len() == 0 {
        return Err(BenchmarkError::NoParticipantChosen);
    }
    Ok(BenchmarkSaveRequest { settings, participating_node_ids: request.participating_node_ids })
}

/// What a candidate stands for.
pub open spec fn candidate_view(node: BenchmarkCandidateNode) -> DiscoveredView {
    DiscoveredView {
        node_id: node.node_id@,
        profile_uid: node.profile_uid@,
        profile_name: node.profile_name@,
        node_name: node.node_name@,
        node_type: node.node_type@,
        fingerprint: node.fingerprint@,
    }
}

/// What candidates stand for.
pub open spec fn candidate_views(nodes: Seq<BenchmarkCandidateNode>) -> Seq<DiscoveredView> {
    nodes.map_values(|node: BenchmarkCandidateNode| candidate_view(node))
}

/// The key by which candidates are shown: profile name, then node name.
pub open spec fn candidate_key() -> spec_fn(DiscoveredView) -> Seq<KeyView> {
    |node: DiscoveredView| seq![KeyView::Text(node.profile_name), KeyView::Text(node.node_name)]
}

/// The candidates in the order in which they are shown.
pub open spec fn shown_candidates(nodes: Seq<DiscoveredView>) -> Seq<DiscoveredView> {
    arranged(nodes, nodes.map_values(candidate_key()))
}

/// Whether some of the nodes takes part.
pub open spec fn some_participant(nodes: Seq<NodeView>) -> bool {
    exists|i: int| 0 <= i < nodes.len() && (#[trigger] nodes[i]).state == ParticipationState::Participating
}

fn any_participant(nodes: &Vec<StoredNode>) -> (result: bool)
    ensures
        result == some_participant(node_views(nodes@)),
{
    let ghost views = node_views(nodes@);
    for i in 0..nodes.len()
        invariant
            views == node_views(nodes@),
            forall|k: int| 0 <= k < i ==> (#[trigger] views[k]).state != ParticipationState::Participating,
    {
        assert(views[i as int] == nodes@[i as int]@);
        if nodes[i].state == ParticipationState::Participating {
            return true;
        }
    }
    false
}

/// The ids of nodes.
pub open spec fn ids_of(nodes: Seq<NodeView>) -> Seq<Seq<char>> {
    nodes.map_values(|node: NodeView| node.node_id)
}

fn list_ids(nodes: &Vec<StoredNode>) -> (ids: Vec<String>)
    ensures
        texts(ids@) == ids_of(node_views(nodes@)),
{
    let ghost wanted = ids_of(node_views(nodes@));
    let mut ids: Vec<String> = Vec::new();
    for i in 0..nodes.len()
        invariant
            wanted == ids_of(node_views(nodes@)),
            texts(ids@) == wanted.take(i as int),
    {
        let ghost before = ids@;
        assert(node_views(nodes@)[i as int] == nodes@[i as int]@);
        ids.push(nodes[i].node_id.clone());
        assert(texts(ids@) =~= texts(before).push(nodes@[i as int].node_id@));
        assert(wanted.take(i + 1) =~= wanted.take(i as int).push(wanted[i as int]));
    }
    assert(wanted.take(wanted.len() as int) =~= wanted);
    ids
}

impl StoreView {
    /// The active nodes of the selected profiles.
    pub open spec fn selected_active(self) -> Seq<NodeView> {
        of_profiles(self.active_nodes(), self.current_settings().selected_profile_uids)
    }

    /// Why the ranking cannot be started; nothing where it can.
    pub open spec fn start_refusal(self) -> Option<BenchmarkError> {
        let uids = self.current_settings().selected_profile_uids;
        if uids.len() == 0 {
            Some(BenchmarkError::SelectionMissing)
        } else if !self.selection_confirmed(uids) {
            Some(BenchmarkError::SelectionOutdated)
        } else if !some_participant(self.selected_active()) {
            Some(BenchmarkError::NoParticipantStored)
        } else {
            None
        }
    }

    /// The tables with the ranking started or stopped.
    pub open spec fn with_enabled(self, enabled: bool) -> StoreView {
        StoreView { settings: Some(SettingsView { enabled, ..self.current_settings() }), ..self }
    }

    /// Why a wish to change a node is refused; nothing where it is fulfilled.
    pub open spec fn update_refusal(self, request: NodeUpdateRequest) -> Option<BenchmarkError> {
        match request.state {
            Some(state) => if state == ParticipationState::Changed || state == ParticipationState::Removed {
                Some(BenchmarkError::ReservedState)
            } else if !self.has_active(request.node_id@) {
                Some(BenchmarkError::UnknownNode)
            } else {
                None
            },
            None => None,
        }
    }

    /// The tables after a wish to change a node was fulfilled.
    pub open spec fn after_update(self, request: NodeUpdateRequest, now: i64) -> StoreView {
        let decided = match request.state {
            Some(state) => self.after_decision(request.node_id@, state, now),
            None => self,
        };
        match request.reminder_action {
            Some(action) => decided.with_nodes_changed(
                with_id(request.node_id@),
                reminder_change(action, now as int),
            ),
            None => decided,
        }
    }

    /// The tables after all test results were cleared.
    pub open spec fn after_clearing(self, now: i64) -> StoreView {
        (StoreView { measurements: Seq::empty(), ..self }).with_nodes_changed(
            all_active(),
            NodeChange::Restart { now },
        )
    }
}

impl ManagerView {
    /// Why the history cannot be cleared: the ranking runs, or a manual batch does. The first
    /// complaint depends on whether the question was asked before.
    pub open spec fn clearing_refusal(self, again: bool) -> Option<BenchmarkError> {
        if self.store.current_settings().enabled {
            Some(
                if again {
                    BenchmarkError::EnabledAgain
                } else {
                    BenchmarkError::StillEnabled
                },
            )
        } else if some_running(self.manual_jobs) {
            Some(BenchmarkError::ManualBatchRunning)
        } else {
            None
        }
    }
}

/// What one look at the ranking rests on.
#[derive(Debug)]
pub struct SnapshotData {
    pub window: BenchmarkWindow,
    pub now: i64,
    pub settings: BenchmarkSettings,
    pub nodes: Vec<StoredNode>,
    pub measurements: Vec<MeasurementRecord>,
}

/// From when on test results are looked at: all of them for the long-term window, else those of
/// seven days.
pub open spec fn looked_back(window: BenchmarkWindow, now: int) -> int {
    if window == BenchmarkWindow::LongTerm {
        0
    } else {
        now - SEVEN_DAYS
    }
}

/// Whether the data of a look at the ranking is that of the tables.
pub open spec fn is_data_of(data: SnapshotData, store: StoreView, window: BenchmarkWindow, now: i64) -> bool {
    &&& data.window == window
    &&& data.now == now
    &&& data.settings@ == store.current_settings()
    &&& node_views(data.nodes@) == store.selected_active()
    &&& measurement_records(data.measurements@) == store.records_since(
        ids_of(store.selected_active()),
        looked_back(window, now as int) as i64,
    )
}

impl BenchmarkManager {
    /// A ranking with the given tables that has done nothing yet.
    pub fn new(store: BenchmarkStore) -> (manager: BenchmarkManager)
        ensures
            manager@ == (ManagerView {
                store: store@,
                task_status: TaskView::initial(),
                manual_jobs: Seq::empty(),
                last_scan_at: 0,
                measurement_round: 0,
            }),
    {
        BenchmarkManager {
            store,
            task_status: BenchmarkTaskStatus::default(),
            manual_jobs: ManualJobs::new(),
            last_scan_at: 0,
            measurement_round: 0,
        }
    }

    /// The nodes that can be chosen, by profile and name.
    pub fn preview_nodes(settings: BenchmarkSettings, found: &Vec<DiscoveredNode>) -> (preview: BenchmarkPreview)
        ensures
            preview.settings == settings,
            candidate_views(preview.nodes@) == shown_candidates(discovered_views(found@)),
    {
        let ghost views = discovered_views(found@);
        let ghost wanted_keys = views.map_values(candidate_key());
        let mut keys: Vec<SortKey> = Vec::new();
        for i in 0..found.len()
            invariant
                views == discovered_views(found@),
                wanted_keys == views.map_values(candidate_key()),
                keys.len() == i,
                key_views(keys@) == wanted_keys.take(i as int),
        {
            let node = &found[i];
            let mut parts: Vec<KeyPart> = Vec::new();
            parts.push(KeyPart::text(node.profile_name.as_str()));
            parts.push(KeyPart::text(node.node_name.as_str()));
            let key = SortKey { parts };
            let ghost before = keys@;
            assert(views[i as int] == node@);
            assert(key@ =~= wanted_keys[i as int]);
            keys.push(key);
            assert(key_views(keys@) =~= key_views(before).push(key@));
            assert(wanted_keys.take(i + 1) =~= wanted_keys.take(i as int).push(wanted_keys[i as int]));
        }
        assert(wanted_keys.take(wanted_keys.len() as int) =~= wanted_keys);
        let order = stable_order(&keys);
        let ghost wanted = shown_candidates(views);
        let mut nodes: Vec<BenchmarkCandidateNode> = Vec::new();
        for i in 0..order.len()
            invariant
                order.len() == found.len(),
                views == discovered_views(found@),
                wanted == indices(order@).map_values(|i: int| views[i]),
                forall|k: int| 0 <= k < order.len() ==> #[trigger] order@[k] < found.len(),
                candidate_views(nodes@) == wanted.take(i as int),
        {
            let node = &found[order[i]];
            let candidate = BenchmarkCandidateNode {
                node_id: node.node_id.clone(),
                profile_uid: node.profile_uid.clone(),
                profile_name: node.profile_name.clone(),
                node_name: node.node_name.clone(),
                node_type: node.node_type.clone(),
                fingerprint: node.fingerprint.clone(),
            };
            let ghost before = nodes@;
            assert(indices(order@)[i as int] == order@[i as int]);
            assert(wanted[i as int] == views[order@[i as int] as int]);
            assert(candidate_view(candidate) == node@);
            nodes.push(candidate);
            assert(candidate_views(nodes@) =~= candidate_views(before).push(candidate_view(candidate)));
            assert(wanted.take(i + 1) =~= wanted.take(i as int).push(wanted[i as int]));
        }
        assert(wanted.take(wanted.len() as int) =~= wanted);
        BenchmarkPreview { settings, nodes }
    }

    /// Stores settings that were checked.
    pub fn save_settings(&mut self, settings: &BenchmarkSettings)
        requires
            old(self)@.store.valid(),
        ensures
            final(self)@.store.valid(),
            final(self)@ == (ManagerView {
                store: StoreView { settings: Some(settings@), ..old(self)@.store },
                ..old(self)@
            }),
    {
        self.store.save_settings(settings);
    }

    /// Confirms the chosen participants of the selected profiles. Afterwards the selection counts
    /// as confirmed.
    pub fn confirm_selection(&mut self, request: &BenchmarkSaveRequest, now: i64) -> (result: Result<
        (),
        BenchmarkError,
    >)
        requires
            old(self)@.store.valid(),
        ensures
            final(self)@.store.valid(),
            ({
                let uids = request.settings@.selected_profile_uids;
                let participants = texts(request.participating_node_ids@);
                match (result, old(self)@.store.selection_refusal(uids, participants)) {
                    (Ok(_), None) => final(self)@ == (ManagerView {
                        store: old(self)@.store.after_confirmation(uids, participants, now),
                        ..old(self)@
                    }) && final(self)@.store.selection_confirmed(uids),
                    (Err(error), Some(refusal)) => error == refusal && final(self)@ == old(self)@,
                    _ => false,
                }
            }),
    {
        let ghost given = self@.store;
        let ghost uids = request.settings@.selected_profile_uids;
        let ghost participants = texts(request.participating_node_ids@);
        match self.store.confirm_participating_nodes(
            request.settings.selected_profile_uids.as_slice(),
            request.participating_node_ids.as_slice(),
            now,
        ) {
            Ok(_) => {},
            Err(error) => {
                return Err(error);
            },
        }
        proof {
            law_confirmation_confirms(given, uids, participants, now);
        }
        if !self.store.node_selection_confirmed(request.settings.selected_profile_uids.as_slice()) {
            return Err(BenchmarkError::SelectionIncomplete);
        }
        Ok(())
    }

    /// Starts the ranking: a confirmed selection with some participant must be stored.
    pub fn start_scheduled(&mut self) -> (result: Result<(), BenchmarkError>)
        requires
            old(self)@.store.valid(),
        ensures
            final(self)@.store.valid(),
            if !old(self)@.store.settings_sound() {
                &&& result matches Err(error)
                &&& old(self)@.store.settings_refused(error)
                &&& final(self)@ == old(self)@
            } else {
                match (result, old(self)@.store.start_refusal()) {
                    (Ok(_), None) => final(self)@ == (ManagerView {
                        store: old(self)@.store.with_enabled(true),
                        ..old(self)@
                    }),
                    (Err(error), Some(refusal)) => error == refusal && final(self)@ == old(self)@,
                    _ => false,
                }
            },
    {
        let mut settings = match self.store.load_settings() {
            Ok(settings) => settings,
            Err(error) => {
                return Err(error);
            },
        };
        if settings.selected_profile_uids.len() == 0 {
            return Err(BenchmarkError::SelectionMissing);
        }
        if !self.store.node_selection_confirmed(settings.selected_profile_uids.as_slice()) {
            return Err(BenchmarkError::SelectionOutdated);
        }
        let nodes = keep_profiles(&self.store.active_nodes(), &settings.selected_profile_uids);
        if !any_participant(&nodes) {
            return Err(BenchmarkError::NoParticipantStored);
        }
        settings.enabled = true;
        self.store.save_settings(&settings);
        Ok(())
    }

    /// Stops the ranking; settings and results stay.
    pub fn pause_scheduled(&mut self) -> (result: Result<(), BenchmarkError>)
        requires
            old(self)@.store.valid(),
        ensures
            final(self)@.store.valid(),
            match result {
                Ok(_) => old(self)@.store.settings_sound() && final(self)@ == (ManagerView {
                    store: old(self)@.store.with_enabled(false),
                    ..old(self)@
                }),
                Err(error) => !old(self)@.store.settings_sound() && old(self)@.store.settings_refused(error)
                    && final(self)@ == old(self)@,
            },
    {
        let mut settings = match self.store.load_settings() {
            Ok(settings) => settings,
            Err(error) => {
                return Err(error);
            },
        };
        settings.enabled = false;
        self.store.save_settings(&settings);
        Ok(())
    }

    /// Notes when the profiles were scanned.
    pub fn finish_scan(&mut self, now: i64)
        ensures
            final(self)@ == (ManagerView { last_scan_at: now, ..old(self)@ }),
    {
        self.last_scan_at = now;
    }

    /// Fulfils a wish to change how a node takes part or how it is reminded of.
    pub fn update_node(&mut self, request: &NodeUpdateRequest, now: i64) -> (result: Result<(), BenchmarkError>)
        requires
            old(self)@.store.valid(),
            request.reminder_action == Some(ReminderAction::SnoozeSevenDays) ==> now + SEVEN_DAYS <= i64::MAX,
        ensures
            final(self)@.store.valid(),
            match (result, old(self)@.store.update_refusal(*request)) {
                (Ok(_), None) => final(self)@ == (ManagerView {
                    store: old(self)@.store.after_update(*request, now),
                    ..old(self)@
                }),
                (Err(error), Some(refusal)) => error == refusal && final(self)@ == old(self)@,
                _ => false,
            },
    {
        if let Some(state) = request.state {
            if state == ParticipationState::Changed || state == ParticipationState::Removed {
                return Err(BenchmarkError::ReservedState);
            }
            match self.store.update_node_state(request.node_id.as_str(), state, now) {
                Ok(_) => {},
                Err(error) => {
                    return Err(error);
                },
            }
        }
        if let Some(action) = request.reminder_action {
            self.store.update_reminder(request.node_id.as_str(), action, now);
        }
        Ok(())
    }

    /// Makes all tests of the named nodes due at once.
    pub fn retest_nodes(&mut self, node_ids: &Vec<String>, now: i64) -> (result: Result<(), BenchmarkError>)
        requires
            old(self)@.store.valid(),
        ensures
            final(self)@.store.valid(),
            match result {
                Ok(_) => node_ids@.len() > 0 && final(self)@ == (ManagerView {
                    store: old(self)@.store.with_nodes_changed(
                        active_among(texts(node_ids@)),
                        NodeChange::MakeDue { now },
                    ),
                    ..old(self)@
                }),
                Err(error) => node_ids@.len() == 0 && error == BenchmarkError::NoNodeNamed && final(self)@ == old(self)@,
            },
    {
        if node_ids.len() == 0 {
            return Err(BenchmarkError::NoNodeNamed);
        }
        self.store.force_due(node_ids.as_slice(), now);
        Ok(())
    }

    /// Whether the history can be cleared; the answer differs where the question is asked again.
    pub fn may_clear_history(&self, again: bool) -> (result: Result<(), BenchmarkError>)
        ensures
            if !self@.store.settings_sound() {
                result matches Err(error) && self@.store.settings_refused(error)
            } else {
                match (result, self@.clearing_refusal(again)) {
                    (Ok(_), None) => true,
                    (Err(error), Some(refusal)) => error == refusal,
                    _ => false,
                }
            },
    {
        let settings = match self.store.load_settings() {
            Ok(settings) => settings,
            Err(error) => {
                return Err(error);
            },
        };
        if settings.enabled {
            return Err(
                if again {
                    BenchmarkError::EnabledAgain
                } else {
                    BenchmarkError::StillEnabled
                },
            );
        }
        if self.manual_jobs.any_running() {
            return Err(BenchmarkError::ManualBatchRunning);
        }
        Ok(())
    }

    /// Clears all test results, starts the series of every active node over, and returns how many
    /// results there were. The queues must have come to rest since the question was asked first.
    pub fn clear_history(&mut self, now: i64) -> (result: Result<usize, BenchmarkError>)
        requires
            old(self)@.store.valid(),
        ensures
            final(self)@.store.valid(),
            if !old(self)@.store.settings_sound() {
                &&& result matches Err(error)
                &&& old(self)@.store.settings_refused(error)
                &&& final(self)@ == old(self)@
            } else {
                match (result, old(self)@.clearing_refusal(true)) {
                    (Ok(deleted), None) => deleted == old(self)@.store.measurements.len() && final(self)@ == (
                    ManagerView {
                        store: old(self)@.store.after_clearing(now),
                        task_status: TaskView::initial(),
                        ..old(self)@
                    }),
                    (Err(error), Some(refusal)) => error == refusal && final(self)@ == old(self)@,
                    _ => false,
                }
            },
    {
        match self.may_clear_history(true) {
            Ok(_) => {},
            Err(error) => {
                return Err(error);
            },
        }
        let deleted: usize = self.store.clear_measurements(now);
        self.task_status = BenchmarkTaskStatus::default();
        Ok(deleted)
    }

    /// Begins a manual batch: one row for each node, all waiting. The profile is the one of the
    /// request or the one in use; it is returned together with the batch.
    pub fn start_manual_batch(
        &mut self,
        job_id: &str,
        request: &ManualBatchRequest,
        current_profile: Option<String>,
    ) -> (result: Result<(ManualBatchSnapshot, String), BenchmarkError>)
        ensures
            if request.node_names@.len() == 0 {
                &&& result matches Err(error)
                &&& error == BenchmarkError::EmptyBatch
                &&& final(self)@ == old(self)@
            } else if request.profile_uid is None && current_profile is None {
                &&& result matches Err(error)
                &&& error == BenchmarkError::NoCurrentProfile
                &&& final(self)@ == old(self)@
            } else {
                &&& result matches Ok(started)
                &&& started.0@ == fresh_batch(job_id@, request.mode, texts(request.node_names@))
                &&& Some(started.1@) == match request.profile_uid {
                    Some(uid) => Some(uid@),
                    None => text_view(current_profile),
                }
                &&& final(self)@ == (ManagerView {
                    manual_jobs: with_job(old(self)@.manual_jobs, started.0@),
                    ..old(self)@
                })
            },
    {
        self.manual_jobs.start_manual_batch(job_id, request, current_profile)
    }

    /// The progress of a manual batch.
    pub fn manual_batch(&self, job_id: &str) -> (result: Result<ManualBatchSnapshot, BenchmarkError>)
        ensures
            match (result, job_of(self@.manual_jobs, job_id@)) {
                (Ok(snapshot), Some(job)) => snapshot@ == job,
                (Err(error), None) => error == BenchmarkError::UnknownBatch,
                _ => false,
            },
    {
        self.manual_jobs.manual_batch(job_id)
    }

    /// Whether a manual batch can be cancelled: it must still run.
    pub fn cancel_manual_batch(&self, job_id: &str) -> (result: Result<(), BenchmarkError>)
        ensures
            match (result, job_of(self@.manual_jobs, job_id@)) {
                (Ok(_), Some(job)) => job.running,
                (Err(error), Some(job)) => !job.running && error == BenchmarkError::UnknownBatchToCancel,
                (Err(error), None) => error == BenchmarkError::UnknownBatchToCancel,
                (Ok(_), None) => false,
            },
    {
        self.manual_jobs.cancel_manual_batch(job_id)
    }

    /// What a look at the ranking rests on.
    pub fn snapshot_data(&self, window: BenchmarkWindow, now: i64) -> (result: Result<SnapshotData, BenchmarkError>)
        requires
            now - SEVEN_DAYS >= i64::MIN,
        ensures
            match result {
                Ok(data) => {
                    &&& self@.store.settings_sound()
                    &&& is_data_of(data, self@.store, window, now)
                    &&& data.settings.speed_interval_hours <= 168
                },
                Err(error) => !self@.store.settings_sound() && self@.store.settings_refused(error),
            },
    {
        let settings = match self.store.load_settings() {
            Ok(settings) => settings,
            Err(error) => {
                return Err(error);
            },
        };
        let nodes = keep_profiles(&self.store.active_nodes(), &settings.selected_profile_uids);
        let start: i64 = if window == BenchmarkWindow::LongTerm {
            0
        } else {
            now - SEVEN_DAYS
        };
        let ids = list_ids(&nodes);
        let measurements = self.store.measurements_for_nodes_since(ids.as_slice(), start);
        Ok(SnapshotData { window, now, settings, nodes, measurements })
    }

    /// One look at the ranking, given the figures of its nodes, the profiles of the configuration
    /// and the bounds of the day.
    pub fn snapshot(
        &self,
        data: SnapshotData,
        figures: &RankingFigures,
        available: &[(String, String)],
        day_start: i64,
        seconds_until_day_end: u64,
    ) -> (result: Result<BenchmarkSnapshot, BenchmarkError>)
        requires
            figures.shown@.len() == data.nodes@.len(),
            figures.day@.len() == data.nodes@.len(),
            data.nodes@.len() * 3 + 3 <= usize::MAX,
            data.now - SEVEN_DAYS >= i64::MIN,
            data.settings.speed_interval_hours * 3_600 <= i64::MAX,
        ensures
            match self@.store.traffic_by_profile(day_start) {
                Err(refusal) => result matches Err(error) && error == refusal,
                Ok(used) => {
                    let nodes = node_views(data.nodes@);
                    let records = measurement_records(data.measurements@);
                    let settings = data.settings@;
                    let traffic = day_traffic(
                        nodes,
                        records,
                        used,
                        settings,
                        data.now as int,
                        day_end(data.now as int, seconds_until_day_end),
                    );
                    match result {
                        Err(error) => error == BenchmarkError::TrafficOverflow && !totals_fit(traffic),
                        Ok(snapshot) => {
                            &&& totals_fit(traffic)
                            &&& summarises(snapshot.traffic, traffic, settings)
                            &&& is_ranking(
                                snapshot.nodes@,
                                snapshot.champions,
                                snapshot.reminders@,
                                nodes,
                                records,
                                data.window,
                                settings,
                                data.now as int,
                                *figures,
                            )
                            &&& snapshot.settings@ == settings
                            &&& snapshot.selection_confirmed == self@.store.selection_confirmed(
                                settings.selected_profile_uids,
                            )
                            &&& summary_views(snapshot.profiles@) == self@.store.profile_summaries(
                                pair_views(available@),
                                settings,
                            )
                            &&& change_views(snapshot.changes@) == self@.store.recent_changes(
                                SHOWN_CHANGES,
                                settings,
                            )
                            &&& snapshot.task@ == self@.task_status
                            &&& snapshot.generated_at == data.now
                        },
                    }
                },
            },
    {
        let used = match self.store.actual_traffic_by_profile_since(day_start) {
            Ok(used) => used,
            Err(error) => {
                return Err(error);
            },
        };
        let (nodes, champions, reminders) = build_rankings(
            data.nodes.as_slice(),
            data.measurements.as_slice(),
            data.window,
            &data.settings,
            data.now,
            figures,
        );
        let traffic = match build_traffic_summary(
            data.nodes.as_slice(),
            data.measurements.as_slice(),
            used.as_slice(),
            &data.settings,
            data.now,
            seconds_until_day_end,
        ) {
            Ok(traffic) => traffic,
            Err(error) => {
                return Err(error);
            },
        };
        let selection_confirmed: bool = self.store.node_selection_confirmed(
            data.settings.selected_profile_uids.as_slice(),
        );
        let profiles = self.store.profile_summaries(available, &data.settings);
        let changes = self.store.recent_changes(SHOWN_CHANGES, &data.settings);
        Ok(
            BenchmarkSnapshot {
                settings: data.settings,
                selection_confirmed,
                profiles,
                nodes,
                champions,
                traffic,
                reminders,
                changes,
                task: self.task_status.clone(),
                generated_at: data.now,
            },
        )
    }
}

/// A selection that was confirmed counts as confirmed: the profiles have nodes, and the user
/// decided on every one of them.
pub proof fn law_confirmation_confirms(
    store: StoreView,
    profile_uids: Seq<Seq<char>>,
    participants: Seq<Seq<char>>,
    now: i64,
)
    requires
        store.selection_refusal(profile_uids, participants) is None,
    ensures
        store.after_confirmation(profile_uids, participants, now).selection_confirmed(profile_uids),
{
    let after = store.after_confirmation(profile_uids, participants, now);
    let i = choose|i: int|
        0 <= i < store.nodes.len() && active_of_profiles(profile_uids)(#[trigger] store.nodes[i]);
    assert(active_of_profiles(profile_uids)(after.nodes[i]));
    assert forall|k: int|
        0 <= k < after.nodes.len() && active_of_profiles(profile_uids)(#[trigger] after.nodes[k]) implies after.nodes[k].node.manual_override by {
        assert(active_of_profiles(profile_uids)(store.nodes[k]));
    }
}

/// To store settings never starts the ranking.
pub proof fn law_stored_settings_do_not_start(store: StoreView, wished: SettingsView)
    ensures
        !(StoreView { settings: Some(wished.stopped()), ..store }).current_settings().enabled,
{
}

/// To stop the ranking keeps all results, nodes, profiles and changes.
pub proof fn law_pausing_keeps_everything_else(store: StoreView)
    ensures
        store.with_enabled(false) == (StoreView { settings: store.with_enabled(false).settings, ..store }),
        !store.with_enabled(false).current_settings().enabled,
{
}

} // verus!
