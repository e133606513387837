//! The tables of the node ranking and every change to them.

use vstd::prelude::*;

use crate::errors::BenchmarkError;
use crate::models::{
    copy_text, text_view, BenchmarkChangeEvent, ChangeView, MeasurementKind, MeasurementRecord, NodeView,
    ParticipationState, RecordView, ReminderAction, StoredNode,
};
use crate::settings::{refuses, BenchmarkSettings, SettingsView};
use crate::text::{same_text, texts};

verus! {

/// What a scan says of a selected profile that is gone.
pub const MISSING_PROFILE_ERROR: &'static str = "所选订阅已从配置列表中移除";

/// Seven days in seconds.
pub const SEVEN_DAYS: i64 = 604_800;

/// What the last scan of a profile found.
#[derive(Debug)]
pub struct ProfileRecord {
    pub profile_uid: String,
    pub profile_name: String,
    pub source_hash: Option<String>,
    pub last_scanned_at: Option<i64>,
    pub scan_error: Option<String>,
}

/// What a profile record stands for.
#[verifier::ext_equal]
pub struct ProfileView {
    pub profile_uid: Seq<char>,
    pub profile_name: Seq<char>,
    pub source_hash: Option<Seq<char>>,
    pub last_scanned_at: Option<i64>,
    pub scan_error: Option<Seq<char>>,
}

impl View for ProfileRecord {
    type V = ProfileView;

    open spec fn view(&self) -> ProfileView {
        ProfileView {
            profile_uid: self.profile_uid@,
            profile_name: self.profile_name@,
            source_hash: text_view(self.source_hash),
            last_scanned_at: self.last_scanned_at,
            scan_error: text_view(self.scan_error),
        }
    }
}

/// A node with the note whether its profile still has it.
#[derive(Debug)]
pub struct NodeRecord {
    pub node: StoredNode,
    pub active: bool,
}

/// What a node record stands for.
#[verifier::ext_equal]
pub struct NodeRecordView {
    pub node: NodeView,
    pub active: bool,
}

impl View for NodeRecord {
    type V = NodeRecordView;

    open spec fn view(&self) -> NodeRecordView {
        NodeRecordView { node: self.node@, active: self.active }
    }
}

/// A change with the note whether it matters to the user.
#[derive(Debug)]
pub struct ChangeRecord {
    pub event: BenchmarkChangeEvent,
    pub relevant: bool,
}

/// What a change record stands for.
#[verifier::ext_equal]
pub struct ChangeRecordView {
    pub event: ChangeView,
    pub relevant: bool,
}

impl View for ChangeRecord {
    type V = ChangeRecordView;

    open spec fn view(&self) -> ChangeRecordView {
        ChangeRecordView { event: self.event@, relevant: self.relevant }
    }
}

/// The tables of the ranking. Rows stand in the order in which they were written.
#[derive(Debug)]
pub struct BenchmarkStore {
    pub settings: Option<BenchmarkSettings>,
    pub profiles: Vec<ProfileRecord>,
    pub nodes: Vec<NodeRecord>,
    pub measurements: Vec<MeasurementRecord>,
    pub changes: Vec<ChangeRecord>,
    /// The number that the latest change got.
    pub last_change_id: i64,
}

/// What the tables stand for.
#[verifier::ext_equal]
pub struct StoreView {
    pub settings: Option<SettingsView>,
    pub profiles: Seq<ProfileView>,
    pub nodes: Seq<NodeRecordView>,
    pub measurements: Seq<RecordView>,
    pub changes: Seq<ChangeRecordView>,
    pub last_change_id: int,
}

/// What a list of node records stands for.
pub open spec fn node_records(nodes: Seq<NodeRecord>) -> Seq<NodeRecordView> {
    nodes.map_values(|record: NodeRecord| record@)
}

/// What stored nodes stand for.
pub open spec fn node_views(nodes: Seq<StoredNode>) -> Seq<NodeView> {
    nodes.map_values(|node: StoredNode| node@)
}

/// What a list of change records stands for.
pub open spec fn change_records(changes: Seq<ChangeRecord>) -> Seq<ChangeRecordView> {
    changes.map_values(|record: ChangeRecord| record@)
}

/// What a list of profile records stands for.
pub open spec fn profile_records(profiles: Seq<ProfileRecord>) -> Seq<ProfileView> {
    profiles.map_values(|record: ProfileRecord| record@)
}

/// What a list of test results stands for.
pub open spec fn measurement_records(records: Seq<MeasurementRecord>) -> Seq<RecordView> {
    records.map_values(|record: MeasurementRecord| record@)
}

/// What optional settings stand for.
pub open spec fn settings_view(settings: Option<BenchmarkSettings>) -> Option<SettingsView> {
    match settings {
        Some(settings) => Some(settings@),
        None => None,
    }
}

impl View for BenchmarkStore {
    type V = StoreView;

    open spec fn view(&self) -> StoreView {
        StoreView {
            settings: settings_view(self.settings),
            profiles: profile_records(self.profiles@),
            nodes: node_records(self.nodes@),
            measurements: measurement_records(self.measurements@),
            changes: change_records(self.changes@),
            last_change_id: self.last_change_id as int,
        }
    }
}

/// Whether some record has the given node id.
pub open spec fn knows_node(nodes: Seq<NodeRecordView>, node_id: Seq<char>) -> bool {
    exists|i: int| 0 <= i < nodes.len() && (#[trigger] nodes[i]).node.node_id == node_id
}

/// Whether no two records have the same node id.
pub open spec fn distinct_nodes(nodes: Seq<NodeRecordView>) -> bool {
    forall|i: int, j: int|
        0 <= i < j < nodes.len() ==> (#[trigger] nodes[i]).node.node_id != (#[trigger] nodes[j]).node.node_id
}

/// Whether no two records are of the same profile.
pub open spec fn distinct_profiles(profiles: Seq<ProfileView>) -> bool {
    forall|i: int, j: int|
        0 <= i < j < profiles.len() ==> (#[trigger] profiles[i]).profile_uid != (
        #[trigger] profiles[j]).profile_uid
}

/// Whether the numbers of changes rise up to the given one.
pub open spec fn rising_changes(changes: Seq<ChangeRecordView>, last: int) -> bool {
    &&& forall|i: int, j: int|
        0 <= i < j < changes.len() ==> (#[trigger] changes[i]).event.id < (#[trigger] changes[j]).event.id
    &&& forall|i: int| 0 <= i < changes.len() ==> (#[trigger] changes[i]).event.id <= last
}

impl StoreView {
    /// Tables without a row.
    pub open spec fn empty() -> StoreView {
        StoreView {
            settings: None,
            profiles: Seq::empty(),
            nodes: Seq::empty(),
            measurements: Seq::empty(),
            changes: Seq::empty(),
            last_change_id: 0,
        }
    }

    /// What holds of the tables at all times: keys are unique, and changes are numbered in rising
    /// order.
    pub open spec fn valid(self) -> bool {
        &&& distinct_nodes(self.nodes)
        &&& distinct_profiles(self.profiles)
        &&& rising_changes(self.changes, self.last_change_id)
    }

    /// Whether every test result belongs to a known node.
    pub open spec fn results_known(self) -> bool {
        forall|i: int|
            0 <= i < self.measurements.len() ==> knows_node(
                self.nodes,
                (#[trigger] self.measurements[i]).node_id,
            )
    }

    /// Whether that many more changes can be numbered.
    pub open spec fn has_room(self, changes: int) -> bool {
        self.last_change_id + changes <= i64::MAX
    }

    /// The tables with one more change.
    pub open spec fn with_change(
        self,
        profile_uid: Seq<char>,
        profile_name: Seq<char>,
        node_name: Option<Seq<char>>,
        change_type: Seq<char>,
        relevant: bool,
        now: i64,
    ) -> StoreView {
        StoreView {
            changes: self.changes.push(
                ChangeRecordView {
                    event: ChangeView {
                        id: (self.last_change_id + 1) as i64,
                        profile_uid,
                        profile_name,
                        node_name,
                        change_type,
                        created_at: now,
                    },
                    relevant,
                },
            ),
            last_change_id: self.last_change_id + 1,
            ..self
        }
    }

    /// The tables with a change to some of the nodes.
    pub open spec fn with_nodes_changed(
        self,
        chosen: spec_fn(NodeRecordView) -> bool,
        change: NodeChange,
    ) -> StoreView {
        StoreView { nodes: changed_nodes(self.nodes, chosen, change), ..self }
    }
}

/// A change to a node.
#[derive(Debug, Clone, Copy)]
pub enum NodeChange {
    /// The profile has the node no longer.
    Retire { now: i64 },
    /// The user decided how the node takes part.
    Decide { state: ParticipationState, now: i64 },
    /// The user answered a reminder.
    Remind { snoozed_until: Option<i64>, ignore: bool },
    /// All tests are due at once.
    MakeDue { now: i64 },
    /// The series of tests starts over.
    Restart { now: i64 },
    /// The next latency test has a time.
    PlanLatency { at: i64 },
    /// The next download test has a time and a stage.
    PlanDownload { stage: u8, at: i64 },
    /// The next upload test has a time and a stage.
    PlanUpload { stage: u8, at: i64 },
    /// The next latency test comes no earlier.
    DelayLatency { at: i64 },
    /// The next download test comes no earlier.
    DelayDownload { at: i64 },
    /// The next upload test comes no earlier.
    DelayUpload { at: i64 },
}

/// The earlier of two times.
pub open spec fn earlier(a: i64, b: i64) -> i64 {
    if a <= b {
        a
    } else {
        b
    }
}

/// The later of two times.
pub open spec fn later(a: i64, b: i64) -> i64 {
    if a >= b {
        a
    } else {
        b
    }
}

/// The lower of two stages.
pub open spec fn lower_stage(a: u8, b: u8) -> u8 {
    if a <= b {
        a
    } else {
        b
    }
}

impl NodeChange {
    /// A node after the change.
    pub open spec fn on(self, record: NodeRecordView) -> NodeRecordView {
        let node = record.node;
        match self {
            NodeChange::Retire { now } => NodeRecordView {
                node: NodeView { state: ParticipationState::Removed, last_seen_at: now, ..node },
                active: false,
            },
            NodeChange::Decide { state, now } => NodeRecordView {
                node: NodeView {
                    state,
                    manual_override: true,
                    next_latency_at: if state == ParticipationState::Participating || state
                        == ParticipationState::Observe {
                        now
                    } else {
                        node.next_latency_at
                    },
                    next_speed_at: if state == ParticipationState::Participating {
                        now
                    } else {
                        node.next_speed_at
                    },
                    next_download_at: if state == ParticipationState::Participating {
                        now
                    } else {
                        node.next_download_at
                    },
                    next_upload_at: if state == ParticipationState::Participating {
                        now
                    } else {
                        node.next_upload_at
                    },
                    ..node
                },
                ..record
            },
            NodeChange::Remind { snoozed_until, ignore } => NodeRecordView {
                node: NodeView { snoozed_until, ignore_reminder: ignore, ..node },
                ..record
            },
            NodeChange::MakeDue { now } => NodeRecordView {
                node: NodeView {
                    next_latency_at: now,
                    next_speed_at: now,
                    next_download_at: now,
                    next_upload_at: now,
                    ..node
                },
                ..record
            },
            NodeChange::Restart { now } => NodeRecordView {
                node: NodeView {
                    bootstrap_stage: 0,
                    download_bootstrap_stage: 0,
                    upload_bootstrap_stage: 0,
                    next_latency_at: now,
                    next_speed_at: now,
                    next_download_at: now,
                    next_upload_at: now,
                    snoozed_until: None,
                    ignore_reminder: false,
                    ..node
                },
                ..record
            },
            NodeChange::PlanLatency { at } => NodeRecordView {
                node: NodeView { next_latency_at: at, ..node },
                ..record
            },
            NodeChange::PlanDownload { stage, at } => NodeRecordView {
                node: NodeView {
                    download_bootstrap_stage: stage,
                    next_download_at: at,
                    bootstrap_stage: lower_stage(stage, node.upload_bootstrap_stage),
                    next_speed_at: earlier(at, node.next_upload_at),
                    ..node
                },
                ..record
            },
            NodeChange::PlanUpload { stage, at } => NodeRecordView {
                node: NodeView {
                    upload_bootstrap_stage: stage,
                    next_upload_at: at,
                    bootstrap_stage: lower_stage(node.download_bootstrap_stage, stage),
                    next_speed_at: earlier(node.next_download_at, at),
                    ..node
                },
                ..record
            },
            NodeChange::DelayLatency { at } => NodeRecordView {
                node: NodeView { next_latency_at: later(node.next_latency_at, at), ..node },
                ..record
            },
            NodeChange::DelayDownload { at } => NodeRecordView {
                node: NodeView {
                    next_download_at: later(node.next_download_at, at),
                    next_speed_at: earlier(later(node.next_download_at, at), node.next_upload_at),
                    ..node
                },
                ..record
            },
            NodeChange::DelayUpload { at } => NodeRecordView {
                node: NodeView {
                    next_upload_at: later(node.next_upload_at, at),
                    next_speed_at: earlier(node.next_download_at, later(node.next_upload_at, at)),
                    ..node
                },
                ..record
            },
        }
    }
}

/// The node records after a change to those that are chosen.
pub open spec fn changed_nodes(
    nodes: Seq<NodeRecordView>,
    chosen: spec_fn(NodeRecordView) -> bool,
    change: NodeChange,
) -> Seq<NodeRecordView> {
    nodes.map_values(
        |record: NodeRecordView|
            if chosen(record) {
                change.on(record)
            } else {
                record
            },
    )
}

/// Chooses the node with an id.
pub open spec fn with_id(node_id: Seq<char>) -> spec_fn(NodeRecordView) -> bool {
    |record: NodeRecordView| record.node.node_id == node_id
}

/// Chooses the node with an id, as long as its profile has it.
pub open spec fn active_with_id(node_id: Seq<char>) -> spec_fn(NodeRecordView) -> bool {
    |record: NodeRecordView| record.active && record.node.node_id == node_id
}

/// Chooses the active nodes with one of the ids.
pub open spec fn active_among(node_ids: Seq<Seq<char>>) -> spec_fn(NodeRecordView) -> bool {
    |record: NodeRecordView| record.active && node_ids.contains(record.node.node_id)
}

/// Chooses the active nodes of a profile.
pub open spec fn active_of_profile(profile_uid: Seq<char>) -> spec_fn(NodeRecordView) -> bool {
    |record: NodeRecordView| record.active && record.node.profile_uid == profile_uid
}

/// Chooses the active nodes of some profiles.
pub open spec fn active_of_profiles(profile_uids: Seq<Seq<char>>) -> spec_fn(NodeRecordView) -> bool {
    |record: NodeRecordView| record.active && profile_uids.contains(record.node.profile_uid)
}

/// Chooses all active nodes.
pub open spec fn all_active() -> spec_fn(NodeRecordView) -> bool {
    |record: NodeRecordView| record.active
}

/// The chosen nodes, in the order of the table.
pub open spec fn selected_nodes(
    nodes: Seq<NodeRecordView>,
    chosen: spec_fn(NodeRecordView) -> bool,
) -> Seq<NodeView>
    decreases nodes.len(),
{
    if nodes.len() == 0 {
        Seq::empty()
    } else {
        let front = selected_nodes(nodes.drop_last(), chosen);
        if chosen(nodes.last()) {
            front.push(nodes.last().node)
        } else {
            front
        }
    }
}

/// Whether a change is about a node: the same profile and the same name.
pub open spec fn concerns(change: ChangeRecordView, record: NodeRecordView) -> bool {
    change.event.profile_uid == record.node.profile_uid && change.event.node_name == Some(
        record.node.node_name,
    )
}

/// Whether a change is about one of the chosen nodes.
pub open spec fn concerns_some(
    change: ChangeRecordView,
    nodes: Seq<NodeRecordView>,
    chosen: spec_fn(NodeRecordView) -> bool,
) -> bool {
    exists|i: int| 0 <= i < nodes.len() && chosen(nodes[i]) && concerns(change, #[trigger] nodes[i])
}

/// The changes after those about chosen nodes ceased to matter.
pub open spec fn silenced(
    changes: Seq<ChangeRecordView>,
    nodes: Seq<NodeRecordView>,
    chosen: spec_fn(NodeRecordView) -> bool,
) -> Seq<ChangeRecordView> {
    changes.map_values(
        |change: ChangeRecordView|
            if concerns_some(change, nodes, chosen) {
                ChangeRecordView { relevant: false, ..change }
            } else {
                change
            },
    )
}

/// Chooses the active nodes that are excluded.
pub open spec fn active_excluded() -> spec_fn(NodeRecordView) -> bool {
    |record: NodeRecordView| record.active && record.node.state == ParticipationState::Excluded
}

/// Whether a list of texts holds a text.
pub fn contains_text(list: &[String], text: &str) -> (found: bool)
    ensures
        found == texts(list@).contains(text@),
{
    for i in 0..list.len()
        invariant
            forall|k: int| 0 <= k < i ==> #[trigger] texts(list@)[k] != text@,
    {
        if same_text(list[i].as_str(), text) {
            assert(texts(list@)[i as int] == text@);
            return true;
        }
        assert(texts(list@)[i as int] == list@[i as int]@);
    }
    false
}

/// An owned copy of an optional text.
pub fn own_text(text: Option<&str>) -> (copy: Option<String>)
    ensures
        text_view(copy) == match text {
            Some(value) => Some(value@),
            None => None,
        },
{
    match text {
        Some(value) => Some(value.to_owned()),
        None => None,
    }
}

/// What a borrowed optional text stands for.
pub open spec fn str_view(text: Option<&str>) -> Option<Seq<char>> {
    match text {
        Some(value) => Some(value@),
        None => None,
    }
}

fn earlier_of(a: i64, b: i64) -> (result: i64)
    ensures
        result == earlier(a, b),
{
    if a <= b {
        a
    } else {
        b
    }
}

fn later_of(a: i64, b: i64) -> (result: i64)
    ensures
        result == later(a, b),
{
    if a >= b {
        a
    } else {
        b
    }
}

fn lower_stage_of(a: u8, b: u8) -> (result: u8)
    ensures
        result == lower_stage(a, b),
{
    if a <= b {
        a
    } else {
        b
    }
}

impl NodeRecord {
    fn apply(&mut self, change: NodeChange)
        ensures
            final(self)@ == change.on(old(self)@),
    {
        match change {
            NodeChange::Retire { now } => {
                self.node.state = ParticipationState::Removed;
                self.node.last_seen_at = now;
                self.active = false;
            },
            NodeChange::Decide { state, now } => {
                self.node.state = state;
                self.node.manual_override = true;
                if state == ParticipationState::Participating || state == ParticipationState::Observe {
                    self.node.next_latency_at = now;
                }
                if state == ParticipationState::Participating {
                    self.node.next_speed_at = now;
                    self.node.next_download_at = now;
                    self.node.next_upload_at = now;
                }
            },
            NodeChange::Remind { snoozed_until, ignore } => {
                self.node.snoozed_until = snoozed_until;
                self.node.ignore_reminder = ignore;
            },
            NodeChange::MakeDue { now } => {
                self.node.next_latency_at = now;
                self.node.next_speed_at = now;
                self.node.next_download_at = now;
                self.node.next_upload_at = now;
            },
            NodeChange::Restart { now } => {
                self.node.bootstrap_stage = 0;
                self.node.download_bootstrap_stage = 0;
                self.node.upload_bootstrap_stage = 0;
                self.node.next_latency_at = now;
                self.node.next_speed_at = now;
                self.node.next_download_at = now;
                self.node.next_upload_at = now;
                self.node.snoozed_until = None;
                self.node.ignore_reminder = false;
            },
            NodeChange::PlanLatency { at } => {
                self.node.next_latency_at = at;
            },
            NodeChange::PlanDownload { stage, at } => {
                self.node.download_bootstrap_stage = stage;
                self.node.next_download_at = at;
                self.node.bootstrap_stage = lower_stage_of(stage, self.node.upload_bootstrap_stage);
                self.node.next_speed_at = earlier_of(at, self.node.next_upload_at);
            },
            NodeChange::PlanUpload { stage, at } => {
                self.node.upload_bootstrap_stage = stage;
                self.node.next_upload_at = at;
                self.node.bootstrap_stage = lower_stage_of(self.node.download_bootstrap_stage, stage);
                self.node.next_speed_at = earlier_of(self.node.next_download_at, at);
            },
            NodeChange::DelayLatency { at } => {
                self.node.next_latency_at = later_of(self.node.next_latency_at, at);
            },
            NodeChange::DelayDownload { at } => {
                self.node.next_download_at = later_of(self.node.next_download_at, at);
                self.node.next_speed_at = earlier_of(
                    self.node.next_download_at,
                    self.node.next_upload_at,
                );
            },
            NodeChange::DelayUpload { at } => {
                self.node.next_upload_at = later_of(self.node.next_upload_at, at);
                self.node.next_speed_at = earlier_of(
                    self.node.next_download_at,
                    self.node.next_upload_at,
                );
            },
        }
    }
}

/// The direction of a speed test that can be planned or delayed.
pub open spec fn planned(kind: MeasurementKind, stage: u8, at: i64) -> Option<NodeChange> {
    match kind {
        MeasurementKind::Download => Some(NodeChange::PlanDownload { stage, at }),
        MeasurementKind::Upload => Some(NodeChange::PlanUpload { stage, at }),
        MeasurementKind::Latency => None,
    }
}

/// The delay of a speed test in one direction.
pub open spec fn delayed(kind: MeasurementKind, at: i64) -> Option<NodeChange> {
    match kind {
        MeasurementKind::Download => Some(NodeChange::DelayDownload { at }),
        MeasurementKind::Upload => Some(NodeChange::DelayUpload { at }),
        MeasurementKind::Latency => None,
    }
}

/// What an answer to a reminder changes.
pub open spec fn reminder_change(action: ReminderAction, now: int) -> NodeChange {
    match action {
        ReminderAction::SnoozeSevenDays => NodeChange::Remind {
            snoozed_until: Some((now + SEVEN_DAYS) as i64),
            ignore: false,
        },
        ReminderAction::Ignore => NodeChange::Remind { snoozed_until: None, ignore: true },
        ReminderAction::Reset => NodeChange::Remind { snoozed_until: None, ignore: false },
    }
}

/// A count as the tables hold it: at most the largest signed 64-bit number.
pub open spec fn stored_count(count: u64) -> u64 {
    if count > i64::MAX {
        i64::MAX as u64
    } else {
        count
    }
}

/// A test result as the tables hold it: counts are limited, and a value that is no number
/// is left out.
pub open spec fn stored_record(record: RecordView) -> RecordView {
    RecordView {
        value: match record.value {
            Some(value) => if value.is_nan() {
                None
            } else {
                Some(value)
            },
            None => None,
        },
        bytes_down: stored_count(record.bytes_down),
        bytes_up: stored_count(record.bytes_up),
        duration_ms: stored_count(record.duration_ms),
        ..record
    }
}

fn store_count(count: u64) -> (result: u64)
    ensures
        result == stored_count(count),
{
    if count > i64::MAX as u64 {
        i64::MAX as u64
    } else {
        count
    }
}

/// The index of the profile with an id, or the number of profiles.
pub open spec fn profile_at(profiles: Seq<ProfileView>, profile_uid: Seq<char>) -> int
    decreases profiles.len(),
{
    if profiles.len() == 0 {
        0
    } else if profiles[0].profile_uid == profile_uid {
        0
    } else {
        1 + profile_at(profiles.drop_first(), profile_uid)
    }
}

/// The profile with an id.
pub open spec fn profile_of(profiles: Seq<ProfileView>, profile_uid: Seq<char>) -> Option<ProfileView> {
    let at = profile_at(profiles, profile_uid);
    if at < profiles.len() {
        Some(profiles[at])
    } else {
        None
    }
}

proof fn lemma_profile_at(profiles: Seq<ProfileView>, profile_uid: Seq<char>, at: int)
    requires
        0 <= at <= profiles.len(),
        forall|i: int| 0 <= i < at ==> (#[trigger] profiles[i]).profile_uid != profile_uid,
        at < profiles.len() ==> profiles[at].profile_uid == profile_uid,
    ensures
        profile_at(profiles, profile_uid) == at,
    decreases profiles.len(),
{
    if profiles.len() > 0 && at > 0 {
        let rest = profiles.drop_first();
        assert(profiles[0].profile_uid != profile_uid);
        assert forall|i: int| 0 <= i < at - 1 implies (#[trigger] rest[i]).profile_uid != profile_uid by {
            assert(rest[i] == profiles[i + 1]);
        }
        lemma_profile_at(rest, profile_uid, at - 1);
    }
}

proof fn lemma_profile_at_facts(profiles: Seq<ProfileView>, profile_uid: Seq<char>)
    ensures
        0 <= profile_at(profiles, profile_uid) <= profiles.len(),
        profile_at(profiles, profile_uid) < profiles.len() ==> profiles[profile_at(
            profiles,
            profile_uid,
        )].profile_uid == profile_uid,
        forall|i: int|
            0 <= i < profile_at(profiles, profile_uid) ==> (#[trigger] profiles[i]).profile_uid
                != profile_uid,
    decreases profiles.len(),
{
    if profiles.len() > 0 && profiles[0].profile_uid != profile_uid {
        let rest = profiles.drop_first();
        lemma_profile_at_facts(rest, profile_uid);
        assert forall|i: int| 0 <= i < profile_at(profiles, profile_uid) implies (
        #[trigger] profiles[i]).profile_uid != profile_uid by {
            if i > 0 {
                assert(rest[i - 1] == profiles[i]);
            }
        }
    }
}

/// The profiles with one record added, or put in the place of the one with the same id.
pub open spec fn with_profile(profiles: Seq<ProfileView>, profile: ProfileView) -> Seq<ProfileView> {
    let at = profile_at(profiles, profile.profile_uid);
    if at < profiles.len() {
        profiles.update(at, profile)
    } else {
        profiles.push(profile)
    }
}

impl StoreView {
    /// Whether there are no stored settings, or they pass the checks.
    pub open spec fn settings_sound(self) -> bool {
        match self.settings {
            None => true,
            Some(stored) => stored.refusal() is None,
        }
    }

    /// The stored settings in normal form; where none are stored, the initial ones.
    pub open spec fn current_settings(self) -> SettingsView {
        match self.settings {
            None => SettingsView::initial(),
            Some(stored) => stored.normal(),
        }
    }

    /// Whether the error says why the stored settings do not pass the checks.
    pub open spec fn settings_refused(self, error: BenchmarkError) -> bool {
        match self.settings {
            None => false,
            Some(stored) => match stored.refusal() {
                Some((field, refusal)) => refuses(error, field, refusal),
                None => false,
            },
        }
    }

    /// The tables after a scan of a profile.
    pub open spec fn after_scan(
        self,
        profile_uid: Seq<char>,
        profile_name: Seq<char>,
        source_hash: Option<Seq<char>>,
        scanned_at: i64,
        scan_error: Option<Seq<char>>,
    ) -> StoreView {
        let previous = profile_of(self.profiles, profile_uid);
        let scanned = StoreView {
            profiles: with_profile(
                self.profiles,
                ProfileView {
                    profile_uid,
                    profile_name,
                    source_hash: match (source_hash, previous) {
                        (Some(hash), _) => Some(hash),
                        (None, Some(previous)) => previous.source_hash,
                        (None, None) => None,
                    },
                    last_scanned_at: Some(scanned_at),
                    scan_error,
                },
            ),
            ..self
        };
        match previous {
            Some(previous) => if previous.profile_name != profile_name {
                scanned.with_change(profile_uid, profile_name, None, "profileRenamed"@, true, scanned_at)
            } else {
                scanned
            },
            None => scanned,
        }
    }

    /// The tables after a selected profile was found to be gone.
    pub open spec fn after_loss(self, profile_uid: Seq<char>, fallback_name: Seq<char>, now: i64) -> StoreView {
        let previous = profile_of(self.profiles, profile_uid);
        let profile_name = match previous {
            Some(previous) => previous.profile_name,
            None => fallback_name,
        };
        let was_missing = match previous {
            Some(previous) => previous.scan_error == Some(MISSING_PROFILE_ERROR@),
            None => false,
        };
        let lost = StoreView {
            profiles: with_profile(
                self.profiles,
                ProfileView {
                    profile_uid,
                    profile_name,
                    source_hash: match previous {
                        Some(previous) => previous.source_hash,
                        None => None,
                    },
                    last_scanned_at: Some(now),
                    scan_error: Some(MISSING_PROFILE_ERROR@),
                },
            ),
            ..self
        }.with_nodes_changed(active_of_profile(profile_uid), NodeChange::Retire { now });
        let had_nodes = exists|i: int|
            0 <= i < self.nodes.len() && active_of_profile(profile_uid)(#[trigger] self.nodes[i]);
        if !was_missing || had_nodes {
            lost.with_change(profile_uid, profile_name, None, "profileRemoved"@, true, now)
        } else {
            lost
        }
    }

    /// The tables after the user decided how an active node takes part.
    pub open spec fn after_decision(self, node_id: Seq<char>, state: ParticipationState, now: i64) -> StoreView {
        let decided = self.with_nodes_changed(
            active_with_id(node_id),
            NodeChange::Decide { state, now },
        );
        if state == ParticipationState::Excluded {
            StoreView {
                changes: silenced(self.changes, decided.nodes, with_id(node_id)),
                ..decided
            }
        } else {
            decided
        }
    }

    /// Whether an active node has the id.
    pub open spec fn has_active(self, node_id: Seq<char>) -> bool {
        exists|i: int| 0 <= i < self.nodes.len() && active_with_id(node_id)(#[trigger] self.nodes[i])
    }

    /// Whether an active node of the profiles has the id.
    pub open spec fn offers(self, profile_uids: Seq<Seq<char>>, node_id: Seq<char>) -> bool {
        exists|i: int|
            0 <= i < self.nodes.len() && active_of_profiles(profile_uids)(#[trigger] self.nodes[i])
                && self.nodes[i].node.node_id == node_id
    }

    /// Whether the profiles have an active node.
    pub open spec fn has_candidates(self, profile_uids: Seq<Seq<char>>) -> bool {
        exists|i: int|
            0 <= i < self.nodes.len() && active_of_profiles(profile_uids)(#[trigger] self.nodes[i])
    }

    /// Why a selection of participants is refused; nothing where it is accepted.
    pub open spec fn selection_refusal(
        self,
        profile_uids: Seq<Seq<char>>,
        participants: Seq<Seq<char>>,
    ) -> Option<BenchmarkError> {
        if profile_uids.len() == 0 {
            Some(BenchmarkError::NoProfileSelected)
        } else if !self.has_candidates(profile_uids) {
            Some(BenchmarkError::NoCandidate)
        } else if exists|i: int|
            0 <= i < participants.len() && !self.offers(profile_uids, #[trigger] participants[i]) {
            Some(BenchmarkError::CandidatesChanged)
        } else {
            None
        }
    }

    /// The tables after the participants were confirmed: of the active nodes of the profiles
    /// the listed ones take part and all others are excluded.
    pub open spec fn after_confirmation(
        self,
        profile_uids: Seq<Seq<char>>,
        participants: Seq<Seq<char>>,
        now: i64,
    ) -> StoreView {
        let nodes = self.nodes.map_values(
            |record: NodeRecordView|
                if active_of_profiles(profile_uids)(record) {
                    confirmed_record(record, participants, now)
                } else {
                    record
                },
        );
        StoreView { nodes, changes: silenced(self.changes, nodes, active_excluded()), ..self }
    }

    /// Whether the profiles have active nodes and the user decided on every one of them.
    pub open spec fn selection_confirmed(self, profile_uids: Seq<Seq<char>>) -> bool {
        self.has_candidates(profile_uids) && forall|i: int|
            0 <= i < self.nodes.len() && active_of_profiles(profile_uids)(#[trigger] self.nodes[i])
                ==> self.nodes[i].node.manual_override
    }
}

/// A candidate after the participants were confirmed.
pub open spec fn confirmed_record(
    record: NodeRecordView,
    participants: Seq<Seq<char>>,
    now: i64,
) -> NodeRecordView {
    let state = if participants.contains(record.node.node_id) {
        ParticipationState::Participating
    } else {
        ParticipationState::Excluded
    };
    (NodeChange::Decide { state, now }).on(record)
}

/// Whether two lists of records name the same nodes in the same places.
pub open spec fn same_ids(before: Seq<NodeRecordView>, after: Seq<NodeRecordView>) -> bool {
    before.len() == after.len() && forall|i: int|
        0 <= i < before.len() ==> (#[trigger] before[i]).node.node_id == (#[trigger] after[i]).node.node_id
}

/// Records that name the same nodes are as distinct, and the same nodes are known.
pub proof fn lemma_same_ids(before: Seq<NodeRecordView>, after: Seq<NodeRecordView>)
    requires
        same_ids(before, after),
    ensures
        distinct_nodes(before) ==> distinct_nodes(after),
        forall|node_id: Seq<char>| #[trigger] knows_node(before, node_id) == knows_node(after, node_id),
{
    if distinct_nodes(before) {
        assert forall|i: int, j: int| 0 <= i < j < after.len() implies (#[trigger] after[i]).node.node_id != (
        #[trigger] after[j]).node.node_id by {
            assert(before[i].node.node_id != before[j].node.node_id);
        }
    }
    assert forall|node_id: Seq<char>| #[trigger] knows_node(before, node_id) == knows_node(after, node_id) by {
        if knows_node(before, node_id) {
            let i = choose|i: int| 0 <= i < before.len() && (#[trigger] before[i]).node.node_id == node_id;
            assert(after[i].node.node_id == node_id);
        }
        if knows_node(after, node_id) {
            let i = choose|i: int| 0 <= i < after.len() && (#[trigger] after[i]).node.node_id == node_id;
            assert(before[i].node.node_id == node_id);
        }
    }
}

/// Tables stay valid where nodes keep their ids and everything else keeps its order.
pub proof fn lemma_nodes_keep_valid(before: StoreView, after: StoreView)
    requires
        before.valid(),
        same_ids(before.nodes, after.nodes),
        after.profiles == before.profiles,
        rising_changes(after.changes, after.last_change_id),
    ensures
        after.valid(),
{
    lemma_same_ids(before.nodes, after.nodes);
}

proof fn lemma_changed_nodes_valid(
    store: StoreView,
    chosen: spec_fn(NodeRecordView) -> bool,
    change: NodeChange,
)
    requires
        store.valid(),
    ensures
        store.with_nodes_changed(chosen, change).valid(),
{
    lemma_nodes_keep_valid(store, store.with_nodes_changed(chosen, change));
}

/// A further change keeps the tables valid.
pub proof fn lemma_with_change_valid(
    store: StoreView,
    profile_uid: Seq<char>,
    profile_name: Seq<char>,
    node_name: Option<Seq<char>>,
    change_type: Seq<char>,
    relevant: bool,
    now: i64,
)
    requires
        store.valid(),
        store.last_change_id < i64::MAX,
        i64::MIN <= store.last_change_id,
    ensures
        store.with_change(profile_uid, profile_name, node_name, change_type, relevant, now).valid(),
{
    let after = store.with_change(profile_uid, profile_name, node_name, change_type, relevant, now);
    assert(rising_changes(after.changes, after.last_change_id)) by {
        assert forall|i: int, j: int| 0 <= i < j < after.changes.len() implies (
        #[trigger] after.changes[i]).event.id < (#[trigger] after.changes[j]).event.id by {
            assert(after.changes[i] == store.changes[i]);
            if j < store.changes.len() {
                assert(after.changes[j] == store.changes[j]);
            }
        }
        assert forall|i: int| 0 <= i < after.changes.len() implies (#[trigger] after.changes[i]).event.id
            <= after.last_change_id by {
            if i < store.changes.len() {
                assert(after.changes[i] == store.changes[i]);
            }
        }
    }
    lemma_nodes_keep_valid(store, after);
}

proof fn lemma_silenced_rising(
    changes: Seq<ChangeRecordView>,
    nodes: Seq<NodeRecordView>,
    chosen: spec_fn(NodeRecordView) -> bool,
    last: int,
)
    requires
        rising_changes(changes, last),
    ensures
        rising_changes(silenced(changes, nodes, chosen), last),
{
    let after = silenced(changes, nodes, chosen);
    assert forall|i: int, j: int| 0 <= i < j < after.len() implies (#[trigger] after[i]).event.id < (
    #[trigger] after[j]).event.id by {
        assert(changes[i].event.id < changes[j].event.id);
    }
    assert forall|i: int| 0 <= i < after.len() implies (#[trigger] after[i]).event.id <= last by {
        assert(changes[i].event.id <= last);
    }
}

proof fn lemma_with_profile_distinct(profiles: Seq<ProfileView>, profile: ProfileView)
    requires
        distinct_profiles(profiles),
    ensures
        distinct_profiles(with_profile(profiles, profile)),
{
    lemma_profile_at_facts(profiles, profile.profile_uid);
    let at = profile_at(profiles, profile.profile_uid);
    let after = with_profile(profiles, profile);
    assert forall|i: int, j: int| 0 <= i < j < after.len() implies (#[trigger] after[i]).profile_uid != (
    #[trigger] after[j]).profile_uid by {
        if i != at && j != at {
            assert(profiles[i].profile_uid != profiles[j].profile_uid);
        } else if at < profiles.len() {
            assert(profiles[i].profile_uid != profiles[j].profile_uid);
        } else {
            assert(profiles[i].profile_uid != profile.profile_uid);
        }
    }
}

impl BenchmarkStore {
    /// Tables without a row.
    pub fn new() -> (store: BenchmarkStore)
        ensures
            store@ == StoreView::empty(),
            store@.valid(),
    {
        BenchmarkStore {
            settings: None,
            profiles: Vec::new(),
            nodes: Vec::new(),
            measurements: Vec::new(),
            changes: Vec::new(),
            last_change_id: 0,
        }
    }

    /// The stored settings, checked again; where none are stored, the initial ones.
    pub fn load_settings(&self) -> (result: Result<BenchmarkSettings, BenchmarkError>)
        ensures
            match result {
                Ok(settings) => self@.settings_sound() && settings@ == self@.current_settings(),
                Err(error) => !self@.settings_sound() && self@.settings_refused(error),
            },
    {
        match &self.settings {
            None => Ok(BenchmarkSettings::default()),
            Some(settings) => settings.clone().normalized(),
        }
    }

    /// Stores the settings.
    pub fn save_settings(&mut self, settings: &BenchmarkSettings)
        requires
            old(self)@.valid(),
        ensures
            final(self)@ == (StoreView { settings: Some(settings@), ..old(self)@ }),
            final(self)@.valid(),
    {
        self.settings = Some(settings.clone());
    }

    pub(crate) fn push_change(
        &mut self,
        profile_uid: &str,
        profile_name: &str,
        node_name: Option<&str>,
        change_type: &str,
        relevant: bool,
        now: i64,
    )
        requires
            old(self)@.valid(),
            old(self)@.has_room(1),
        ensures
            final(self)@ == old(self)@.with_change(
                profile_uid@,
                profile_name@,
                str_view(node_name),
                change_type@,
                relevant,
                now,
            ),
            final(self)@.valid(),
    {
        let id: i64 = self.last_change_id + 1;
        let event = BenchmarkChangeEvent {
            id,
            profile_uid: profile_uid.to_owned(),
            profile_name: profile_name.to_owned(),
            node_name: own_text(node_name),
            change_type: change_type.to_owned(),
            created_at: now,
        };
        self.changes.push(ChangeRecord { event, relevant });
        self.last_change_id = id;
        proof {
            lemma_with_change_valid(
                old(self)@,
                profile_uid@,
                profile_name@,
                str_view(node_name),
                change_type@,
                relevant,
                now,
            );
            assert(self@ =~= old(self)@.with_change(
                profile_uid@,
                profile_name@,
                str_view(node_name),
                change_type@,
                relevant,
                now,
            ));
        }
    }

    pub(crate) fn find_profile(&self, profile_uid: &str) -> (at: usize)
        ensures
            at == profile_at(self@.profiles, profile_uid@),
            at <= self.profiles.len(),
    {
        let mut at: usize = 0;
        while at < self.profiles.len() && !same_text(self.profiles[at].profile_uid.as_str(), profile_uid)
            invariant
                at <= self.profiles.len(),
                forall|i: int|
                    0 <= i < at ==> (#[trigger] self@.profiles[i]).profile_uid != profile_uid@,
            decreases self.profiles.len() - at,
        {
            assert(self@.profiles[at as int] == self.profiles@[at as int]@);
            at += 1;
        }
        proof {
            if at < self.profiles.len() {
                assert(self@.profiles[at as int] == self.profiles@[at as int]@);
            }
            lemma_profile_at(self@.profiles, profile_uid@, at as int);
        }
        at
    }

    fn put_profile(&mut self, at: usize, record: ProfileRecord)
        requires
            old(self)@.valid(),
            at == profile_at(old(self)@.profiles, record@.profile_uid),
            at <= old(self).profiles.len(),
        ensures
            final(self)@ == (StoreView { profiles: with_profile(old(self)@.profiles, record@), ..old(self)@ }),
            final(self)@.valid(),
    {
        proof {
            lemma_with_profile_distinct(self@.profiles, record@);
        }
        if at < self.profiles.len() {
            self.profiles.set(at, record);
        } else {
            self.profiles.push(record);
        }
        assert(self@ =~= (StoreView { profiles: with_profile(old(self)@.profiles, record@), ..old(self)@ }));
    }

    /// Takes note of what a scan of a profile found; a new name is reported as a change.
    pub fn save_profile_scan(
        &mut self,
        profile_uid: &str,
        profile_name: &str,
        source_hash: Option<&str>,
        scanned_at: i64,
        scan_error: Option<&str>,
    )
        requires
            old(self)@.valid(),
            old(self)@.has_room(1),
        ensures
            final(self)@ == old(self)@.after_scan(
                profile_uid@,
                profile_name@,
                str_view(source_hash),
                scanned_at,
                str_view(scan_error),
            ),
            final(self)@.valid(),
    {
        let at: usize = self.find_profile(profile_uid);
        let known: bool = at < self.profiles.len();
        let renamed: bool = known && !same_text(self.profiles[at].profile_name.as_str(), profile_name);
        let hash = match source_hash {
            Some(hash) => Some(hash.to_owned()),
            None => if known {
                copy_text(&self.profiles[at].source_hash)
            } else {
                None
            },
        };
        proof {
            if known {
                assert(self@.profiles[at as int] == self.profiles@[at as int]@);
            }
        }
        let record = ProfileRecord {
            profile_uid: profile_uid.to_owned(),
            profile_name: profile_name.to_owned(),
            source_hash: hash,
            last_scanned_at: Some(scanned_at),
            scan_error: own_text(scan_error),
        };
        self.put_profile(at, record);
        if renamed {
            self.push_change(profile_uid, profile_name, None, "profileRenamed", true, scanned_at);
        }
    }

    fn change_nodes(&mut self, flags: &Vec<bool>, change: NodeChange)
        requires
            flags.len() == old(self).nodes.len(),
        ensures
            final(self)@.nodes == Seq::new(
                old(self)@.nodes.len(),
                |i: int|
                    if flags@[i] {
                        change.on(old(self)@.nodes[i])
                    } else {
                        old(self)@.nodes[i]
                    },
            ),
            final(self)@ == (StoreView { nodes: final(self)@.nodes, ..old(self)@ }),
            final(self).nodes.len() == old(self).nodes.len(),
    {
        let ghost before = self@;
        for i in 0..flags.len()
            invariant
                flags.len() == self.nodes.len(),
                before == old(self)@,
                before.nodes.len() == self.nodes.len(),
                self@ == (StoreView { nodes: self@.nodes, ..before }),
                forall|k: int| i <= k < flags.len() ==> #[trigger] self@.nodes[k] == before.nodes[k],
                forall|k: int|
                    0 <= k < i ==> #[trigger] self@.nodes[k] == if flags@[k] {
                        change.on(before.nodes[k])
                    } else {
                        before.nodes[k]
                    },
        {
            if flags[i] {
                let ghost earlier = self@.nodes;
                assert(earlier[i as int] == self.nodes@[i as int]@);
                self.nodes[i].apply(change);
                assert(self@.nodes =~= earlier.update(i as int, change.on(earlier[i as int])));
            }
        }
        assert(self@.nodes =~= Seq::new(
            before.nodes.len(),
            |i: int|
                if flags@[i] {
                    change.on(before.nodes[i])
                } else {
                    before.nodes[i]
                },
        ));
    }

    fn flag_id(&self, node_id: &str) -> (flags: Vec<bool>)
        ensures
            flags.len() == self.nodes.len(),
            forall|i: int| 0 <= i < flags.len() ==> #[trigger] flags@[i] == with_id(node_id@)(self@.nodes[i]),
    {
        let mut flags: Vec<bool> = Vec::new();
        for i in 0..self.nodes.len()
            invariant
                flags.len() == i,
                forall|k: int| 0 <= k < i ==> #[trigger] flags@[k] == with_id(node_id@)(self@.nodes[k]),
        {
            flags.push(same_text(self.nodes[i].node.node_id.as_str(), node_id));
            assert(self@.nodes[i as int] == self.nodes@[i as int]@);
        }
        flags
    }

    fn flag_active_ids(&self, node_ids: &[String]) -> (flags: Vec<bool>)
        ensures
            flags.len() == self.nodes.len(),
            forall|i: int|
                0 <= i < flags.len() ==> #[trigger] flags@[i] == active_among(texts(node_ids@))(self@.nodes[i]),
    {
        let mut flags: Vec<bool> = Vec::new();
        for i in 0..self.nodes.len()
            invariant
                flags.len() == i,
                forall|k: int|
                    0 <= k < i ==> #[trigger] flags@[k] == active_among(texts(node_ids@))(self@.nodes[k]),
        {
            let record = &self.nodes[i];
            flags.push(record.active && contains_text(node_ids, record.node.node_id.as_str()));
            assert(self@.nodes[i as int] == self.nodes@[i as int]@);
        }
        flags
    }

    fn flag_active_profiles(&self, profile_uids: &[String]) -> (flags: Vec<bool>)
        ensures
            flags.len() == self.nodes.len(),
            forall|i: int|
                0 <= i < flags.len() ==> #[trigger] flags@[i] == active_of_profiles(texts(profile_uids@))(
                    self@.nodes[i],
                ),
    {
        let mut flags: Vec<bool> = Vec::new();
        for i in 0..self.nodes.len()
            invariant
                flags.len() == i,
                forall|k: int|
                    0 <= k < i ==> #[trigger] flags@[k] == active_of_profiles(texts(profile_uids@))(
                        self@.nodes[k],
                    ),
        {
            let record = &self.nodes[i];
            flags.push(record.active && contains_text(profile_uids, record.node.profile_uid.as_str()));
            assert(self@.nodes[i as int] == self.nodes@[i as int]@);
        }
        flags
    }

    /// Takes note that a selected profile is gone: its nodes are retired, and the loss is
    /// reported once.
    pub fn mark_profile_missing(&mut self, profile_uid: &str, fallback_name: &str, now: i64)
        requires
            old(self)@.valid(),
            old(self)@.has_room(1),
        ensures
            final(self)@ == old(self)@.after_loss(profile_uid@, fallback_name@, now),
            final(self)@.valid(),
    {
        let at: usize = self.find_profile(profile_uid);
        let known: bool = at < self.profiles.len();
        proof {
            if known {
                assert(self@.profiles[at as int] == self.profiles@[at as int]@);
            }
        }
        let profile_name: String = if known {
            self.profiles[at].profile_name.clone()
        } else {
            fallback_name.to_owned()
        };
        let was_missing: bool = known && match &self.profiles[at].scan_error {
            Some(error) => same_text(error.as_str(), MISSING_PROFILE_ERROR),
            None => false,
        };
        let source_hash = if known {
            copy_text(&self.profiles[at].source_hash)
        } else {
            None
        };
        let record = ProfileRecord {
            profile_uid: profile_uid.to_owned(),
            profile_name: profile_name.clone(),
            source_hash,
            last_scanned_at: Some(now),
            scan_error: Some(MISSING_PROFILE_ERROR.to_owned()),
        };
        let ghost given = self@;
        self.put_profile(at, record);
        let ghost noted = self@;
        let mut flags: Vec<bool> = Vec::new();
        let mut any: bool = false;
        for i in 0..self.nodes.len()
            invariant
                flags.len() == i,
                self@ == noted,
                forall|k: int|
                    0 <= k < i ==> #[trigger] flags@[k] == active_of_profile(profile_uid@)(noted.nodes[k]),
                any == exists|k: int|
                    0 <= k < i && active_of_profile(profile_uid@)(#[trigger] noted.nodes[k]),
        {
            let record = &self.nodes[i];
            let hit: bool = record.active && same_text(record.node.profile_uid.as_str(), profile_uid);
            assert(noted.nodes[i as int] == self.nodes@[i as int]@);
            flags.push(hit);
            if hit {
                assert(active_of_profile(profile_uid@)(noted.nodes[i as int]));
                any = true;
            }
        }
        let change = NodeChange::Retire { now };
        self.change_nodes(&flags, change);
        proof {
            lemma_changed_nodes_valid(noted, active_of_profile(profile_uid@), change);
            assert(self@ =~= noted.with_nodes_changed(active_of_profile(profile_uid@), change));
            assert(noted.nodes == given.nodes);
        }
        if !was_missing || any {
            self.push_change(profile_uid, profile_name.as_str(), None, "profileRemoved", true, now);
        }
    }

    fn silence(&mut self, flags: &Vec<bool>)
        requires
            flags.len() == old(self).nodes.len(),
        ensures
            final(self)@.changes.len() == old(self)@.changes.len(),
            forall|c: int|
                0 <= c < old(self)@.changes.len() ==> #[trigger] final(self)@.changes[c] == if exists|i: int|
                    0 <= i < flags.len() && flags@[i] && concerns(
                        old(self)@.changes[c],
                        #[trigger] old(self)@.nodes[i],
                    ) {
                    ChangeRecordView { relevant: false, ..old(self)@.changes[c] }
                } else {
                    old(self)@.changes[c]
                },
            final(self)@ == (StoreView { changes: final(self)@.changes, ..old(self)@ }),
    {
        let ghost before = self@;
        let total: usize = self.changes.len();
        for c in 0..total
            invariant
                total == self.changes.len(),
                flags.len() == self.nodes.len(),
                before == old(self)@,
                before.changes.len() == self.changes.len(),
                self@ == (StoreView { changes: self@.changes, ..before }),
                forall|k: int|
                    c <= k < before.changes.len() ==> #[trigger] self@.changes[k] == before.changes[k],
                forall|k: int|
                    0 <= k < c ==> #[trigger] self@.changes[k] == if exists|i: int|
                        0 <= i < flags.len() && flags@[i] && concerns(
                            before.changes[k],
                            #[trigger] before.nodes[i],
                        ) {
                        ChangeRecordView { relevant: false, ..before.changes[k] }
                    } else {
                        before.changes[k]
                    },
        {
            assert(before.changes[c as int] == self@.changes[c as int]);
            assert(self@.changes[c as int] == self.changes@[c as int]@);
            let mut hit: bool = false;
            for i in 0..flags.len()
                invariant
                    c < self.changes.len(),
                    flags.len() == self.nodes.len(),
                    self@.nodes == before.nodes,
                    before.changes[c as int] == self.changes@[c as int]@,
                    hit == exists|k: int|
                        0 <= k < i && flags@[k] && concerns(
                            before.changes[c as int],
                            #[trigger] before.nodes[k],
                        ),
            {
                let event = &self.changes[c].event;
                let node = &self.nodes[i].node;
                assert(before.nodes[i as int] == self.nodes@[i as int]@);
                let same_name: bool = match &event.node_name {
                    Some(name) => same_text(name.as_str(), node.node_name.as_str()),
                    None => false,
                };
                if flags[i] && same_name && same_text(event.profile_uid.as_str(), node.profile_uid.as_str()) {
                    assert(concerns(before.changes[c as int], before.nodes[i as int]));
                    hit = true;
                }
            }
            if hit {
                let ghost earlier = self@.changes;
                self.changes[c].relevant = false;
                assert(self@.changes =~= earlier.update(
                    c as int,
                    ChangeRecordView { relevant: false, ..earlier[c as int] },
                ));
            }
        }
    }

    /// Stores the decision of the user on an active node. A node that is excluded silences the
    /// changes about it.
    pub fn update_node_state(&mut self, node_id: &str, state: ParticipationState, now: i64) -> (result: Result<
        (),
        BenchmarkError,
    >)
        requires
            old(self)@.valid(),
        ensures
            final(self)@.valid(),
            match result {
                Ok(_) => old(self)@.has_active(node_id@) && final(self)@ == old(self)@.after_decision(
                    node_id@,
                    state,
                    now,
                ),
                Err(error) => !old(self)@.has_active(node_id@) && error == BenchmarkError::UnknownNode
                    && final(self)@ == old(self)@,
            },
    {
        let ghost given = self@;
        let named = self.flag_id(node_id);
        let mut flags: Vec<bool> = Vec::new();
        let mut any: bool = false;
        for i in 0..self.nodes.len()
            invariant
                flags.len() == i,
                self@ == given,
                named.len() == self.nodes.len(),
                forall|k: int| 0 <= k < named.len() ==> #[trigger] named@[k] == with_id(node_id@)(given.nodes[k]),
                forall|k: int|
                    0 <= k < i ==> #[trigger] flags@[k] == active_with_id(node_id@)(given.nodes[k]),
                any == exists|k: int|
                    0 <= k < i && active_with_id(node_id@)(#[trigger] given.nodes[k]),
        {
            let hit: bool = self.nodes[i].active && named[i];
            assert(given.nodes[i as int] == self.nodes@[i as int]@);
            flags.push(hit);
            if hit {
                assert(active_with_id(node_id@)(given.nodes[i as int]));
                any = true;
            }
        }
        if !any {
            return Err(BenchmarkError::UnknownNode);
        }
        let change = NodeChange::Decide { state, now };
        self.change_nodes(&flags, change);
        let ghost decided = self@;
        proof {
            lemma_changed_nodes_valid(given, active_with_id(node_id@), change);
            assert(decided =~= given.with_nodes_changed(active_with_id(node_id@), change));
        }
        if state == ParticipationState::Excluded {
            self.silence(&named);
            proof {
                assert forall|i: int| 0 <= i < named.len() implies #[trigger] named@[i] == with_id(node_id@)(
                    decided.nodes[i],
                ) by {
                    assert(given.nodes[i].node.node_id == decided.nodes[i].node.node_id);
                }
                lemma_silenced(decided, self@, named@, with_id(node_id@));
            }
        }
        Ok(())
    }

    /// Stores the participants that the user confirmed: of the active nodes of the profiles the
    /// listed ones take part, all others are excluded.
    pub fn confirm_participating_nodes(
        &mut self,
        profile_uids: &[String],
        participating_node_ids: &[String],
        now: i64,
    ) -> (result: Result<(), BenchmarkError>)
        requires
            old(self)@.valid(),
        ensures
            final(self)@.valid(),
            match (
                result,
                old(self)@.selection_refusal(texts(profile_uids@), texts(participating_node_ids@)),
            ) {
                (Ok(_), None) => final(self)@ == old(self)@.after_confirmation(
                    texts(profile_uids@),
                    texts(participating_node_ids@),
                    now,
                ),
                (Err(error), Some(refusal)) => error == refusal && final(self)@ == old(self)@,
                _ => false,
            },
    {
        let ghost given = self@;
        let ghost uids = texts(profile_uids@);
        let ghost participants = texts(participating_node_ids@);
        if profile_uids.len() == 0 {
            return Err(BenchmarkError::NoProfileSelected);
        }
        let flags = self.flag_active_profiles(profile_uids);
        let mut any: bool = false;
        for i in 0..flags.len()
            invariant
                flags.len() == given.nodes.len(),
                forall|k: int|
                    0 <= k < flags.len() ==> #[trigger] flags@[k] == active_of_profiles(uids)(given.nodes[k]),
                any == exists|k: int| 0 <= k < i && active_of_profiles(uids)(#[trigger] given.nodes[k]),
        {
            if flags[i] {
                assert(active_of_profiles(uids)(given.nodes[i as int]));
                any = true;
            }
        }
        if !any {
            return Err(BenchmarkError::NoCandidate);
        }
        for p in 0..participating_node_ids.len()
            invariant
                self@ == given,
                given == old(self)@,
                given.valid(),
                participants == texts(participating_node_ids@),
                uids == texts(profile_uids@),
                uids.len() > 0,
                given.has_candidates(uids),
                flags.len() == self.nodes.len(),
                forall|k: int|
                    0 <= k < flags.len() ==> #[trigger] flags@[k] == active_of_profiles(uids)(given.nodes[k]),
                forall|k: int| 0 <= k < p ==> given.offers(uids, #[trigger] participants[k]),
        {
            let mut offered: bool = false;
            for i in 0..flags.len()
                invariant
                    self@ == given,
                    p < participating_node_ids.len(),
                    participants == texts(participating_node_ids@),
                    flags.len() == self.nodes.len(),
                    forall|k: int|
                        0 <= k < flags.len() ==> #[trigger] flags@[k] == active_of_profiles(uids)(given.nodes[k]),
                    offered == exists|k: int|
                        0 <= k < i && active_of_profiles(uids)(#[trigger] given.nodes[k])
                            && given.nodes[k].node.node_id == participants[p as int],
            {
                assert(given.nodes[i as int] == self.nodes@[i as int]@);
                if flags[i] && same_text(
                    self.nodes[i].node.node_id.as_str(),
                    participating_node_ids[p].as_str(),
                ) {
                    assert(active_of_profiles(uids)(given.nodes[i as int]));
                    offered = true;
                }
            }
            if !offered {
                assert(!given.offers(uids, participants[p as int]));
                return Err(BenchmarkError::CandidatesChanged);
            }
        }
        let ghost target = given.after_confirmation(uids, participants, now);
        for i in 0..flags.len()
            invariant
                self@ == (StoreView { nodes: self@.nodes, ..given }),
                participants == texts(participating_node_ids@),
                flags.len() == self.nodes.len(),
                given.nodes.len() == self.nodes.len(),
                target == given.after_confirmation(uids, participants, now),
                forall|k: int|
                    0 <= k < flags.len() ==> #[trigger] flags@[k] == active_of_profiles(uids)(given.nodes[k]),
                forall|k: int| i <= k < flags.len() ==> #[trigger] self@.nodes[k] == given.nodes[k],
                forall|k: int| 0 <= k < i ==> #[trigger] self@.nodes[k] == target.nodes[k],
        {
            assert(self@.nodes[i as int] == self.nodes@[i as int]@);
            if flags[i] {
                let state = if contains_text(
                    participating_node_ids,
                    self.nodes[i].node.node_id.as_str(),
                ) {
                    ParticipationState::Participating
                } else {
                    ParticipationState::Excluded
                };
                let ghost earlier = self@.nodes;
                self.nodes[i].apply(NodeChange::Decide { state, now });
                assert(self@.nodes =~= earlier.update(
                    i as int,
                    confirmed_record(earlier[i as int], participants, now),
                ));
            }
        }
        assert(self@.nodes =~= target.nodes);
        let ghost decided = self@;
        let mut excluded: Vec<bool> = Vec::new();
        for i in 0..self.nodes.len()
            invariant
                excluded.len() == i,
                self@ == decided,
                forall|k: int|
                    0 <= k < i ==> #[trigger] excluded@[k] == active_excluded()(decided.nodes[k]),
        {
            let record = &self.nodes[i];
            assert(decided.nodes[i as int] == self.nodes@[i as int]@);
            excluded.push(record.active && record.node.state == ParticipationState::Excluded);
        }
        self.silence(&excluded);
        proof {
            lemma_nodes_keep_valid(given, decided);
            lemma_silenced(decided, self@, excluded@, active_excluded());
        }
        Ok(())
    }

    /// Whether the profiles have active nodes and the user decided on every one of them.
    pub fn node_selection_confirmed(&self, profile_uids: &[String]) -> (confirmed: bool)
        ensures
            confirmed == self@.selection_confirmed(texts(profile_uids@)),
    {
        let ghost uids = texts(profile_uids@);
        let flags = self.flag_active_profiles(profile_uids);
        let mut any: bool = false;
        for i in 0..flags.len()
            invariant
                uids == texts(profile_uids@),
                flags.len() == self.nodes.len(),
                forall|k: int|
                    0 <= k < flags.len() ==> #[trigger] flags@[k] == active_of_profiles(uids)(self@.nodes[k]),
                any == exists|k: int| 0 <= k < i && active_of_profiles(uids)(#[trigger] self@.nodes[k]),
                forall|k: int|
                    0 <= k < i && active_of_profiles(uids)(#[trigger] self@.nodes[k])
                        ==> self@.nodes[k].node.manual_override,
        {
            assert(self@.nodes[i as int] == self.nodes@[i as int]@);
            if flags[i] {
                assert(active_of_profiles(uids)(self@.nodes[i as int]));
                if !self.nodes[i].node.manual_override {
                    return false;
                }
                any = true;
            }
        }
        any
    }

    /// Copies the flagged nodes.
    pub(crate) fn pick(&self, flags: &Vec<bool>, Ghost(chosen): Ghost<spec_fn(NodeRecordView) -> bool>) -> (result:
        Vec<StoredNode>)
        requires
            flags.len() == self.nodes.len(),
            forall|i: int| 0 <= i < flags.len() ==> #[trigger] flags@[i] == chosen(self@.nodes[i]),
        ensures
            node_views(result@) == selected_nodes(self@.nodes, chosen),
            result.len() <= self.nodes.len(),
    {
        let mut result: Vec<StoredNode> = Vec::new();
        let ghost all = self@.nodes;
        assert(node_views(result@) =~= Seq::empty());
        assert(all.take(0) =~= Seq::empty());
        for i in 0..self.nodes.len()
            invariant
                all == self@.nodes,
                flags.len() == self.nodes.len(),
                forall|k: int| 0 <= k < flags.len() ==> #[trigger] flags@[k] == chosen(self@.nodes[k]),
                result.len() <= i,
                node_views(result@) == selected_nodes(all.take(i as int), chosen),
        {
            assert(all[i as int] == self.nodes@[i as int]@);
            assert(all.take(i + 1).drop_last() =~= all.take(i as int));
            assert(all.take(i + 1).last() == all[i as int]);
            if flags[i] {
                let ghost before = result@;
                let copy = self.nodes[i].node.clone();
                result.push(copy);
                assert(node_views(result@) =~= node_views(before).push(copy@));
            }
        }
        assert(all.take(all.len() as int) =~= all);
        result
    }

    pub(crate) fn flag_profile(&self, profile_uid: &str) -> (flags: Vec<bool>)
        ensures
            flags.len() == self.nodes.len(),
            forall|i: int|
                0 <= i < flags.len() ==> #[trigger] flags@[i] == active_of_profile(profile_uid@)(
                    self@.nodes[i],
                ),
    {
        let mut flags: Vec<bool> = Vec::new();
        for i in 0..self.nodes.len()
            invariant
                flags.len() == i,
                forall|k: int|
                    0 <= k < i ==> #[trigger] flags@[k] == active_of_profile(profile_uid@)(self@.nodes[k]),
        {
            let record = &self.nodes[i];
            flags.push(record.active && same_text(record.node.profile_uid.as_str(), profile_uid));
            assert(self@.nodes[i as int] == self.nodes@[i as int]@);
        }
        flags
    }

    pub(crate) fn change_one(&mut self, node_id: &str, change: NodeChange)
        requires
            old(self)@.valid(),
        ensures
            final(self)@ == old(self)@.with_nodes_changed(with_id(node_id@), change),
            final(self)@.valid(),
    {
        let ghost given = self@;
        let flags = self.flag_id(node_id);
        self.change_nodes(&flags, change);
        proof {
            lemma_changed_nodes_valid(given, with_id(node_id@), change);
            assert(self@ =~= given.with_nodes_changed(with_id(node_id@), change));
        }
    }

    /// Stores the answer of the user to a reminder.
    pub fn update_reminder(&mut self, node_id: &str, action: ReminderAction, now: i64)
        requires
            old(self)@.valid(),
            action == ReminderAction::SnoozeSevenDays ==> now + SEVEN_DAYS <= i64::MAX,
        ensures
            final(self)@ == old(self)@.with_nodes_changed(
                with_id(node_id@),
                reminder_change(action, now as int),
            ),
            final(self)@.valid(),
    {
        let change = match action {
            ReminderAction::SnoozeSevenDays => NodeChange::Remind {
                snoozed_until: Some(now + SEVEN_DAYS),
                ignore: false,
            },
            ReminderAction::Ignore => NodeChange::Remind { snoozed_until: None, ignore: true },
            ReminderAction::Reset => NodeChange::Remind { snoozed_until: None, ignore: false },
        };
        self.change_one(node_id, change);
    }

    /// Makes all tests of the named active nodes due at once.
    pub fn force_due(&mut self, node_ids: &[String], now: i64)
        requires
            old(self)@.valid(),
        ensures
            final(self)@ == old(self)@.with_nodes_changed(
                active_among(texts(node_ids@)),
                NodeChange::MakeDue { now },
            ),
            final(self)@.valid(),
    {
        let ghost given = self@;
        let flags = self.flag_active_ids(node_ids);
        let change = NodeChange::MakeDue { now };
        self.change_nodes(&flags, change);
        proof {
            lemma_changed_nodes_valid(given, active_among(texts(node_ids@)), change);
            assert(self@ =~= given.with_nodes_changed(active_among(texts(node_ids@)), change));
        }
    }

    /// Deletes all test results and starts the series of every active node over; the number of
    /// deleted results is returned.
    pub fn clear_measurements(&mut self, now: i64) -> (deleted: usize)
        requires
            old(self)@.valid(),
        ensures
            deleted == old(self)@.measurements.len(),
            final(self)@ == (StoreView { measurements: Seq::empty(), ..old(self)@ }).with_nodes_changed(
                all_active(),
                NodeChange::Restart { now },
            ),
            final(self)@.valid(),
    {
        let deleted: usize = self.measurements.len();
        self.measurements = Vec::new();
        let ghost emptied = self@;
        assert(emptied =~= (StoreView { measurements: Seq::empty(), ..old(self)@ }));
        let mut flags: Vec<bool> = Vec::new();
        for i in 0..self.nodes.len()
            invariant
                flags.len() == i,
                self@ == emptied,
                forall|k: int| 0 <= k < i ==> #[trigger] flags@[k] == all_active()(emptied.nodes[k]),
        {
            flags.push(self.nodes[i].active);
            assert(emptied.nodes[i as int] == self.nodes@[i as int]@);
        }
        let change = NodeChange::Restart { now };
        self.change_nodes(&flags, change);
        proof {
            lemma_changed_nodes_valid(emptied, all_active(), change);
            assert(self@ =~= emptied.with_nodes_changed(all_active(), change));
        }
        deleted
    }

    /// Plans the next latency test of a node.
    pub fn schedule_next_latency(&mut self, node_id: &str, next_at: i64)
        requires
            old(self)@.valid(),
        ensures
            final(self)@ == old(self)@.with_nodes_changed(
                with_id(node_id@),
                NodeChange::PlanLatency { at: next_at },
            ),
            final(self)@.valid(),
    {
        self.change_one(node_id, NodeChange::PlanLatency { at: next_at });
    }

    /// Plans the next speed test of a node in one direction; latency has no such plan.
    pub fn schedule_next_speed_direction(
        &mut self,
        node_id: &str,
        kind: MeasurementKind,
        bootstrap_stage: u8,
        next_at: i64,
    ) -> (result: Result<(), BenchmarkError>)
        requires
            old(self)@.valid(),
        ensures
            final(self)@.valid(),
            match (result, planned(kind, bootstrap_stage, next_at)) {
                (Ok(_), Some(change)) => final(self)@ == old(self)@.with_nodes_changed(
                    with_id(node_id@),
                    change,
                ),
                (Err(error), None) => error == BenchmarkError::LatencyInSpeedSchedule && final(self)@
                    == old(self)@,
                _ => false,
            },
    {
        match kind {
            MeasurementKind::Download => {
                self.change_one(node_id, NodeChange::PlanDownload { stage: bootstrap_stage, at: next_at });
                Ok(())
            },
            MeasurementKind::Upload => {
                self.change_one(node_id, NodeChange::PlanUpload { stage: bootstrap_stage, at: next_at });
                Ok(())
            },
            MeasurementKind::Latency => Err(BenchmarkError::LatencyInSpeedSchedule),
        }
    }

    /// Delays the next latency test of a node to no earlier than the given time.
    pub fn defer_latency(&mut self, node_id: &str, retry_at: i64)
        requires
            old(self)@.valid(),
        ensures
            final(self)@ == old(self)@.with_nodes_changed(
                with_id(node_id@),
                NodeChange::DelayLatency { at: retry_at },
            ),
            final(self)@.valid(),
    {
        self.change_one(node_id, NodeChange::DelayLatency { at: retry_at });
    }

    /// Delays the next speed test of a node in one direction to no earlier than the given time.
    pub fn defer_speed_direction(&mut self, node_id: &str, kind: MeasurementKind, retry_at: i64) -> (result:
        Result<(), BenchmarkError>)
        requires
            old(self)@.valid(),
        ensures
            final(self)@.valid(),
            match (result, delayed(kind, retry_at)) {
                (Ok(_), Some(change)) => final(self)@ == old(self)@.with_nodes_changed(
                    with_id(node_id@),
                    change,
                ),
                (Err(error), None) => error == BenchmarkError::LatencyInSpeedSchedule && final(self)@
                    == old(self)@,
                _ => false,
            },
    {
        match kind {
            MeasurementKind::Download => {
                self.change_one(node_id, NodeChange::DelayDownload { at: retry_at });
                Ok(())
            },
            MeasurementKind::Upload => {
                self.change_one(node_id, NodeChange::DelayUpload { at: retry_at });
                Ok(())
            },
            MeasurementKind::Latency => Err(BenchmarkError::LatencyInSpeedSchedule),
        }
    }

    /// Stores a test result of a known node.
    pub fn insert_measurement(&mut self, record: &MeasurementRecord) -> (result: Result<(), BenchmarkError>)
        requires
            old(self)@.valid(),
        ensures
            final(self)@.valid(),
            match result {
                Ok(_) => knows_node(old(self)@.nodes, record@.node_id) && final(self)@ == (StoreView {
                    measurements: old(self)@.measurements.push(stored_record(record@)),
                    ..old(self)@
                }),
                Err(error) => !knows_node(old(self)@.nodes, record@.node_id) && error
                    == BenchmarkError::ForeignNode && final(self)@ == old(self)@,
            },
    {
        let flags = self.flag_id(record.node_id.as_str());
        let mut known: bool = false;
        for i in 0..flags.len()
            invariant
                flags.len() == self@.nodes.len(),
                forall|k: int|
                    0 <= k < flags.len() ==> #[trigger] flags@[k] == with_id(record@.node_id)(self@.nodes[k]),
                known == exists|k: int|
                    0 <= k < i && (#[trigger] self@.nodes[k]).node.node_id == record@.node_id,
        {
            if flags[i] {
                assert(self@.nodes[i as int].node.node_id == record@.node_id);
                known = true;
            }
        }
        if !known {
            return Err(BenchmarkError::ForeignNode);
        }
        let value = match record.value {
            Some(value) => if value.is_not_a_number() {
                None
            } else {
                Some(value)
            },
            None => None,
        };
        let stored = MeasurementRecord {
            node_id: record.node_id.clone(),
            kind: record.kind,
            success: record.success,
            value,
            bytes_down: store_count(record.bytes_down),
            bytes_up: store_count(record.bytes_up),
            duration_ms: store_count(record.duration_ms),
            trigger: record.trigger.clone(),
            rank_eligible: record.rank_eligible,
            error: copy_text(&record.error),
            created_at: record.created_at,
        };
        self.measurements.push(stored);
        proof {
            assert(self@.measurements =~= old(self)@.measurements.push(stored_record(record@)));
        }
        Ok(())
    }
}

proof fn lemma_silenced(
    before: StoreView,
    after: StoreView,
    flags: Seq<bool>,
    chosen: spec_fn(NodeRecordView) -> bool,
)
    requires
        before.valid(),
        flags.len() == before.nodes.len(),
        forall|i: int| 0 <= i < flags.len() ==> #[trigger] flags[i] == chosen(before.nodes[i]),
        after.changes.len() == before.changes.len(),
        forall|c: int|
            0 <= c < before.changes.len() ==> #[trigger] after.changes[c] == if exists|i: int|
                0 <= i < flags.len() && flags[i] && concerns(before.changes[c], #[trigger] before.nodes[i]) {
                ChangeRecordView { relevant: false, ..before.changes[c] }
            } else {
                before.changes[c]
            },
        after == (StoreView { changes: after.changes, ..before }),
    ensures
        after.changes == silenced(before.changes, before.nodes, chosen),
        after.valid(),
{
    let target = silenced(before.changes, before.nodes, chosen);
    assert forall|c: int| 0 <= c < before.changes.len() implies #[trigger] after.changes[c] == target[c] by {
        let change = before.changes[c];
        if concerns_some(change, before.nodes, chosen) {
            let i = choose|i: int|
                0 <= i < before.nodes.len() && chosen(before.nodes[i]) && concerns(
                    change,
                    #[trigger] before.nodes[i],
                );
            assert(flags[i] == chosen(before.nodes[i]));
            assert(flags[i] && concerns(before.changes[c], before.nodes[i]));
        }
        if exists|i: int|
            0 <= i < flags.len() && flags[i] && concerns(change, #[trigger] before.nodes[i]) {
            let i = choose|i: int|
                0 <= i < flags.len() && flags[i] && concerns(change, #[trigger] before.nodes[i]);
            assert(flags[i] == chosen(before.nodes[i]));
            assert(concerns_some(change, before.nodes, chosen));
        }
    }
    assert(after.changes =~= target);
    lemma_silenced_rising(before.changes, before.nodes, chosen, before.last_change_id);
    lemma_nodes_keep_valid(before, after);
}

} // verus!
