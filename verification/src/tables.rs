//! The rows of the database and the tables that are read from them.
//!
//! Rows of an earlier layout lack some columns; what they lack is filled in from what they hold.

use vstd::prelude::*;

use crate::floats::FloatBits;
use crate::laws::in_step;
use crate::models::{
    copy_text, law_kind_text_round_trip, law_state_text_round_trip, text_view, BenchmarkChangeEvent, ChangeView, MeasurementKind, MeasurementRecord, NodeView,
    ParticipationState, RecordView, StoredNode,
};
use crate::order::{
    arranged, goes_before, indices, key_order, key_views, law_sorted_order_is_stable, slot, sorted_order,
    stable_order, KeyView, SortKey,
};
use crate::queries::number_key;
use crate::settings::{BenchmarkSettings, SettingsView};
use crate::store::{
    change_records, contains_text, distinct_nodes, distinct_profiles, measurement_records, node_records,
    profile_records, rising_changes, settings_view, stored_count, stored_record, BenchmarkStore, ChangeRecord, ChangeRecordView,
    NodeRecord, NodeRecordView, ProfileRecord, ProfileView, StoreView,
};
use crate::text::{same_text, texts};

verus! {

/// A row of the nodes.
#[derive(Debug)]
pub struct NodeRow {
    pub node_id: String,
    pub profile_uid: String,
    pub profile_name: String,
    pub node_name: String,
    pub node_type: String,
    pub fingerprint: String,
    pub state: String,
    pub manual_override: bool,
    pub active: bool,
    pub first_seen_at: i64,
    pub last_seen_at: i64,
    pub bootstrap_stage: u8,
    pub next_latency_at: i64,
    pub next_speed_at: i64,
    pub download_bootstrap_stage: Option<u8>,
    pub upload_bootstrap_stage: Option<u8>,
    pub next_download_at: Option<i64>,
    pub next_upload_at: Option<i64>,
    pub snoozed_until: Option<i64>,
    pub ignore_reminder: bool,
}

/// What a row of the nodes stands for.
#[verifier::ext_equal]
pub struct NodeRowView {
    pub node_id: Seq<char>,
    pub profile_uid: Seq<char>,
    pub profile_name: Seq<char>,
    pub node_name: Seq<char>,
    pub node_type: Seq<char>,
    pub fingerprint: Seq<char>,
    pub state: Seq<char>,
    pub manual_override: bool,
    pub active: bool,
    pub first_seen_at: i64,
    pub last_seen_at: i64,
    pub bootstrap_stage: u8,
    pub next_latency_at: i64,
    pub next_speed_at: i64,
    pub download_bootstrap_stage: Option<u8>,
    pub upload_bootstrap_stage: Option<u8>,
    pub next_download_at: Option<i64>,
    pub next_upload_at: Option<i64>,
    pub snoozed_until: Option<i64>,
    pub ignore_reminder: bool,
}

impl View for NodeRow {
    type V = NodeRowView;

    open spec fn view(&self) -> NodeRowView {
        NodeRowView {
            node_id: self.node_id@,
            profile_uid: self.profile_uid@,
            profile_name: self.profile_name@,
            node_name: self.node_name@,
            node_type: self.node_type@,
            fingerprint: self.fingerprint@,
            state: self.state@,
            manual_override: self.manual_override,
            active: self.active,
            first_seen_at: self.first_seen_at,
            last_seen_at: self.last_seen_at,
            bootstrap_stage: self.bootstrap_stage,
            next_latency_at: self.next_latency_at,
            next_speed_at: self.next_speed_at,
            download_bootstrap_stage: self.download_bootstrap_stage,
            upload_bootstrap_stage: self.upload_bootstrap_stage,
            next_download_at: self.next_download_at,
            next_upload_at: self.next_upload_at,
            snoozed_until: self.snoozed_until,
            ignore_reminder: self.ignore_reminder,
        }
    }
}

/// A value, or another one where it is missing.
pub open spec fn value_or<T>(value: Option<T>, other: T) -> T {
    match value {
        Some(value) => value,
        None => other,
    }
}

impl NodeRowView {
    /// The node that a row stands for. Directions without a stage or a time of their own take the
    /// common ones.
    pub open spec fn restored(self) -> NodeRecordView {
        NodeRecordView {
            node: NodeView {
                node_id: self.node_id,
                profile_uid: self.profile_uid,
                profile_name: self.profile_name,
                node_name: self.node_name,
                node_type: self.node_type,
                fingerprint: self.fingerprint,
                state: ParticipationState::of_text(self.state),
                manual_override: self.manual_override,
                first_seen_at: self.first_seen_at,
                last_seen_at: self.last_seen_at,
                bootstrap_stage: self.bootstrap_stage,
                next_latency_at: self.next_latency_at,
                next_speed_at: self.next_speed_at,
                download_bootstrap_stage: value_or(self.download_bootstrap_stage, self.bootstrap_stage),
                upload_bootstrap_stage: value_or(self.upload_bootstrap_stage, self.bootstrap_stage),
                next_download_at: value_or(self.next_download_at, self.next_speed_at),
                next_upload_at: value_or(self.next_upload_at, self.next_speed_at),
                snoozed_until: self.snoozed_until,
                ignore_reminder: self.ignore_reminder,
            },
            active: self.active,
        }
    }
}

/// The row that a node is stored as.
pub open spec fn node_row(record: NodeRecordView) -> NodeRowView {
    NodeRowView {
        node_id: record.node.node_id,
        profile_uid: record.node.profile_uid,
        profile_name: record.node.profile_name,
        node_name: record.node.node_name,
        node_type: record.node.node_type,
        fingerprint: record.node.fingerprint,
        state: record.node.state.text(),
        manual_override: record.node.manual_override,
        active: record.active,
        first_seen_at: record.node.first_seen_at,
        last_seen_at: record.node.last_seen_at,
        bootstrap_stage: record.node.bootstrap_stage,
        next_latency_at: record.node.next_latency_at,
        next_speed_at: record.node.next_speed_at,
        download_bootstrap_stage: Some(record.node.download_bootstrap_stage),
        upload_bootstrap_stage: Some(record.node.upload_bootstrap_stage),
        next_download_at: Some(record.node.next_download_at),
        next_upload_at: Some(record.node.next_upload_at),
        snoozed_until: record.node.snoozed_until,
        ignore_reminder: record.node.ignore_reminder,
    }
}

impl NodeRow {
    /// The node that a row stands for.
    pub fn restore(&self) -> (record: NodeRecord)
        ensures
            record@ == self@.restored(),
    {
        let node = StoredNode {
            node_id: self.node_id.clone(),
            profile_uid: self.profile_uid.clone(),
            profile_name: self.profile_name.clone(),
            node_name: self.node_name.clone(),
            node_type: self.node_type.clone(),
            fingerprint: self.fingerprint.clone(),
            state: ParticipationState::from_db(self.state.as_str()),
            manual_override: self.manual_override,
            first_seen_at: self.first_seen_at,
            last_seen_at: self.last_seen_at,
            bootstrap_stage: self.bootstrap_stage,
            next_latency_at: self.next_latency_at,
            next_speed_at: self.next_speed_at,
            download_bootstrap_stage: self.download_bootstrap_stage.unwrap_or(self.bootstrap_stage),
            upload_bootstrap_stage: self.upload_bootstrap_stage.unwrap_or(self.bootstrap_stage),
            next_download_at: self.next_download_at.unwrap_or(self.next_speed_at),
            next_upload_at: self.next_upload_at.unwrap_or(self.next_speed_at),
            snoozed_until: self.snoozed_until,
            ignore_reminder: self.ignore_reminder,
        };
        NodeRecord { node, active: self.active }
    }

    /// The row that a node is stored as.
    pub fn of(record: &NodeRecord) -> (row: NodeRow)
        ensures
            row@ == node_row(record@),
    {
        let node = &record.node;
        NodeRow {
            node_id: node.node_id.clone(),
            profile_uid: node.profile_uid.clone(),
            profile_name: node.profile_name.clone(),
            node_name: node.node_name.clone(),
            node_type: node.node_type.clone(),
            fingerprint: node.fingerprint.clone(),
            state: node.state.as_str().to_owned(),
            manual_override: node.manual_override,
            active: record.active,
            first_seen_at: node.first_seen_at,
            last_seen_at: node.last_seen_at,
            bootstrap_stage: node.bootstrap_stage,
            next_latency_at: node.next_latency_at,
            next_speed_at: node.next_speed_at,
            download_bootstrap_stage: Some(node.download_bootstrap_stage),
            upload_bootstrap_stage: Some(node.upload_bootstrap_stage),
            next_download_at: Some(node.next_download_at),
            next_upload_at: Some(node.next_upload_at),
            snoozed_until: node.snoozed_until,
            ignore_reminder: node.ignore_reminder,
        }
    }
}

/// A row of the test results.
#[derive(Debug)]
pub struct MeasurementRow {
    pub node_id: String,
    pub kind: String,
    pub success: bool,
    pub value: Option<FloatBits>,
    pub bytes_down: i64,
    pub bytes_up: i64,
    pub duration_ms: i64,
    pub trigger: String,
    pub rank_eligible: Option<bool>,
    pub error: Option<String>,
    pub created_at: i64,
}

/// What a row of the test results stands for.
#[verifier::ext_equal]
pub struct MeasurementRowView {
    pub node_id: Seq<char>,
    pub kind: Seq<char>,
    pub success: bool,
    pub value: Option<FloatBits>,
    pub bytes_down: i64,
    pub bytes_up: i64,
    pub duration_ms: i64,
    pub trigger: Seq<char>,
    pub rank_eligible: Option<bool>,
    pub error: Option<Seq<char>>,
    pub created_at: i64,
}

impl View for MeasurementRow {
    type V = MeasurementRowView;

    open spec fn view(&self) -> MeasurementRowView {
        MeasurementRowView {
            node_id: self.node_id@,
            kind: self.kind@,
            success: self.success,
            value: self.value,
            bytes_down: self.bytes_down,
            bytes_up: self.bytes_up,
            duration_ms: self.duration_ms,
            trigger: self.trigger@,
            rank_eligible: self.rank_eligible,
            error: text_view(self.error),
            created_at: self.created_at,
        }
    }
}

/// A stored count; negative ones count as zero.
pub open spec fn count_of(stored: i64) -> u64 {
    if stored < 0 {
        0
    } else {
        stored as u64
    }
}

fn read_count(stored: i64) -> (count: u64)
    ensures
        count == count_of(stored),
{
    if stored < 0 {
        0
    } else {
        stored as u64
    }
}

impl MeasurementRowView {
    /// The test result that a row stands for. Rows without the note count.
    pub open spec fn restored(self) -> RecordView {
        RecordView {
            node_id: self.node_id,
            kind: MeasurementKind::of_text(self.kind),
            success: self.success,
            value: self.value,
            bytes_down: count_of(self.bytes_down),
            bytes_up: count_of(self.bytes_up),
            duration_ms: count_of(self.duration_ms),
            trigger: self.trigger,
            rank_eligible: value_or(self.rank_eligible, true),
            error: self.error,
            created_at: self.created_at,
        }
    }
}

/// The row that a test result is stored as.
pub open spec fn measurement_row(record: RecordView) -> MeasurementRowView {
    let stored = stored_record(record);
    MeasurementRowView {
        node_id: stored.node_id,
        kind: stored.kind.text(),
        success: stored.success,
        value: stored.value,
        bytes_down: stored.bytes_down as i64,
        bytes_up: stored.bytes_up as i64,
        duration_ms: stored.duration_ms as i64,
        trigger: stored.trigger,
        rank_eligible: Some(stored.rank_eligible),
        error: stored.error,
        created_at: stored.created_at,
    }
}

fn write_count(count: u64) -> (stored: i64)
    ensures
        stored == stored_count(count) as i64,
{
    if count > i64::MAX as u64 {
        i64::MAX
    } else {
        count as i64
    }
}

impl MeasurementRow {
    /// The test result that a row stands for.
    pub fn restore(&self) -> (record: MeasurementRecord)
        ensures
            record@ == self@.restored(),
    {
        MeasurementRecord {
            node_id: self.node_id.clone(),
            kind: MeasurementKind::from_db(self.kind.as_str()),
            success: self.success,
            value: self.value,
            bytes_down: read_count(self.bytes_down),
            bytes_up: read_count(self.bytes_up),
            duration_ms: read_count(self.duration_ms),
            trigger: self.trigger.clone(),
            rank_eligible: self.rank_eligible.unwrap_or(true),
            error: copy_text(&self.error),
            created_at: self.created_at,
        }
    }

    /// The row that a test result is stored as.
    pub fn of(record: &MeasurementRecord) -> (row: MeasurementRow)
        ensures
            row@ == measurement_row(record@),
    {
        let value = match record.value {
            Some(value) => if value.is_not_a_number() {
                None
            } else {
                Some(value)
            },
            None => None,
        };
        MeasurementRow {
            node_id: record.node_id.clone(),
            kind: record.kind.as_str().to_owned(),
            success: record.success,
            value,
            bytes_down: write_count(record.bytes_down),
            bytes_up: write_count(record.bytes_up),
            duration_ms: write_count(record.duration_ms),
            trigger: record.trigger.clone(),
            rank_eligible: Some(record.rank_eligible),
            error: copy_text(&record.error),
            created_at: record.created_at,
        }
    }
}

/// A row of the changes.
#[derive(Debug)]
pub struct ChangeRow {
    pub event: BenchmarkChangeEvent,
    pub relevant: Option<bool>,
}

/// What a row of the changes stands for.
#[verifier::ext_equal]
pub struct ChangeRowView {
    pub event: ChangeView,
    pub relevant: Option<bool>,
}

impl View for ChangeRow {
    type V = ChangeRowView;

    open spec fn view(&self) -> ChangeRowView {
        ChangeRowView { event: self.event@, relevant: self.relevant }
    }
}

/// Whether a change is about an excluded node.
pub open spec fn about_excluded(event: ChangeView, nodes: Seq<NodeRecordView>) -> bool {
    exists|i: int|
        0 <= i < nodes.len() && event.node_name == Some((#[trigger] nodes[i]).node.node_name)
            && event.profile_uid == nodes[i].node.profile_uid && nodes[i].node.state
            == ParticipationState::Excluded
}

impl ChangeRowView {
    /// The change that a row stands for. Rows without the note matter, unless they are about an
    /// excluded node.
    pub open spec fn restored(self, nodes: Seq<NodeRecordView>) -> ChangeRecordView {
        ChangeRecordView {
            event: self.event,
            relevant: value_or(self.relevant, !about_excluded(self.event, nodes)),
        }
    }
}

/// The row that a change is stored as.
pub open spec fn change_row(record: ChangeRecordView) -> ChangeRowView {
    ChangeRowView { event: record.event, relevant: Some(record.relevant) }
}

/// All rows of the database.
#[derive(Debug)]
pub struct StoredTables {
    pub settings: Option<BenchmarkSettings>,
    pub profiles: Vec<ProfileRecord>,
    pub nodes: Vec<NodeRow>,
    pub measurements: Vec<MeasurementRow>,
    pub changes: Vec<ChangeRow>,
    pub last_change_id: i64,
}

/// What all rows of the database stand for.
#[verifier::ext_equal]
pub struct RowsView {
    pub settings: Option<SettingsView>,
    pub profiles: Seq<ProfileView>,
    pub nodes: Seq<NodeRowView>,
    pub measurements: Seq<MeasurementRowView>,
    pub changes: Seq<ChangeRowView>,
    pub last_change_id: int,
}

impl View for StoredTables {
    type V = RowsView;

    open spec fn view(&self) -> RowsView {
        RowsView {
            settings: settings_view(self.settings),
            profiles: profile_records(self.profiles@),
            nodes: self.nodes@.map_values(|row: NodeRow| row@),
            measurements: self.measurements@.map_values(|row: MeasurementRow| row@),
            changes: self.changes@.map_values(|row: ChangeRow| row@),
            last_change_id: self.last_change_id as int,
        }
    }
}

/// The key that orders changes: their number.
pub open spec fn number_key_of() -> spec_fn(ChangeRowView) -> Seq<KeyView> {
    |row: ChangeRowView| seq![KeyView::Number(row.event.id as int)]
}

/// The changes in the order of their numbers.
pub open spec fn by_number(changes: Seq<ChangeRowView>) -> Seq<ChangeRowView> {
    arranged(changes, changes.map_values(number_key_of()))
}

/// The highest number that was ever given: the one that is noted, or a higher one of a change.
pub open spec fn highest_number(changes: Seq<ChangeRowView>, noted: int) -> int
    decreases changes.len(),
{
    if changes.len() == 0 {
        noted
    } else {
        let front = highest_number(changes.drop_last(), noted);
        if changes.last().event.id > front {
            changes.last().event.id as int
        } else {
            front
        }
    }
}

impl RowsView {
    /// Whether no table holds two rows with the same key.
    pub open spec fn keys_differ(self) -> bool {
        &&& forall|i: int, j: int|
            0 <= i < j < self.nodes.len() ==> (#[trigger] self.nodes[i]).node_id != (
            #[trigger] self.nodes[j]).node_id
        &&& distinct_profiles(self.profiles)
        &&& forall|i: int, j: int|
            0 <= i < j < self.changes.len() ==> (#[trigger] self.changes[i]).event.id != (
            #[trigger] self.changes[j]).event.id
    }

    /// The tables that the rows stand for. Changes come in the order of their numbers.
    pub open spec fn restored(self) -> StoreView {
        let nodes = self.nodes.map_values(|row: NodeRowView| row.restored());
        StoreView {
            settings: self.settings,
            profiles: self.profiles,
            nodes,
            measurements: self.measurements.map_values(|row: MeasurementRowView| row.restored()),
            changes: by_number(self.changes).map_values(|row: ChangeRowView| row.restored(nodes)),
            last_change_id: highest_number(self.changes, self.last_change_id),
        }
    }
}

impl StoreView {
    /// The rows that the tables are stored as.
    pub open spec fn rows(self) -> RowsView {
        RowsView {
            settings: self.settings,
            profiles: self.profiles,
            nodes: self.nodes.map_values(|record: NodeRecordView| node_row(record)),
            measurements: self.measurements.map_values(|record: RecordView| measurement_row(record)),
            changes: self.changes.map_values(|record: ChangeRecordView| change_row(record)),
            last_change_id: self.last_change_id,
        }
    }

    /// Whether all test results are as the database can hold them.
    pub open spec fn storable(self) -> bool {
        forall|i: int|
            0 <= i < self.measurements.len() ==> stored_record(#[trigger] self.measurements[i])
                == self.measurements[i]
    }
}

proof fn lemma_number_order(changes: Seq<ChangeRowView>, i: int, j: int)
    requires
        0 <= i < changes.len(),
        0 <= j < changes.len(),
    ensures
        ({
            let keys = changes.map_values(number_key_of());
            let order = key_order(keys[i], keys[j]);
            &&& order < 0 <==> changes[i].event.id < changes[j].event.id
            &&& order == 0 <==> changes[i].event.id == changes[j].event.id
        }),
{
    let keys = changes.map_values(number_key_of());
    reveal_with_fuel(key_order, 2);
    assert(keys[i].drop_first().len() == 0);
    assert(keys[j].drop_first().len() == 0);
}

proof fn lemma_highest_number(changes: Seq<ChangeRowView>, noted: int)
    ensures
        noted <= highest_number(changes, noted),
        forall|i: int|
            0 <= i < changes.len() ==> (#[trigger] changes[i]).event.id <= highest_number(changes, noted),
        (forall|i: int| 0 <= i < changes.len() ==> (#[trigger] changes[i]).event.id <= noted)
            ==> highest_number(changes, noted) == noted,
    decreases changes.len(),
{
    if changes.len() > 0 {
        let front = changes.drop_last();
        lemma_highest_number(front, noted);
        assert forall|i: int| 0 <= i < changes.len() implies (#[trigger] changes[i]).event.id <= highest_number(
            changes,
            noted,
        ) by {
            if i < front.len() {
                assert(front[i].event.id <= highest_number(front, noted));
            }
        }
        if forall|i: int| 0 <= i < changes.len() ==> (#[trigger] changes[i]).event.id <= noted {
            assert forall|i: int| 0 <= i < front.len() implies (#[trigger] front[i]).event.id <= noted by {
                assert(changes[i].event.id <= noted);
            }
            assert(changes[changes.len() - 1].event.id <= noted);
        }
    }
}

proof fn lemma_restored_valid(rows: RowsView)
    ensures
        rows.restored().valid() == rows.keys_differ(),
{
    let store = rows.restored();
    let changes = rows.changes;
    let keys = changes.map_values(number_key_of());
    let order = sorted_order(keys);
    law_sorted_order_is_stable(keys);
    lemma_highest_number(changes, rows.last_change_id);
    assert forall|i: int| 0 <= i < store.changes.len() implies (#[trigger] store.changes[i]).event
        == changes[order[i]].event by {
        assert(by_number(changes)[i] == changes[order[i]]);
    }
    if rows.keys_differ() {
        assert forall|i: int, j: int| 0 <= i < j < store.nodes.len() implies (
        #[trigger] store.nodes[i]).node.node_id != (#[trigger] store.nodes[j]).node.node_id by {
            assert(rows.nodes[i].node_id != rows.nodes[j].node_id);
        }
        assert forall|i: int, j: int| 0 <= i < j < store.changes.len() implies (
        #[trigger] store.changes[i]).event.id < (#[trigger] store.changes[j]).event.id by {
            assert(goes_before(keys, order[i], order[j]));
            lemma_number_order(changes, order[i], order[j]);
            if changes[order[i]].event.id == changes[order[j]].event.id {
                assert(order[i] < order[j]);
                assert(changes[order[i]].event.id != changes[order[j]].event.id);
            }
        }
        assert forall|i: int| 0 <= i < store.changes.len() implies (#[trigger] store.changes[i]).event.id
            <= store.last_change_id by {
            assert(changes[order[i]].event.id <= highest_number(changes, rows.last_change_id));
        }
        assert(store.valid());
    }
    if store.valid() {
        assert forall|i: int, j: int| 0 <= i < j < rows.nodes.len() implies (#[trigger] rows.nodes[i]).node_id
            != (#[trigger] rows.nodes[j]).node_id by {
            assert(store.nodes[i].node.node_id != store.nodes[j].node.node_id);
        }
        assert forall|i: int, j: int| 0 <= i < j < changes.len() implies (#[trigger] changes[i]).event.id != (
        #[trigger] changes[j]).event.id by {
            assert(order.contains(i));
            assert(order.contains(j));
            let a = choose|a: int| 0 <= a < order.len() && order[a] == i;
            let b = choose|b: int| 0 <= b < order.len() && order[b] == j;
            assert(a != b);
            if a < b {
                assert(store.changes[a].event.id < store.changes[b].event.id);
            } else {
                assert(store.changes[b].event.id < store.changes[a].event.id);
            }
        }
        assert(rows.keys_differ());
    }
}

fn order_changes(rows: &Vec<ChangeRow>) -> (order: Vec<usize>)
    ensures
        ({
            let changes = rows@.map_values(|row: ChangeRow| row@);
            &&& order.len() == changes.len()
            &&& by_number(changes).len() == changes.len()
            &&& forall|k: int|
                0 <= k < order.len() ==> (#[trigger] order@[k]) < rows.len() && by_number(changes)[k]
                    == changes[order@[k] as int]
        }),
{
    let ghost changes = rows@.map_values(|row: ChangeRow| row@);
    let ghost wanted = changes.map_values(number_key_of());
    let mut keys: Vec<SortKey> = Vec::new();
    for i in 0..rows.len()
        invariant
            changes == rows@.map_values(|row: ChangeRow| row@),
            wanted == changes.map_values(number_key_of()),
            key_views(keys@) == wanted.take(i as int),
    {
        let ghost before = keys@;
        assert(changes[i as int] == rows@[i as int]@);
        let key = number_key(rows[i].event.id as i128);
        keys.push(key);
        assert(key@ =~= wanted[i as int]);
        assert(key_views(keys@) =~= key_views(before).push(key@));
        assert(wanted.take(i + 1) =~= wanted.take(i as int).push(wanted[i as int]));
    }
    assert(wanted.take(wanted.len() as int) =~= wanted);
    let order = stable_order(&keys);
    proof {
        law_sorted_order_is_stable(wanted);
        assert forall|k: int| 0 <= k < order.len() implies (#[trigger] order@[k]) < rows.len()
            && by_number(changes)[k] == changes[order@[k] as int] by {
            assert(indices(order@)[k] == order@[k] as int);
        }
    }
    order
}

fn find_highest(rows: &Vec<ChangeRow>, noted: i64) -> (highest: i64)
    ensures
        highest == highest_number(rows@.map_values(|row: ChangeRow| row@), noted as int),
{
    let ghost changes = rows@.map_values(|row: ChangeRow| row@);
    let mut highest: i64 = noted;
    assert(changes.take(0) =~= Seq::empty());
    for i in 0..rows.len()
        invariant
            changes == rows@.map_values(|row: ChangeRow| row@),
            highest == highest_number(changes.take(i as int), noted as int),
    {
        assert(changes.take(i + 1).drop_last() =~= changes.take(i as int));
        assert(changes.take(i + 1).last() == rows@[i as int]@);
        if rows[i].event.id > highest {
            highest = rows[i].event.id;
        }
    }
    assert(changes.take(changes.len() as int) =~= changes);
    highest
}

fn restore_relevance(row: &ChangeRow, nodes: &Vec<NodeRecord>) -> (record: ChangeRecord)
    ensures
        record@ == row@.restored(node_records(nodes@)),
{
    let ghost views = node_records(nodes@);
    let relevant: bool = match row.relevant {
        Some(relevant) => relevant,
        None => {
            let mut excluded: bool = false;
            for i in 0..nodes.len()
                invariant
                    views == node_records(nodes@),
                    excluded == exists|k: int|
                        0 <= k < i && row@.event.node_name == Some((#[trigger] views[k]).node.node_name)
                            && row@.event.profile_uid == views[k].node.profile_uid && views[k].node.state
                            == ParticipationState::Excluded,
            {
                let node = &nodes[i].node;
                assert(views[i as int] == nodes@[i as int]@);
                let same_name: bool = match &row.event.node_name {
                    Some(name) => same_text(name.as_str(), node.node_name.as_str()),
                    None => false,
                };
                if same_name && same_text(row.event.profile_uid.as_str(), node.profile_uid.as_str())
                    && node.state == ParticipationState::Excluded {
                    assert(row@.event.node_name == Some(views[i as int].node.node_name));
                    excluded = true;
                }
            }
            assert(excluded == about_excluded(row@.event, views));
            !excluded
        },
    };
    ChangeRecord { event: row.event.clone(), relevant }
}

impl BenchmarkStore {
    fn nodes_distinct(&self) -> (result: bool)
        ensures
            result == distinct_nodes(self@.nodes),
    {
        let ghost all = self@.nodes;
        for j in 0..self.nodes.len()
            invariant
                all == self@.nodes,
                forall|a: int, b: int|
                    0 <= a < b < j ==> (#[trigger] all[a]).node.node_id != (#[trigger] all[b]).node.node_id,
        {
            for i in 0..j
                invariant
                    all == self@.nodes,
                    j < self.nodes.len(),
                    forall|a: int| 0 <= a < i ==> (#[trigger] all[a]).node.node_id != all[j as int].node.node_id,
            {
                assert(all[i as int] == self.nodes@[i as int]@);
                assert(all[j as int] == self.nodes@[j as int]@);
                if same_text(self.nodes[i].node.node_id.as_str(), self.nodes[j].node.node_id.as_str()) {
                    assert(all[i as int].node.node_id == all[j as int].node.node_id);
                    return false;
                }
            }
        }
        true
    }

    fn profiles_distinct(&self) -> (result: bool)
        ensures
            result == distinct_profiles(self@.profiles),
    {
        let ghost all = self@.profiles;
        for j in 0..self.profiles.len()
            invariant
                all == self@.profiles,
                forall|a: int, b: int|
                    0 <= a < b < j ==> (#[trigger] all[a]).profile_uid != (#[trigger] all[b]).profile_uid,
        {
            for i in 0..j
                invariant
                    all == self@.profiles,
                    j < self.profiles.len(),
                    forall|a: int| 0 <= a < i ==> (#[trigger] all[a]).profile_uid != all[j as int].profile_uid,
            {
                assert(all[i as int] == self.profiles@[i as int]@);
                assert(all[j as int] == self.profiles@[j as int]@);
                if same_text(self.profiles[i].profile_uid.as_str(), self.profiles[j].profile_uid.as_str()) {
                    assert(all[i as int].profile_uid == all[j as int].profile_uid);
                    return false;
                }
            }
        }
        true
    }

    fn changes_rising(&self) -> (result: bool)
        ensures
            result == rising_changes(self@.changes, self@.last_change_id),
    {
        let ghost all = self@.changes;
        for j in 0..self.changes.len()
            invariant
                all == self@.changes,
                forall|a: int, b: int|
                    0 <= a < b < j ==> (#[trigger] all[a]).event.id < (#[trigger] all[b]).event.id,
                forall|a: int| 0 <= a < j ==> (#[trigger] all[a]).event.id <= self@.last_change_id,
        {
            assert(all[j as int] == self.changes@[j as int]@);
            if self.changes[j].event.id > self.last_change_id {
                assert(!(all[j as int].event.id <= self@.last_change_id));
                return false;
            }
            if j > 0 {
                assert(all[j - 1] == self.changes@[j - 1]@);
                if self.changes[j - 1].event.id >= self.changes[j].event.id {
                    assert(!(all[j - 1].event.id < all[j as int].event.id));
                    return false;
                }
            }
            assert forall|a: int, b: int| 0 <= a < b < j + 1 implies (#[trigger] all[a]).event.id < (
            #[trigger] all[b]).event.id by {
                if b == j && a < j - 1 {
                    assert(all[a].event.id < all[j - 1].event.id);
                }
            }
        }
        true
    }

    /// Whether the tables are as they should be.
    pub fn is_valid(&self) -> (result: bool)
        ensures
            result == self@.valid(),
    {
        self.nodes_distinct() && self.profiles_distinct() && self.changes_rising()
    }

    /// Opens the tables that the rows of the database stand for. Only rows that repeat a key, which
    /// no database holds, are refused.
    pub fn open(rows: StoredTables) -> (result: Option<BenchmarkStore>)
        ensures
            match result {
                Some(store) => rows@.keys_differ() && store@ == rows@.restored() && store@.valid(),
                None => !rows@.keys_differ(),
            },
    {
        let ghost wanted = rows@.restored();
        let ghost given = rows@;
        let mut nodes: Vec<NodeRecord> = Vec::new();
        for i in 0..rows.nodes.len()
            invariant
                given == rows@,
                wanted == given.restored(),
                node_records(nodes@) == wanted.nodes.take(i as int),
        {
            let record = rows.nodes[i].restore();
            assert(given.nodes[i as int] == rows.nodes@[i as int]@);
            let ghost before = nodes@;
            nodes.push(record);
            assert(node_records(nodes@) =~= node_records(before).push(record@));
            assert(wanted.nodes.take(i + 1) =~= wanted.nodes.take(i as int).push(wanted.nodes[i as int]));
        }
        assert(wanted.nodes.take(wanted.nodes.len() as int) =~= wanted.nodes);
        let mut measurements: Vec<MeasurementRecord> = Vec::new();
        for i in 0..rows.measurements.len()
            invariant
                given == rows@,
                wanted == given.restored(),
                measurement_records(measurements@) == wanted.measurements.take(i as int),
        {
            let record = rows.measurements[i].restore();
            assert(given.measurements[i as int] == rows.measurements@[i as int]@);
            let ghost before = measurements@;
            measurements.push(record);
            assert(measurement_records(measurements@) =~= measurement_records(before).push(record@));
            assert(wanted.measurements.take(i + 1) =~= wanted.measurements.take(i as int).push(
                wanted.measurements[i as int],
            ));
        }
        assert(wanted.measurements.take(wanted.measurements.len() as int) =~= wanted.measurements);
        let order = order_changes(&rows.changes);
        let ghost sorted = by_number(given.changes);
        proof {
            law_sorted_order_is_stable(given.changes.map_values(number_key_of()));
        }
        let mut changes: Vec<ChangeRecord> = Vec::new();
        for i in 0..order.len()
            invariant
                given == rows@,
                wanted == given.restored(),
                sorted == by_number(given.changes),
                node_records(nodes@) == wanted.nodes,
                order.len() == sorted.len(),
                forall|k: int|
                    0 <= k < order.len() ==> (#[trigger] order@[k]) < rows.changes.len() && sorted[k]
                        == given.changes[order@[k] as int],
                wanted.changes.len() == sorted.len(),
                change_records(changes@) == wanted.changes.take(i as int),
        {
            assert(order@[i as int] < rows.changes.len());
            let record = restore_relevance(&rows.changes[order[i]], &nodes);
            assert(sorted[i as int] == rows.changes@[order@[i as int] as int]@);
            let ghost before = changes@;
            changes.push(record);
            assert(change_records(changes@) =~= change_records(before).push(record@));
            assert(wanted.changes.take(i + 1) =~= wanted.changes.take(i as int).push(wanted.changes[i as int]));
        }
        assert(wanted.changes.take(wanted.changes.len() as int) =~= wanted.changes);
        let last_change_id: i64 = find_highest(&rows.changes, rows.last_change_id);
        let store = BenchmarkStore {
            settings: rows.settings,
            profiles: rows.profiles,
            nodes,
            measurements,
            changes,
            last_change_id,
        };
        assert(store@ =~= wanted);
        proof {
            lemma_restored_valid(given);
        }
        if store.is_valid() {
            Some(store)
        } else {
            None
        }
    }
}

/// The tables of the database that gained columns over time.
#[derive(Debug, Clone, Copy, PartialEq, Eq, Structural)]
pub enum GrownTable {
    Measurements,
    Nodes,
    Changes,
}

/// The columns that a table of an earlier layout can lack.
pub open spec fn later_columns(table: GrownTable) -> Seq<Seq<char>> {
    match table {
        GrownTable::Measurements => seq!["rank_eligible"@],
        GrownTable::Nodes => seq![
            "download_bootstrap_stage"@,
            "upload_bootstrap_stage"@,
            "next_download_at"@,
            "next_upload_at"@,
        ],
        GrownTable::Changes => seq!["relevant"@],
    }
}

/// The columns of a list that another list lacks.
pub open spec fn lacking(wanted: Seq<Seq<char>>, present: Seq<Seq<char>>) -> Seq<Seq<char>>
    decreases wanted.len(),
{
    if wanted.len() == 0 {
        wanted
    } else {
        let front = lacking(wanted.drop_last(), present);
        if present.contains(wanted.last()) {
            front
        } else {
            front.push(wanted.last())
        }
    }
}

fn list_later_columns(table: GrownTable) -> (columns: Vec<String>)
    ensures
        texts(columns@) == later_columns(table),
{
    let mut columns: Vec<String> = Vec::new();
    match table {
        GrownTable::Measurements => {
            columns.push("rank_eligible".to_owned());
        },
        GrownTable::Nodes => {
            columns.push("download_bootstrap_stage".to_owned());
            columns.push("upload_bootstrap_stage".to_owned());
            columns.push("next_download_at".to_owned());
            columns.push("next_upload_at".to_owned());
        },
        GrownTable::Changes => {
            columns.push("relevant".to_owned());
        },
    }
    assert(texts(columns@) =~= later_columns(table));
    columns
}

/// The columns that have to be added to a table, given those that it has.
pub fn missing_columns(table: GrownTable, present: &[String]) -> (columns: Vec<String>)
    ensures
        texts(columns@) == lacking(later_columns(table), texts(present@)),
{
    let wanted = list_later_columns(table);
    let ghost all = texts(wanted@);
    let mut columns: Vec<String> = Vec::new();
    assert(texts(columns@) =~= Seq::empty());
    assert(all.take(0) =~= Seq::empty());
    for i in 0..wanted.len()
        invariant
            all == texts(wanted@),
            texts(columns@) == lacking(all.take(i as int), texts(present@)),
    {
        assert(all.take(i + 1).drop_last() =~= all.take(i as int));
        assert(all.take(i + 1).last() == wanted@[i as int]@);
        if !contains_text(present, wanted[i].as_str()) {
            let ghost before = columns@;
            columns.push(wanted[i].clone());
            assert(texts(columns@) =~= texts(before).push(wanted@[i as int]@));
        }
    }
    assert(all.take(all.len() as int) =~= all);
    columns
}

proof fn lemma_in_order(changes: Seq<ChangeRowView>)
    requires
        forall|i: int, j: int|
            0 <= i < j < changes.len() ==> (#[trigger] changes[i]).event.id < (#[trigger] changes[j]).event.id,
    ensures
        by_number(changes) == changes,
    decreases changes.len(),
{
    let keys = changes.map_values(number_key_of());
    let order = sorted_order(keys);
    if changes.len() > 0 {
        let front = changes.drop_last();
        let front_keys = front.map_values(number_key_of());
        let before = sorted_order(front_keys);
        assert(keys.drop_last() =~= front_keys);
        lemma_in_order(front);
        law_sorted_order_is_stable(front_keys);
        lemma_in_order_slot(changes, before);
        assert(order =~= before.push(changes.len() - 1));
        assert forall|k: int| 0 <= k < changes.len() implies by_number(changes)[k] == changes[k] by {
            if k < front.len() {
                assert(by_number(front)[k] == front[before[k]]);
                assert(order[k] == before[k]);
            }
        }
    }
    assert(by_number(changes) =~= changes);
}

proof fn lemma_in_order_slot(changes: Seq<ChangeRowView>, before: Seq<int>)
    requires
        changes.len() > 0,
        before.len() == changes.len() - 1,
        forall|i: int| 0 <= i < before.len() ==> 0 <= #[trigger] before[i] < changes.len() - 1,
        forall|i: int, j: int|
            0 <= i < j < changes.len() ==> (#[trigger] changes[i]).event.id < (#[trigger] changes[j]).event.id,
    ensures
        slot(
            before,
            changes.map_values(number_key_of()),
            changes.map_values(number_key_of()).last(),
        ) == before.len(),
{
    if before.len() > 0 {
        let last = before[before.len() - 1];
        lemma_number_order(changes, last, changes.len() - 1);
        assert(changes[last].event.id < changes[changes.len() - 1].event.id);
    }
}

/// What is read back from the rows of stored tables is what was stored.
pub proof fn law_reopening_gives_back_the_tables(store: StoreView)
    requires
        store.valid(),
        store.storable(),
    ensures
        store.rows().restored() == store,
{
    let rows = store.rows();
    let back = rows.restored();
    lemma_in_order(rows.changes);
    lemma_highest_number(rows.changes, rows.last_change_id);
    assert forall|i: int| 0 <= i < store.nodes.len() implies back.nodes[i] == store.nodes[i] by {
        law_state_text_round_trip(store.nodes[i].node.state);
        assert(back.nodes[i] =~= store.nodes[i]);
    }
    assert forall|i: int| 0 <= i < store.measurements.len() implies back.measurements[i]
        == store.measurements[i] by {
        law_kind_text_round_trip(store.measurements[i].kind);
        assert(stored_record(store.measurements[i]) == store.measurements[i]);
        assert(back.measurements[i] =~= store.measurements[i]);
    }
    assert forall|i: int| 0 <= i < store.changes.len() implies back.changes[i] == store.changes[i] by {
        assert(back.changes[i] =~= store.changes[i]);
    }
    assert(back =~= store);
}

/// A stored test result keeps the tables as the database can hold them.
pub proof fn law_results_are_storable(store: StoreView, record: RecordView)
    requires
        store.storable(),
    ensures
        store.with_record(record).storable(),
{
    let after = store.with_record(record);
    assert forall|i: int| 0 <= i < after.measurements.len() implies stored_record(
        #[trigger] after.measurements[i],
    ) == after.measurements[i] by {
        if i < store.measurements.len() {
            assert(after.measurements[i] == store.measurements[i]);
        } else {
            assert(stored_record(stored_record(record)) =~= stored_record(record));
        }
    }
}

/// Rows of the first layout give each direction the common stage and time, let every result count
/// and let every change matter that is not about an excluded node.
pub proof fn law_first_rows_are_completed(
    row: NodeRowView,
    result: MeasurementRowView,
    change: ChangeRowView,
    nodes: Seq<NodeRecordView>,
)
    requires
        row.download_bootstrap_stage is None,
        row.upload_bootstrap_stage is None,
        row.next_download_at is None,
        row.next_upload_at is None,
        result.rank_eligible is None,
        change.relevant is None,
    ensures
        row.restored().node.download_bootstrap_stage == row.bootstrap_stage,
        row.restored().node.upload_bootstrap_stage == row.bootstrap_stage,
        row.restored().node.next_download_at == row.next_speed_at,
        row.restored().node.next_upload_at == row.next_speed_at,
        in_step(row.restored().node),
        result.restored().rank_eligible,
        change.restored(nodes).relevant == !about_excluded(change.event, nodes),
{
}

} // verus!
