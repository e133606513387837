//! What can be read from the tables.

use crate::errors::BenchmarkError;
use crate::keywords::{default_state_for_name, proposed_state};
use crate::models::{
    BenchmarkChangeEvent, BenchmarkProfileSummary, ChangeView, MeasurementRecord, NodeView,
    ParticipationState, RecordView, StoredNode, copy_text, text_view,
};
use crate::order::{KeyPart, KeyView, SortKey, arranged, indices, key_views, stable_order};
use crate::query_laws::{law_due_latency_tests_are_listed, law_due_participants_are_listed};
use crate::settings::{BenchmarkSettings, SettingsView};
use crate::store::{
    BenchmarkStore, ChangeRecordView, NodeRecordView, StoreView, active_of_profile, all_active,
    contains_text, earlier, measurement_records, node_views, profile_of, selected_nodes,
};
use crate::text::{same_text, texts};
use vstd::prelude::*;

verus! {

/// The most nodes that one query of due nodes returns.
pub const DUE_LIMIT: usize = 500;

/// The first items of a list.
pub open spec fn at_most<T>(items: Seq<T>, limit: int) -> Seq<T> {
    if items.len() <= limit {
        items
    } else {
        items.take(limit)
    }
}

/// Nodes in the order of their keys.
pub open spec fn ordered_nodes(nodes: Seq<NodeView>, key: spec_fn(NodeView) -> Seq<KeyView>) -> Seq<NodeView> {
    arranged(nodes, nodes.map_values(key))
}

/// Whether a latency test of a node is due: the user confirmed the node, it takes part or is
/// observed, and the time has come.
pub open spec fn latency_due(now: i64) -> spec_fn(NodeRecordView) -> bool {
    |record: NodeRecordView|
        record.active && record.node.manual_override && (record.node.state
            == ParticipationState::Participating || record.node.state == ParticipationState::Observe)
            && record.node.next_latency_at <= now
}

/// Whether a speed test of a node is due: the user confirmed that the node takes part, and the
/// time has come in one direction.
pub open spec fn speed_due(now: i64) -> spec_fn(NodeRecordView) -> bool {
    |record: NodeRecordView|
        record.active && record.node.manual_override && record.node.state
            == ParticipationState::Participating && (record.node.next_download_at <= now
            || record.node.next_upload_at <= now)
}

/// Chooses the active node of a profile with a name.
pub open spec fn active_named(profile_uid: Seq<char>, node_name: Seq<char>) -> spec_fn(
    NodeRecordView,
) -> bool {
    |record: NodeRecordView|
        record.active && record.node.profile_uid == profile_uid && record.node.node_name == node_name
}

/// The key that orders nodes for display: profile name, then node name.
pub open spec fn display_key() -> spec_fn(NodeView) -> Seq<KeyView> {
    |node: NodeView| seq![KeyView::Text(node.profile_name), KeyView::Text(node.node_name)]
}

/// The key that orders nodes with due latency tests: time, then profile, then name.
pub open spec fn latency_key() -> spec_fn(NodeView) -> Seq<KeyView> {
    |node: NodeView|
        seq![
            KeyView::Number(node.next_latency_at as int),
            KeyView::Text(node.profile_uid),
            KeyView::Text(node.node_name),
        ]
}

/// The key that orders nodes with due speed tests: the earlier time, then profile, then name.
pub open spec fn speed_key() -> spec_fn(NodeView) -> Seq<KeyView> {
    |node: NodeView|
        seq![
            KeyView::Number(earlier(node.next_download_at, node.next_upload_at) as int),
            KeyView::Text(node.profile_uid),
            KeyView::Text(node.node_name),
        ]
}

/// The key that puts the node seen last first.
pub open spec fn latest_key() -> spec_fn(NodeView) -> Seq<KeyView> {
    |node: NodeView| seq![KeyView::Number(-(node.last_seen_at as int))]
}

impl StoreView {
    /// The active nodes in display order.
    pub open spec fn active_nodes(self) -> Seq<NodeView> {
        ordered_nodes(selected_nodes(self.nodes, all_active()), display_key())
    }

    /// The nodes whose latency test is due, the longest waiting first.
    pub open spec fn due_latency_nodes(self, now: i64) -> Seq<NodeView> {
        at_most(
            ordered_nodes(selected_nodes(self.nodes, latency_due(now)), latency_key()),
            DUE_LIMIT as int,
        )
    }

    /// The nodes whose speed test is due, the longest waiting first.
    pub open spec fn due_speed_nodes(self, now: i64) -> Seq<NodeView> {
        at_most(
            ordered_nodes(selected_nodes(self.nodes, speed_due(now)), speed_key()),
            DUE_LIMIT as int,
        )
    }

    /// The active node of a profile with a name, the one seen last where there are several.
    pub open spec fn node_by_name(self, profile_uid: Seq<char>, node_name: Seq<char>) -> Option<NodeView> {
        let found = ordered_nodes(
            selected_nodes(self.nodes, active_named(profile_uid, node_name)),
            latest_key(),
        );
        if found.len() == 0 {
            None
        } else {
            Some(found[0])
        }
    }
}

fn arrange_nodes(nodes: Vec<StoredNode>, keys: Vec<SortKey>) -> (result: Vec<StoredNode>)
    requires
        keys.len() == nodes.len(),
    ensures
        node_views(result@) == arranged(node_views(nodes@), key_views(keys@)),
{
    let order = stable_order(&keys);
    let ghost views = node_views(nodes@);
    let ghost wanted = arranged(views, key_views(keys@));
    let mut result: Vec<StoredNode> = Vec::new();
    for i in 0..order.len()
        invariant
            order.len() == nodes.len(),
            views == node_views(nodes@),
            wanted == indices(order@).map_values(|i: int| views[i]),
            forall|k: int| 0 <= k < order.len() ==> #[trigger] order@[k] < nodes.len(),
            node_views(result@) == wanted.take(i as int),
    {
        let ghost before = result@;
        let copy = nodes[order[i]].clone();
        result.push(copy);
        assert(indices(order@)[i as int] == order@[i as int]);
        assert(node_views(result@) =~= node_views(before).push(copy@));
        assert(wanted.take(i + 1) =~= wanted.take(i as int).push(wanted[i as int]));
    }
    assert(wanted.take(wanted.len() as int) =~= wanted);
    result
}

fn shorten(nodes: Vec<StoredNode>, limit: usize) -> (result: Vec<StoredNode>)
    ensures
        node_views(result@) == at_most(node_views(nodes@), limit as int),
{
    let mut result = nodes;
    let ghost given = result@;
    if result.len() > limit {
        result.truncate(limit);
        assert(node_views(result@) =~= node_views(given).take(limit as int));
    }
    result
}

/// A key of a number and two texts.
fn timed_key(at: i64, first: &str, second: &str) -> (key: SortKey)
    ensures
        key@ == seq![KeyView::Number(at as int), KeyView::Text(first@), KeyView::Text(second@)],
{
    let mut parts: Vec<KeyPart> = Vec::new();
    parts.push(KeyPart::Number(at as i128));
    parts.push(KeyPart::text(first));
    parts.push(KeyPart::text(second));
    let key = SortKey { parts };
    assert(key@ =~= seq![KeyView::Number(at as int), KeyView::Text(first@), KeyView::Text(second@)]);
    key
}

/// A key of two texts.
fn paired_key(first: &str, second: &str) -> (key: SortKey)
    ensures
        key@ == seq![KeyView::Text(first@), KeyView::Text(second@)],
{
    let mut parts: Vec<KeyPart> = Vec::new();
    parts.push(KeyPart::text(first));
    parts.push(KeyPart::text(second));
    let key = SortKey { parts };
    assert(key@ =~= seq![KeyView::Text(first@), KeyView::Text(second@)]);
    key
}

/// A key of a number.
pub(crate) fn number_key(number: i128) -> (key: SortKey)
    ensures
        key@ == seq![KeyView::Number(number as int)],
{
    let mut parts: Vec<KeyPart> = Vec::new();
    parts.push(KeyPart::Number(number));
    let key = SortKey { parts };
    assert(key@ =~= seq![KeyView::Number(number as int)]);
    key
}

impl BenchmarkStore {
    /// All active nodes, by profile name and node name.
    pub fn active_nodes(&self) -> (result: Vec<StoredNode>)
        ensures
            node_views(result@) == self@.active_nodes(),
    {
        let mut flags: Vec<bool> = Vec::new();
        for i in 0..self.nodes.len()
            invariant
                flags.len() == i,
                forall|k: int| 0 <= k < i ==> #[trigger] flags@[k] == all_active()(self@.nodes[k]),
        {
            flags.push(self.nodes[i].active);
            assert(self@.nodes[i as int] == self.nodes@[i as int]@);
        }
        let nodes = self.pick(&flags, Ghost(all_active()));
        let ghost wanted = node_views(nodes@).map_values(display_key());
        let mut keys: Vec<SortKey> = Vec::new();
        for i in 0..nodes.len()
            invariant
                wanted == node_views(nodes@).map_values(display_key()),
                keys.len() == i,
                key_views(keys@) == wanted.take(i as int),
        {
            let ghost before = keys@;
            let key = paired_key(nodes[i].profile_name.as_str(), nodes[i].node_name.as_str());
            keys.push(key);
            assert(key_views(keys@) =~= key_views(before).push(key@));
            assert(wanted[i as int] == key@);
        }
        assert(wanted.take(wanted.len() as int) =~= wanted);
        arrange_nodes(nodes, keys)
    }

    /// The confirmed nodes whose latency test is due, the longest waiting first, at most 500.
    pub fn due_latency_nodes(&self, now: i64) -> (result: Vec<StoredNode>)
        ensures
            node_views(result@) == self@.due_latency_nodes(now),
            forall|i: int|
                0 <= i < self@.nodes.len() && (#[trigger] self@.nodes[i]).active
                    && self@.nodes[i].node.manual_override && (self@.nodes[i].node.state
                    == ParticipationState::Participating || self@.nodes[i].node.state
                    == ParticipationState::Observe) && self@.nodes[i].node.next_latency_at <= now
                    ==> node_views(result@).contains(self@.nodes[i].node) || result.len() == 500,
    {
        proof {
            assert forall|i: int|
                0 <= i < self@.nodes.len() && (#[trigger] self@.nodes[i]).active
                    && self@.nodes[i].node.manual_override && (self@.nodes[i].node.state
                    == ParticipationState::Participating || self@.nodes[i].node.state
                    == ParticipationState::Observe) && self@.nodes[i].node.next_latency_at <= now
                implies self@.due_latency_nodes(now).contains(self@.nodes[i].node)
                || self@.due_latency_nodes(now).len() == 500 by {
                law_due_latency_tests_are_listed(self@, now, i);
            }
        }
        let mut flags: Vec<bool> = Vec::new();
        for i in 0..self.nodes.len()
            invariant
                flags.len() == i,
                forall|k: int| 0 <= k < i ==> #[trigger] flags@[k] == latency_due(now)(self@.nodes[k]),
        {
            let record = &self.nodes[i];
            let takes_part: bool = record.node.state == ParticipationState::Participating
                || record.node.state == ParticipationState::Observe;
            flags.push(
                record.active && record.node.manual_override && takes_part && record.node.next_latency_at
                    <= now,
            );
            assert(self@.nodes[i as int] == self.nodes@[i as int]@);
        }
        let nodes = self.pick(&flags, Ghost(latency_due(now)));
        let ghost wanted = node_views(nodes@).map_values(latency_key());
        let mut keys: Vec<SortKey> = Vec::new();
        for i in 0..nodes.len()
            invariant
                wanted == node_views(nodes@).map_values(latency_key()),
                keys.len() == i,
                key_views(keys@) == wanted.take(i as int),
        {
            let ghost before = keys@;
            let node = &nodes[i];
            let key = timed_key(
                node.next_latency_at,
                node.profile_uid.as_str(),
                node.node_name.as_str(),
            );
            keys.push(key);
            assert(key_views(keys@) =~= key_views(before).push(key@));
            assert(wanted[i as int] == key@);
        }
        assert(wanted.take(wanted.len() as int) =~= wanted);
        shorten(arrange_nodes(nodes, keys), DUE_LIMIT)
    }

    /// The confirmed participants with a due speed test in at least one direction, the longest
    /// waiting first, at most 500.
    pub fn due_speed_nodes(&self, now: i64) -> (result: Vec<StoredNode>)
        ensures
            node_views(result@) == self@.due_speed_nodes(now),
            forall|i: int|
                0 <= i < self@.nodes.len() && (#[trigger] self@.nodes[i]).active
                    && self@.nodes[i].node.manual_override && self@.nodes[i].node.state
                    == ParticipationState::Participating && (self@.nodes[i].node.next_download_at <= now
                    || self@.nodes[i].node.next_upload_at <= now) ==> node_views(result@).contains(
                    self@.nodes[i].node,
                ) || result.len() == 500,
    {
        proof {
            assert forall|i: int|
                0 <= i < self@.nodes.len() && (#[trigger] self@.nodes[i]).active
                    && self@.nodes[i].node.manual_override && self@.nodes[i].node.state
                    == ParticipationState::Participating && (self@.nodes[i].node.next_download_at <= now
                    || self@.nodes[i].node.next_upload_at <= now) implies self@.due_speed_nodes(now).contains(
                self@.nodes[i].node,
            ) || self@.due_speed_nodes(now).len() == 500 by {
                law_due_participants_are_listed(self@, now, i);
            }
        }
        let mut flags: Vec<bool> = Vec::new();
        for i in 0..self.nodes.len()
            invariant
                flags.len() == i,
                forall|k: int| 0 <= k < i ==> #[trigger] flags@[k] == speed_due(now)(self@.nodes[k]),
        {
            let record = &self.nodes[i];
            let due: bool = record.node.next_download_at <= now || record.node.next_upload_at <= now;
            flags.push(
                record.active && record.node.manual_override && record.node.state
                    == ParticipationState::Participating && due,
            );
            assert(self@.nodes[i as int] == self.nodes@[i as int]@);
        }
        let nodes = self.pick(&flags, Ghost(speed_due(now)));
        let ghost wanted = node_views(nodes@).map_values(speed_key());
        let mut keys: Vec<SortKey> = Vec::new();
        for i in 0..nodes.len()
            invariant
                wanted == node_views(nodes@).map_values(speed_key()),
                keys.len() == i,
                key_views(keys@) == wanted.take(i as int),
        {
            let ghost before = keys@;
            let node = &nodes[i];
            let first: i64 = if node.next_download_at <= node.next_upload_at {
                node.next_download_at
            } else {
                node.next_upload_at
            };
            let key = timed_key(first, node.profile_uid.as_str(), node.node_name.as_str());
            keys.push(key);
            assert(key_views(keys@) =~= key_views(before).push(key@));
            assert(wanted[i as int] == key@);
        }
        assert(wanted.take(wanted.len() as int) =~= wanted);
        shorten(arrange_nodes(nodes, keys), DUE_LIMIT)
    }

    /// The active node of a profile with a name, the one seen last where there are several.
    pub fn node_by_profile_and_name(&self, profile_uid: &str, node_name: &str) -> (result: Option<StoredNode>)
        ensures
            match result {
                Some(node) => self@.node_by_name(profile_uid@, node_name@) == Some(node@),
                None => self@.node_by_name(profile_uid@, node_name@) is None,
            },
    {
        let ghost chosen = active_named(profile_uid@, node_name@);
        let mut flags: Vec<bool> = Vec::new();
        for i in 0..self.nodes.len()
            invariant
                flags.len() == i,
                chosen == active_named(profile_uid@, node_name@),
                forall|k: int| 0 <= k < i ==> #[trigger] flags@[k] == chosen(self@.nodes[k]),
        {
            let record = &self.nodes[i];
            flags.push(
                record.active && same_text(record.node.profile_uid.as_str(), profile_uid) && same_text(
                    record.node.node_name.as_str(),
                    node_name,
                ),
            );
            assert(self@.nodes[i as int] == self.nodes@[i as int]@);
        }
        let nodes = self.pick(&flags, Ghost(chosen));
        let ghost wanted = node_views(nodes@).map_values(latest_key());
        let mut keys: Vec<SortKey> = Vec::new();
        for i in 0..nodes.len()
            invariant
                wanted == node_views(nodes@).map_values(latest_key()),
                keys.len() == i,
                key_views(keys@) == wanted.take(i as int),
        {
            let ghost before = keys@;
            let seen: i128 = nodes[i].last_seen_at as i128;
            let key = number_key(-seen);
            keys.push(key);
            assert(key_views(keys@) =~= key_views(before).push(key@));
            assert(wanted[i as int] == key@);
        }
        assert(wanted.take(wanted.len() as int) =~= wanted);
        let ghost found = ordered_nodes(node_views(nodes@), latest_key());
        let mut arranged_nodes = arrange_nodes(nodes, keys);
        assert(node_views(arranged_nodes@) == found);
        if arranged_nodes.len() == 0 {
            None
        } else {
            assert(found[0] == arranged_nodes@[0]@);
            Some(arranged_nodes.swap_remove(0))
        }
    }
}

/// The test results of some nodes from a time on, in the order of the table.
pub open spec fn selected_records(
    records: Seq<RecordView>,
    node_ids: Seq<Seq<char>>,
    start_at: i64,
) -> Seq<RecordView>
    decreases records.len(),
{
    if records.len() == 0 {
        records
    } else {
        let front = selected_records(records.drop_last(), node_ids, start_at);
        let last = records.last();
        if last.created_at >= start_at && node_ids.contains(last.node_id) {
            front.push(last)
        } else {
            front
        }
    }
}

/// The bytes that test results from a time on moved; only those of the given nodes count.
pub open spec fn moved_bytes(
    records: Seq<RecordView>,
    counted: spec_fn(RecordView) -> bool,
    down: bool,
) -> int
    decreases records.len(),
{
    if records.len() == 0 {
        0
    } else {
        let last = records.last();
        moved_bytes(records.drop_last(), counted, down) + if counted(last) {
            if down {
                last.bytes_down as int
            } else {
                last.bytes_up as int
            }
        } else {
            0
        }
    }
}

/// Counts every test result from a time on.
pub open spec fn counted_since(start_at: i64) -> spec_fn(RecordView) -> bool {
    |record: RecordView| record.created_at >= start_at
}

/// Counts the test results of some nodes from a time on.
pub open spec fn counted_of(node_ids: Seq<Seq<char>>, start_at: i64) -> spec_fn(RecordView) -> bool {
    |record: RecordView| record.created_at >= start_at && node_ids.contains(record.node_id)
}

proof fn lemma_moved_bytes_grow(
    records: Seq<RecordView>,
    counted: spec_fn(RecordView) -> bool,
    down: bool,
    n: int,
)
    requires
        0 <= n <= records.len(),
    ensures
        0 <= moved_bytes(records.take(n), counted, down) <= moved_bytes(records, counted, down),
    decreases records.len(),
{
    if records.len() == n {
        assert(records.take(n) =~= records);
        if n > 0 {
            lemma_moved_bytes_grow(records.drop_last(), counted, down, n - 1);
            assert(records.drop_last().take(n - 1) =~= records.drop_last());
        }
    } else {
        lemma_moved_bytes_grow(records.drop_last(), counted, down, n);
        assert(records.drop_last().take(n) =~= records.take(n));
    }
}

/// A pair of sums, unless one of them exceeds what the tables can hold.
pub open spec fn sums(down: int, up: int) -> Result<(int, int), BenchmarkError> {
    if down > i64::MAX || up > i64::MAX {
        Err(BenchmarkError::TrafficOverflow)
    } else {
        Ok((down, up))
    }
}

/// The traffic of one profile: id, name, bytes down, bytes up.
pub type ProfileTraffic = (Seq<char>, Seq<char>, int, int);

/// The pairs of profile id and name among the active nodes, each once.
pub open spec fn profile_pairs(nodes: Seq<NodeRecordView>) -> Seq<(Seq<char>, Seq<char>)>
    decreases nodes.len(),
{
    if nodes.len() == 0 {
        Seq::empty()
    } else {
        let front = profile_pairs(nodes.drop_last());
        let pair = (nodes.last().node.profile_uid, nodes.last().node.profile_name);
        if nodes.last().active && !front.contains(pair) {
            front.push(pair)
        } else {
            front
        }
    }
}

/// The ids of the active nodes with a profile id and a profile name.
pub open spec fn pair_ids(nodes: Seq<NodeRecordView>, pair: (Seq<char>, Seq<char>)) -> Seq<Seq<char>>
    decreases nodes.len(),
{
    if nodes.len() == 0 {
        Seq::empty()
    } else {
        let front = pair_ids(nodes.drop_last(), pair);
        let node = nodes.last().node;
        if nodes.last().active && (node.profile_uid, node.profile_name) == pair {
            front.push(node.node_id)
        } else {
            front
        }
    }
}

/// The key that orders pairs of profile id and name: by name, then by id.
pub open spec fn pair_key() -> spec_fn((Seq<char>, Seq<char>)) -> Seq<KeyView> {
    |pair: (Seq<char>, Seq<char>)| seq![KeyView::Text(pair.1), KeyView::Text(pair.0)]
}

impl StoreView {
    /// The test results of some nodes from a time on, the oldest first.
    pub open spec fn records_since(self, node_ids: Seq<Seq<char>>, start_at: i64) -> Seq<RecordView> {
        let records = selected_records(self.measurements, node_ids, start_at);
        arranged(records, records.map_values(|record: RecordView| seq![KeyView::Number(record.created_at as int)]))
    }

    /// The bytes moved from a time on.
    pub open spec fn traffic_since(self, start_at: i64) -> Result<(int, int), BenchmarkError> {
        sums(
            moved_bytes(self.measurements, counted_since(start_at), true),
            moved_bytes(self.measurements, counted_since(start_at), false),
        )
    }

    /// The bytes that the active nodes of a profile moved from a time on.
    pub open spec fn pair_traffic(self, pair: (Seq<char>, Seq<char>), start_at: i64) -> (int, int) {
        let counted = counted_of(pair_ids(self.nodes, pair), start_at);
        (
            moved_bytes(self.measurements, counted, true),
            moved_bytes(self.measurements, counted, false),
        )
    }

    /// The profiles with active nodes, by name.
    pub open spec fn ordered_pairs(self) -> Seq<(Seq<char>, Seq<char>)> {
        let pairs = profile_pairs(self.nodes);
        arranged(pairs, pairs.map_values(pair_key()))
    }

    /// Whether the traffic of a profile exceeds what the tables can hold.
    pub open spec fn pair_overflows(self, pair: (Seq<char>, Seq<char>), start_at: i64) -> bool {
        self.pair_traffic(pair, start_at).0 > i64::MAX || self.pair_traffic(pair, start_at).1 > i64::MAX
    }

    /// The traffic of every profile with active nodes from a time on, by profile name.
    pub open spec fn traffic_by_profile(self, start_at: i64) -> Result<Seq<ProfileTraffic>, BenchmarkError> {
        let pairs = self.ordered_pairs();
        if exists|i: int| 0 <= i < pairs.len() && self.pair_overflows(#[trigger] pairs[i], start_at) {
            Err(BenchmarkError::TrafficOverflow)
        } else {
            Ok(
                pairs.map_values(
                    |pair: (Seq<char>, Seq<char>)|
                        (
                            pair.0,
                            pair.1,
                            self.pair_traffic(pair, start_at).0,
                            self.pair_traffic(pair, start_at).1,
                        ),
                ),
            )
        }
    }
}

fn arrange_records(records: Vec<MeasurementRecord>) -> (result: Vec<MeasurementRecord>)
    ensures
        measurement_records(result@) == arranged(
            measurement_records(records@),
            measurement_records(records@).map_values(
                |record: RecordView| seq![KeyView::Number(record.created_at as int)],
            ),
        ),
{
    let ghost views = measurement_records(records@);
    let ghost keyed = views.map_values(|record: RecordView| seq![KeyView::Number(record.created_at as int)]);
    let mut keys: Vec<SortKey> = Vec::new();
    for i in 0..records.len()
        invariant
            views == measurement_records(records@),
            keyed == views.map_values(
                |record: RecordView| seq![KeyView::Number(record.created_at as int)],
            ),
            keys.len() == i,
            key_views(keys@) == keyed.take(i as int),
    {
        let ghost before = keys@;
        let key = number_key(records[i].created_at as i128);
        keys.push(key);
        assert(key_views(keys@) =~= key_views(before).push(key@));
        assert(keyed[i as int] == key@);
    }
    assert(keyed.take(keyed.len() as int) =~= keyed);
    let order = stable_order(&keys);
    let ghost wanted = arranged(views, keyed);
    let mut result: Vec<MeasurementRecord> = Vec::new();
    for i in 0..order.len()
        invariant
            order.len() == records.len(),
            views == measurement_records(records@),
            wanted == indices(order@).map_values(|i: int| views[i]),
            forall|k: int| 0 <= k < order.len() ==> #[trigger] order@[k] < records.len(),
            measurement_records(result@) == wanted.take(i as int),
    {
        let ghost before = result@;
        let copy = records[order[i]].clone();
        result.push(copy);
        assert(indices(order@)[i as int] == order@[i as int]);
        assert(measurement_records(result@) =~= measurement_records(before).push(copy@));
        assert(wanted.take(i + 1) =~= wanted.take(i as int).push(wanted[i as int]));
    }
    assert(wanted.take(wanted.len() as int) =~= wanted);
    result
}

/// What rows of profile traffic stand for.
pub open spec fn traffic_rows(rows: Seq<(String, String, u64, u64)>) -> Seq<ProfileTraffic> {
    rows.map_values(|row: (String, String, u64, u64)| (row.0@, row.1@, row.2 as int, row.3 as int))
}

impl BenchmarkStore {
    /// The test results of the named nodes from a time on, the oldest first.
    pub fn measurements_for_nodes_since(&self, node_ids: &[String], start_at: i64) -> (result: Vec<
        MeasurementRecord,
    >)
        ensures
            measurement_records(result@) == self@.records_since(texts(node_ids@), start_at),
    {
        let mut found: Vec<MeasurementRecord> = Vec::new();
        let ghost all = self@.measurements;
        let ghost ids = texts(node_ids@);
        assert(measurement_records(found@) =~= Seq::empty());
        assert(all.take(0) =~= Seq::empty());
        for i in 0..self.measurements.len()
            invariant
                all == self@.measurements,
                ids == texts(node_ids@),
                measurement_records(found@) == selected_records(all.take(i as int), ids, start_at),
        {
            let record = &self.measurements[i];
            assert(all[i as int] == self.measurements@[i as int]@);
            assert(all.take(i + 1).drop_last() =~= all.take(i as int));
            assert(all.take(i + 1).last() == all[i as int]);
            if record.created_at >= start_at && contains_text(node_ids, record.node_id.as_str()) {
                let ghost before = found@;
                let copy = record.clone();
                found.push(copy);
                assert(measurement_records(found@) =~= measurement_records(before).push(copy@));
            }
        }
        assert(all.take(all.len() as int) =~= all);
        arrange_records(found)
    }

    /// The bytes moved down and up from a time on.
    pub fn actual_traffic_since(&self, start_at: i64) -> (result: Result<(u64, u64), BenchmarkError>)
        ensures
            match (result, self@.traffic_since(start_at)) {
                (Ok(bytes), Ok(sums)) => bytes.0 == sums.0 && bytes.1 == sums.1,
                (Err(error), Err(refusal)) => error == refusal,
                _ => false,
            },
    {
        let mut flags: Vec<bool> = Vec::new();
        let ghost counted = counted_since(start_at);
        for i in 0..self.measurements.len()
            invariant
                flags.len() == i,
                counted == counted_since(start_at),
                forall|k: int| 0 <= k < i ==> #[trigger] flags@[k] == counted(self@.measurements[k]),
        {
            flags.push(self.measurements[i].created_at >= start_at);
            assert(self@.measurements[i as int] == self.measurements@[i as int]@);
        }
        self.sum_flagged(&flags, Ghost(counted))
    }

    fn sum_flagged(&self, flags: &Vec<bool>, Ghost(counted): Ghost<spec_fn(RecordView) -> bool>) -> (result:
        Result<(u64, u64), BenchmarkError>)
        requires
            flags.len() == self.measurements.len(),
            forall|i: int| 0 <= i < flags.len() ==> #[trigger] flags@[i] == counted(self@.measurements[i]),
        ensures
            match (
                result,
                sums(
                    moved_bytes(self@.measurements, counted, true),
                    moved_bytes(self@.measurements, counted, false),
                ),
            ) {
                (Ok(bytes), Ok(sums)) => bytes.0 == sums.0 && bytes.1 == sums.1,
                (Err(error), Err(refusal)) => error == refusal,
                _ => false,
            },
    {
        let ghost all = self@.measurements;
        let limit: u64 = i64::MAX as u64;
        let mut down: u64 = 0;
        let mut up: u64 = 0;
        assert(all.take(0) =~= Seq::empty());
        for i in 0..self.measurements.len()
            invariant
                all == self@.measurements,
                limit == i64::MAX,
                flags.len() == self.measurements.len(),
                forall|k: int| 0 <= k < flags.len() ==> #[trigger] flags@[k] == counted(all[k]),
                down == moved_bytes(all.take(i as int), counted, true),
                up == moved_bytes(all.take(i as int), counted, false),
                down <= limit,
                up <= limit,
        {
            let record = &self.measurements[i];
            assert(all[i as int] == self.measurements@[i as int]@);
            assert(all.take(i + 1).drop_last() =~= all.take(i as int));
            assert(all.take(i + 1).last() == all[i as int]);
            proof {
                lemma_moved_bytes_grow(all, counted, true, i + 1);
                lemma_moved_bytes_grow(all, counted, false, i + 1);
            }
            if flags[i] {
                if record.bytes_down > limit - down || record.bytes_up > limit - up {
                    return Err(BenchmarkError::TrafficOverflow);
                }
                down = down + record.bytes_down;
                up = up + record.bytes_up;
            }
        }
        assert(all.take(all.len() as int) =~= all);
        Ok((down, up))
    }

    fn list_pairs(&self) -> (result: Vec<(String, String)>)
        ensures
            pair_views(result@) == profile_pairs(self@.nodes),
    {
        let ghost all = self@.nodes;
        let mut pairs: Vec<(String, String)> = Vec::new();
        assert(pair_views(pairs@) =~= Seq::empty());
        assert(all.take(0) =~= Seq::empty());
        for i in 0..self.nodes.len()
            invariant
                all == self@.nodes,
                pair_views(pairs@) == profile_pairs(all.take(i as int)),
        {
            let record = &self.nodes[i];
            assert(all[i as int] == self.nodes@[i as int]@);
            assert(all.take(i + 1).drop_last() =~= all.take(i as int));
            assert(all.take(i + 1).last() == all[i as int]);
            let ghost pair = (record.node.profile_uid@, record.node.profile_name@);
            let mut known: bool = false;
            for k in 0..pairs.len()
                invariant
                    i < self.nodes.len(),
                    pair == (record.node.profile_uid@, record.node.profile_name@),
                    known == exists|m: int| 0 <= m < k && #[trigger] pair_views(pairs@)[m] == pair,
            {
                assert(pair_views(pairs@)[k as int] == (pairs@[k as int].0@, pairs@[k as int].1@));
                if same_text(pairs[k].0.as_str(), record.node.profile_uid.as_str()) && same_text(
                    pairs[k].1.as_str(),
                    record.node.profile_name.as_str(),
                ) {
                    known = true;
                }
            }
            proof {
                if known {
                    let m = choose|m: int| 0 <= m < pairs.len() && #[trigger] pair_views(pairs@)[m] == pair;
                    assert(pair_views(pairs@).contains(pair));
                }
                if pair_views(pairs@).contains(pair) {
                    let m = choose|m: int| 0 <= m < pair_views(pairs@).len() && pair_views(pairs@)[m] == pair;
                    assert(known);
                }
            }
            if record.active && !known {
                let ghost before = pairs@;
                pairs.push((record.node.profile_uid.clone(), record.node.profile_name.clone()));
                assert(pair_views(pairs@) =~= pair_views(before).push(pair));
            }
        }
        assert(all.take(all.len() as int) =~= all);
        pairs
    }

    fn list_pair_ids(&self, pair: &(String, String)) -> (result: Vec<String>)
        ensures
            texts(result@) == pair_ids(self@.nodes, (pair.0@, pair.1@)),
    {
        let ghost all = self@.nodes;
        let mut ids: Vec<String> = Vec::new();
        assert(texts(ids@) =~= Seq::empty());
        assert(all.take(0) =~= Seq::empty());
        for i in 0..self.nodes.len()
            invariant
                all == self@.nodes,
                texts(ids@) == pair_ids(all.take(i as int), (pair.0@, pair.1@)),
        {
            let record = &self.nodes[i];
            assert(all[i as int] == self.nodes@[i as int]@);
            assert(all.take(i + 1).drop_last() =~= all.take(i as int));
            assert(all.take(i + 1).last() == all[i as int]);
            if record.active && same_text(record.node.profile_uid.as_str(), pair.0.as_str()) && same_text(
                record.node.profile_name.as_str(),
                pair.1.as_str(),
            ) {
                let ghost before = ids@;
                ids.push(record.node.node_id.clone());
                assert(texts(ids@) =~= texts(before).push(record.node.node_id@));
            }
        }
        assert(all.take(all.len() as int) =~= all);
        ids
    }

    /// The bytes moved from a time on by the active nodes of each profile, by profile name.
    pub fn actual_traffic_by_profile_since(&self, start_at: i64) -> (result: Result<
        Vec<(String, String, u64, u64)>,
        BenchmarkError,
    >)
        ensures
            match (result, self@.traffic_by_profile(start_at)) {
                (Ok(rows), Ok(traffic)) => traffic_rows(rows@) == traffic,
                (Err(error), Err(refusal)) => error == refusal,
                _ => false,
            },
    {
        let pairs = self.list_pairs();
        let ghost views = pair_views(pairs@);
        let ghost keyed = views.map_values(pair_key());
        let mut keys: Vec<SortKey> = Vec::new();
        for i in 0..pairs.len()
            invariant
                views == pair_views(pairs@),
                keyed == views.map_values(pair_key()),
                keys.len() == i,
                key_views(keys@) == keyed.take(i as int),
        {
            let ghost before = keys@;
            let key = paired_key(pairs[i].1.as_str(), pairs[i].0.as_str());
            keys.push(key);
            assert(key_views(keys@) =~= key_views(before).push(key@));
            assert(keyed[i as int] == key@);
        }
        assert(keyed.take(keyed.len() as int) =~= keyed);
        let order = stable_order(&keys);
        let ghost wanted = self@.ordered_pairs();
        assert(wanted == indices(order@).map_values(|i: int| views[i]));
        let ghost rows = wanted.map_values(
            |pair: (Seq<char>, Seq<char>)|
                (
                    pair.0,
                    pair.1,
                    self@.pair_traffic(pair, start_at).0,
                    self@.pair_traffic(pair, start_at).1,
                ),
        );
        let mut result: Vec<(String, String, u64, u64)> = Vec::new();
        for i in 0..order.len()
            invariant
                order.len() == pairs.len(),
                views == pair_views(pairs@),
                wanted == self@.ordered_pairs(),
                wanted == indices(order@).map_values(|i: int| views[i]),
                rows == wanted.map_values(
                    |pair: (Seq<char>, Seq<char>)|
                        (
                            pair.0,
                            pair.1,
                            self@.pair_traffic(pair, start_at).0,
                            self@.pair_traffic(pair, start_at).1,
                        ),
                ),
                forall|k: int| 0 <= k < order.len() ==> #[trigger] order@[k] < pairs.len(),
                traffic_rows(result@) == rows.take(i as int),
                forall|k: int| 0 <= k < i ==> !self@.pair_overflows(#[trigger] wanted[k], start_at),
        {
            let pair = &pairs[order[i]];
            assert(indices(order@)[i as int] == order@[i as int]);
            assert(wanted[i as int] == (pair.0@, pair.1@));
            let ids = self.list_pair_ids(pair);
            let ghost counted = counted_of(texts(ids@), start_at);
            let mut flags: Vec<bool> = Vec::new();
            for k in 0..self.measurements.len()
                invariant
                    flags.len() == k,
                    counted == counted_of(texts(ids@), start_at),
                    forall|m: int| 0 <= m < k ==> #[trigger] flags@[m] == counted(self@.measurements[m]),
            {
                let record = &self.measurements[k];
                flags.push(
                    record.created_at >= start_at && contains_text(ids.as_slice(), record.node_id.as_str()),
                );
                assert(self@.measurements[k as int] == self.measurements@[k as int]@);
            }
            match self.sum_flagged(&flags, Ghost(counted)) {
                Err(error) => {
                    assert(self@.pair_overflows(wanted[i as int], start_at));
                    return Err(error);
                },
                Ok((down, up)) => {
                    let ghost before = result@;
                    let row = (pair.0.clone(), pair.1.clone(), down, up);
                    result.push(row);
                    assert(traffic_rows(result@) =~= traffic_rows(before).push(
                        (row.0@, row.1@, down as int, up as int),
                    ));
                    assert(rows[i as int] == (row.0@, row.1@, down as int, up as int));
                },
            }
        }
        assert(rows.take(rows.len() as int) =~= rows);
        Ok(result)
    }
}

/// What pairs of texts stand for.
pub open spec fn pair_views(pairs: Seq<(String, String)>) -> Seq<(Seq<char>, Seq<char>)> {
    pairs.map_values(|pair: (String, String)| (pair.0@, pair.1@))
}

/// The newest changes that matter, at most a given number of them, the newest first.
pub open spec fn newest_changes(changes: Seq<ChangeRecordView>, limit: int) -> Seq<ChangeView>
    decreases changes.len(),
{
    if changes.len() == 0 || limit <= 0 {
        Seq::empty()
    } else if changes.last().relevant {
        seq![changes.last().event] + newest_changes(changes.drop_last(), limit - 1)
    } else {
        newest_changes(changes.drop_last(), limit)
    }
}

/// Whether the keywords keep a change: it is about a whole profile, or about a node that they
/// do not exclude.
pub open spec fn change_wanted(change: ChangeView, settings: SettingsView) -> bool {
    match change.node_name {
        Some(node_name) => proposed_state(node_name, change.profile_name, settings)
            != ParticipationState::Excluded,
        None => true,
    }
}

/// The changes that the keywords keep.
pub open spec fn wanted_changes(changes: Seq<ChangeView>, settings: SettingsView) -> Seq<ChangeView>
    decreases changes.len(),
{
    if changes.len() == 0 {
        changes
    } else {
        let front = wanted_changes(changes.drop_last(), settings);
        if change_wanted(changes.last(), settings) {
            front.push(changes.last())
        } else {
            front
        }
    }
}

/// How many changes are looked at to show a given number of them.
pub open spec fn looked_at(limit: usize) -> int {
    if limit * 10 > usize::MAX {
        usize::MAX as int
    } else {
        limit * 10
    }
}

/// What a list of changes stands for.
pub open spec fn change_views(changes: Seq<BenchmarkChangeEvent>) -> Seq<ChangeView> {
    changes.map_values(|change: BenchmarkChangeEvent| change@)
}

impl StoreView {
    /// The changes to show: among the newest that matter those that the keywords keep.
    pub open spec fn recent_changes(self, limit: usize, settings: SettingsView) -> Seq<ChangeView> {
        at_most(
            wanted_changes(newest_changes(self.changes, looked_at(limit)), settings),
            limit as int,
        )
    }
}

impl BenchmarkStore {
    /// The newest changes that matter and that the keywords keep, the newest first.
    pub fn recent_changes(&self, limit: usize, settings: &BenchmarkSettings) -> (result: Vec<BenchmarkChangeEvent>)
        ensures
            change_views(result@) == self@.recent_changes(limit, settings@),
    {
        let budget: usize = if limit > usize::MAX / 10 {
            usize::MAX
        } else {
            limit * 10
        };
        let ghost all = self@.changes;
        let mut newest: Vec<BenchmarkChangeEvent> = Vec::new();
        let mut left: usize = budget;
        let mut at: usize = self.changes.len();
        assert(all.take(at as int) =~= all);
        assert(change_views(newest@) =~= Seq::empty());
        assert(newest_changes(all, budget as int) =~= change_views(newest@) + newest_changes(
            all.take(at as int),
            left as int,
        ));
        while at > 0 && left > 0
            invariant
                at <= self.changes.len(),
                all == self@.changes,
                newest_changes(all, budget as int) == change_views(newest@) + newest_changes(
                    all.take(at as int),
                    left as int,
                ),
            decreases at,
        {
            at = at - 1;
            let record = &self.changes[at];
            let ghost rest = all.take(at + 1);
            assert(rest.last() == self.changes@[at as int]@);
            assert(rest.drop_last() =~= all.take(at as int));
            if record.relevant {
                let ghost before = newest@;
                let copy = record.event.clone();
                newest.push(copy);
                left = left - 1;
                proof {
                    assert(change_views(newest@) =~= change_views(before).push(copy@));
                    assert(change_views(before) + (seq![copy@] + newest_changes(all.take(at as int), left as int))
                        =~= change_views(newest@) + newest_changes(all.take(at as int), left as int));
                }
            }
        }
        assert(newest_changes(all.take(at as int), left as int) =~= Seq::empty());
        assert(change_views(newest@) =~= newest_changes(all, budget as int));
        let ghost views = change_views(newest@);
        let mut kept: Vec<BenchmarkChangeEvent> = Vec::new();
        assert(change_views(kept@) =~= Seq::empty());
        assert(views.take(0) =~= Seq::empty());
        for i in 0..newest.len()
            invariant
                views == change_views(newest@),
                change_views(kept@) == wanted_changes(views.take(i as int), settings@),
        {
            let change = &newest[i];
            assert(views.take(i + 1).drop_last() =~= views.take(i as int));
            assert(views.take(i + 1).last() == change@);
            let wanted: bool = match &change.node_name {
                Some(node_name) => default_state_for_name(
                    node_name.as_str(),
                    change.profile_name.as_str(),
                    settings,
                ) != ParticipationState::Excluded,
                None => true,
            };
            if wanted {
                let ghost before = kept@;
                let copy = change.clone();
                kept.push(copy);
                assert(change_views(kept@) =~= change_views(before).push(copy@));
            }
        }
        assert(views.take(views.len() as int) =~= views);
        let ghost all_kept = kept@;
        if kept.len() > limit {
            kept.truncate(limit);
            assert(change_views(kept@) =~= change_views(all_kept).take(limit as int));
        }
        kept
    }
}

/// What a profile summary stands for.
pub struct SummaryView {
    pub uid: Seq<char>,
    pub name: Seq<char>,
    pub available: bool,
    pub selected: bool,
    pub node_count: int,
    pub scan_error: Option<Seq<char>>,
    pub last_scanned_at: Option<i64>,
}

impl View for BenchmarkProfileSummary {
    type V = SummaryView;

    open spec fn view(&self) -> SummaryView {
        SummaryView {
            uid: self.uid@,
            name: self.name@,
            available: self.available,
            selected: self.selected,
            node_count: self.node_count as int,
            scan_error: text_view(self.scan_error),
            last_scanned_at: self.last_scanned_at,
        }
    }
}

/// The name that the configuration gives a profile; the last entry counts.
pub open spec fn configured_name(profiles: Seq<(Seq<char>, Seq<char>)>, uid: Seq<char>) -> Option<Seq<char>>
    decreases profiles.len(),
{
    if profiles.len() == 0 {
        None
    } else if profiles.last().0 == uid {
        Some(profiles.last().1)
    } else {
        configured_name(profiles.drop_last(), uid)
    }
}

/// The selected profiles that the configuration lacks.
pub open spec fn lost_profiles(
    selected: Seq<Seq<char>>,
    profiles: Seq<(Seq<char>, Seq<char>)>,
) -> Seq<Seq<char>>
    decreases selected.len(),
{
    if selected.len() == 0 {
        selected
    } else {
        let front = lost_profiles(selected.drop_last(), profiles);
        if configured_name(profiles, selected.last()) is None {
            front.push(selected.last())
        } else {
            front
        }
    }
}

/// How many of the nodes are chosen.
pub open spec fn count_nodes(nodes: Seq<NodeRecordView>, chosen: spec_fn(NodeRecordView) -> bool) -> int
    decreases nodes.len(),
{
    if nodes.len() == 0 {
        0
    } else {
        count_nodes(nodes.drop_last(), chosen) + if chosen(nodes.last()) {
            1int
        } else {
            0int
        }
    }
}

/// The key that orders summaries: available profiles first, then by name.
pub open spec fn summary_key() -> spec_fn(SummaryView) -> Seq<KeyView> {
    |summary: SummaryView|
        seq![
            KeyView::Number(
                if summary.available {
                    0
                } else {
                    1
                },
            ),
            KeyView::Text(summary.name),
        ]
}

/// What a list of summaries stands for.
pub open spec fn summary_views(summaries: Seq<BenchmarkProfileSummary>) -> Seq<SummaryView> {
    summaries.map_values(|summary: BenchmarkProfileSummary| summary@)
}

impl StoreView {
    /// The summary of one profile.
    pub open spec fn summary_of(
        self,
        uid: Seq<char>,
        profiles: Seq<(Seq<char>, Seq<char>)>,
        settings: SettingsView,
    ) -> SummaryView {
        let scan = profile_of(self.profiles, uid);
        SummaryView {
            uid,
            name: match (configured_name(profiles, uid), scan) {
                (Some(name), _) => name,
                (None, Some(scan)) => scan.profile_name,
                (None, None) => uid,
            },
            available: configured_name(profiles, uid) is Some,
            selected: settings.selected_profile_uids.contains(uid),
            node_count: count_nodes(self.nodes, active_of_profile(uid)),
            scan_error: match scan {
                Some(scan) => scan.scan_error,
                None => None,
            },
            last_scanned_at: match scan {
                Some(scan) => scan.last_scanned_at,
                None => None,
            },
        }
    }

    /// The profiles to show: those of the configuration, then the selected ones that it lacks.
    pub open spec fn shown_profiles(
        self,
        profiles: Seq<(Seq<char>, Seq<char>)>,
        settings: SettingsView,
    ) -> Seq<Seq<char>> {
        profiles.map_values(|profile: (Seq<char>, Seq<char>)| profile.0) + lost_profiles(
            settings.selected_profile_uids,
            profiles,
        )
    }

    /// The summaries of the profiles to show, available ones first, each group by name.
    pub open spec fn profile_summaries(
        self,
        profiles: Seq<(Seq<char>, Seq<char>)>,
        settings: SettingsView,
    ) -> Seq<SummaryView> {
        let summaries = self.shown_profiles(profiles, settings).map_values(
            |uid: Seq<char>| self.summary_of(uid, profiles, settings),
        );
        arranged(summaries, summaries.map_values(summary_key()))
    }
}

/// The name that the configuration gives a profile; the last entry counts.
pub fn find_configured_name(profiles: &[(String, String)], uid: &str) -> (name: Option<String>)
    ensures
        text_view(name) == configured_name(pair_views(profiles@), uid@),
{
    let ghost all = pair_views(profiles@);
    let mut at: usize = profiles.len();
    assert(all.take(at as int) =~= all);
    while at > 0
        invariant
            at <= profiles.len(),
            all == pair_views(profiles@),
            configured_name(all, uid@) == configured_name(all.take(at as int), uid@),
        decreases at,
    {
        at = at - 1;
        assert(all.take(at + 1).last() == (profiles@[at as int].0@, profiles@[at as int].1@));
        assert(all.take(at + 1).drop_last() =~= all.take(at as int));
        if same_text(profiles[at].0.as_str(), uid) {
            return Some(profiles[at].1.clone());
        }
    }
    None
}

impl BenchmarkStore {
    fn count_profile_nodes(&self, profile_uid: &str) -> (count: usize)
        ensures
            count == count_nodes(self@.nodes, active_of_profile(profile_uid@)),
    {
        let flags = self.flag_profile(profile_uid);
        let ghost all = self@.nodes;
        let ghost chosen = active_of_profile(profile_uid@);
        let mut count: usize = 0;
        assert(all.take(0) =~= Seq::empty());
        for i in 0..flags.len()
            invariant
                all == self@.nodes,
                flags.len() == all.len(),
                forall|k: int| 0 <= k < flags.len() ==> #[trigger] flags@[k] == chosen(all[k]),
                count <= i,
                count == count_nodes(all.take(i as int), chosen),
        {
            assert(all.take(i + 1).drop_last() =~= all.take(i as int));
            assert(all.take(i + 1).last() == all[i as int]);
            if flags[i] {
                count = count + 1;
            }
        }
        assert(all.take(all.len() as int) =~= all);
        count
    }

    fn summarize(&self, uid: &str, profiles: &[(String, String)], settings: &BenchmarkSettings) -> (summary:
        BenchmarkProfileSummary)
        ensures
            summary@ == self@.summary_of(uid@, pair_views(profiles@), settings@),
    {
        let configured = find_configured_name(profiles, uid);
        let at: usize = self.find_profile(uid);
        let known: bool = at < self.profiles.len();
        proof {
            if known {
                assert(self@.profiles[at as int] == self.profiles@[at as int]@);
            }
        }
        let available: bool = configured.is_some();
        let name: String = match configured {
            Some(name) => name,
            None => if known {
                self.profiles[at].profile_name.clone()
            } else {
                uid.to_owned()
            },
        };
        let scan_error = if known {
            copy_text(&self.profiles[at].scan_error)
        } else {
            None
        };
        let last_scanned_at: Option<i64> = if known {
            self.profiles[at].last_scanned_at
        } else {
            None
        };
        BenchmarkProfileSummary {
            uid: uid.to_owned(),
            name,
            available,
            selected: contains_text(settings.selected_profile_uids.as_slice(), uid),
            node_count: self.count_profile_nodes(uid),
            scan_error,
            last_scanned_at,
        }
    }

    /// The profiles of the configuration, given by id and name, and the selected ones that it
    /// lacks, with what the scans found.
    pub fn profile_summaries(&self, profiles: &[(String, String)], settings: &BenchmarkSettings) -> (result: Vec<
        BenchmarkProfileSummary,
    >)
        ensures
            summary_views(result@) == self@.profile_summaries(pair_views(profiles@), settings@),
    {
        let ghost configured = pair_views(profiles@);
        let ghost shown = self@.shown_profiles(configured, settings@);
        let ghost views = shown.map_values(|uid: Seq<char>| self@.summary_of(uid, configured, settings@));
        let mut uids: Vec<String> = Vec::new();
        assert(texts(uids@) =~= Seq::empty());
        let ghost first = configured.map_values(|profile: (Seq<char>, Seq<char>)| profile.0);
        for i in 0..profiles.len()
            invariant
                configured == pair_views(profiles@),
                first == configured.map_values(|profile: (Seq<char>, Seq<char>)| profile.0),
                texts(uids@) == first.take(i as int),
        {
            let ghost before = uids@;
            uids.push(profiles[i].0.clone());
            assert(texts(uids@) =~= texts(before).push(profiles@[i as int].0@));
            assert(first[i as int] == profiles@[i as int].0@);
        }
        assert(first.take(first.len() as int) =~= first);
        let ghost selected = texts(settings.selected_profile_uids@);
        assert(selected.take(0) =~= Seq::empty());
        assert(first + Seq::<Seq<char>>::empty() =~= first);
        for i in 0..settings.selected_profile_uids.len()
            invariant
                configured == pair_views(profiles@),
                selected == texts(settings.selected_profile_uids@),
                texts(uids@) == first + lost_profiles(selected.take(i as int), configured),
        {
            let uid = &settings.selected_profile_uids[i];
            assert(selected.take(i + 1).drop_last() =~= selected.take(i as int));
            assert(selected.take(i + 1).last() == uid@);
            if find_configured_name(profiles, uid.as_str()).is_none() {
                let ghost before = uids@;
                uids.push(uid.clone());
                assert(texts(uids@) =~= texts(before).push(uid@));
                assert(texts(before).push(uid@) =~= first + lost_profiles(
                    selected.take(i as int),
                    configured,
                ).push(uid@));
            }
        }
        assert(selected.take(selected.len() as int) =~= selected);
        assert(texts(uids@) == shown);
        let ghost keyed = views.map_values(summary_key());
        let mut summaries: Vec<BenchmarkProfileSummary> = Vec::new();
        let mut keys: Vec<SortKey> = Vec::new();
        for i in 0..uids.len()
            invariant
                configured == pair_views(profiles@),
                shown == texts(uids@),
                views == shown.map_values(|uid: Seq<char>| self@.summary_of(uid, configured, settings@)),
                keyed == views.map_values(summary_key()),
                summaries.len() == i,
                keys.len() == i,
                summary_views(summaries@) == views.take(i as int),
                key_views(keys@) == keyed.take(i as int),
        {
            let ghost before = summaries@;
            let ghost keys_before = keys@;
            let summary = self.summarize(uids[i].as_str(), profiles, settings);
            assert(shown[i as int] == uids@[i as int]@);
            assert(views[i as int] == summary@);
            let mut parts: Vec<KeyPart> = Vec::new();
            parts.push(
                KeyPart::Number(
                    if summary.available {
                        0
                    } else {
                        1
                    },
                ),
            );
            parts.push(KeyPart::text(summary.name.as_str()));
            let key = SortKey { parts };
            assert(key@ =~= summary_key()(summary@));
            assert(keyed[i as int] == key@);
            summaries.push(summary);
            keys.push(key);
            assert(summary_views(summaries@) =~= summary_views(before).push(summary@));
            assert(key_views(keys@) =~= key_views(keys_before).push(key@));
        }
        assert(views.take(views.len() as int) =~= views);
        assert(keyed.take(keyed.len() as int) =~= keyed);
        let order = stable_order(&keys);
        let ghost wanted = arranged(views, keyed);
        let mut result: Vec<BenchmarkProfileSummary> = Vec::new();
        for i in 0..order.len()
            invariant
                order.len() == summaries.len(),
                views == summary_views(summaries@),
                wanted == indices(order@).map_values(|i: int| views[i]),
                forall|k: int| 0 <= k < order.len() ==> #[trigger] order@[k] < summaries.len(),
                summary_views(result@) == wanted.take(i as int),
        {
            let ghost before = result@;
            let copy = summaries[order[i]].clone();
            result.push(copy);
            assert(indices(order@)[i as int] == order@[i as int]);
            assert(summary_views(result@) =~= summary_views(before).push(copy@));
            assert(wanted.take(i + 1) =~= wanted.take(i as int).push(wanted[i as int]));
        }
        assert(wanted.take(wanted.len() as int) =~= wanted);
        result
    }
}

} // verus!
