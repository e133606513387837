//! What holds of everything that is read from the tables.

use crate::errors::BenchmarkError;
use crate::models::{NodeView, ParticipationState, RecordView};
use crate::order::{
    KeyView, arranged, goes_before, key_order, law_sorted_order_is_stable, part_order, sorted_order,
};
use crate::queries::{
    DUE_LIMIT, active_named, at_most, display_key, latency_due, latency_key, latest_key, ordered_nodes,
    selected_records, speed_due, speed_key,
};
use crate::store::{NodeRecordView, StoreView, all_active, selected_nodes, stored_record};
use vstd::prelude::*;

verus! {

/// Arranging items by a key keeps every item, adds none, and puts the smaller key first.
pub proof fn lemma_arranged<T>(items: Seq<T>, key: spec_fn(T) -> Seq<KeyView>)
    ensures
        arranged(items, items.map_values(key)).len() == items.len(),
        forall|i: int|
            0 <= i < items.len() ==> arranged(items, items.map_values(key)).contains(#[trigger] items[i]),
        forall|k: int|
            0 <= k < items.len() ==> items.contains(#[trigger] arranged(items, items.map_values(key))[k]),
        forall|i: int, j: int|
            0 <= i < j < items.len() ==> key_order(
                key(#[trigger] arranged(items, items.map_values(key))[i]),
                key(#[trigger] arranged(items, items.map_values(key))[j]),
            ) <= 0,
{
    let keys = items.map_values(key);
    law_sorted_order_is_stable(keys);
    let order = sorted_order(keys);
    let all = arranged(items, keys);
    assert forall|i: int| 0 <= i < items.len() implies all.contains(#[trigger] items[i]) by {
        assert(order.contains(i));
        let k = choose|k: int| 0 <= k < order.len() && order[k] == i;
        assert(all[k] == items[i]);
    }
    assert forall|k: int| 0 <= k < items.len() implies items.contains(#[trigger] all[k]) by {
        assert(all[k] == items[order[k]]);
    }
    assert forall|i: int, j: int| 0 <= i < j < items.len() implies key_order(
        key(#[trigger] all[i]),
        key(#[trigger] all[j]),
    ) <= 0 by {
        assert(goes_before(keys, order[i], order[j]));
        assert(keys[order[i]] == key(all[i]));
        assert(keys[order[j]] == key(all[j]));
    }
}

proof fn lemma_chosen(nodes: Seq<NodeRecordView>, chosen: spec_fn(NodeRecordView) -> bool, i: int)
    requires
        0 <= i < nodes.len(),
        chosen(nodes[i]),
    ensures
        selected_nodes(nodes, chosen).contains(nodes[i].node),
    decreases nodes.len(),
{
    let front = nodes.drop_last();
    let selected = selected_nodes(nodes, chosen);
    if i < front.len() {
        lemma_chosen(front, chosen, i);
        let k = choose|k: int|
            0 <= k < selected_nodes(front, chosen).len() && selected_nodes(front, chosen)[k] == front[i].node;
        assert(selected[k] == nodes[i].node);
    } else {
        assert(selected[selected.len() - 1] == nodes[i].node);
    }
}

proof fn lemma_only_chosen(nodes: Seq<NodeRecordView>, chosen: spec_fn(NodeRecordView) -> bool, node: NodeView) -> (i:
    int)
    requires
        selected_nodes(nodes, chosen).contains(node),
    ensures
        0 <= i < nodes.len(),
        chosen(nodes[i]),
        nodes[i].node == node,
    decreases nodes.len(),
{
    let front = nodes.drop_last();
    if chosen(nodes.last()) && nodes.last().node == node {
        nodes.len() - 1
    } else {
        let k = choose|k: int|
            0 <= k < selected_nodes(nodes, chosen).len() && selected_nodes(nodes, chosen)[k] == node;
        assert(selected_nodes(front, chosen)[k] == node);
        lemma_only_chosen(front, chosen, node)
    }
}

proof fn lemma_chosen_count(
    nodes: Seq<NodeRecordView>,
    chosen: spec_fn(NodeRecordView) -> bool,
    same: spec_fn(NodeRecordView) -> bool,
)
    requires
        forall|record: NodeRecordView| chosen(record) == #[trigger] same(record),
    ensures
        selected_nodes(nodes, chosen).len() == nodes.filter(same).len(),
    decreases nodes.len(),
{
    reveal(Seq::filter);
    if nodes.len() > 0 {
        lemma_chosen_count(nodes.drop_last(), chosen, same);
        assert(chosen(nodes.last()) == same(nodes.last()));
    }
}

/// A node in a shortened ordered list of nodes, or what is in the list instead of it.
proof fn lemma_listed(
    nodes: Seq<NodeRecordView>,
    chosen: spec_fn(NodeRecordView) -> bool,
    key: spec_fn(NodeView) -> Seq<KeyView>,
    limit: int,
    i: int,
)
    requires
        0 <= i < nodes.len(),
        chosen(nodes[i]),
        limit >= 0,
    ensures
        ({
            let list = at_most(ordered_nodes(selected_nodes(nodes, chosen), key), limit);
            ||| list.contains(nodes[i].node)
            ||| list.len() == limit && selected_nodes(nodes, chosen).len() > limit && forall|k: int|
                0 <= k < list.len() ==> key_order(key(#[trigger] list[k]), key(nodes[i].node)) <= 0
        }),
{
    let selected = selected_nodes(nodes, chosen);
    let all = ordered_nodes(selected, key);
    let list = at_most(all, limit);
    lemma_arranged(selected, key);
    lemma_chosen(nodes, chosen, i);
    let s = choose|s: int| 0 <= s < selected.len() && selected[s] == nodes[i].node;
    assert(all.contains(selected[s]));
    let at = choose|at: int| 0 <= at < all.len() && all[at] == selected[s];
    if at < list.len() {
        assert(list[at] == nodes[i].node);
    } else {
        assert forall|k: int| 0 <= k < list.len() implies key_order(
            key(#[trigger] list[k]),
            key(nodes[i].node),
        ) <= 0 by {
            assert(list[k] == all[k]);
        }
    }
}

/// A confirmed participant is in the list of due speed tests as soon as the time of its next
/// download has come, and as soon as that of its next upload has come. It is left out only where
/// 500 nodes are listed that have waited at least as long.
pub proof fn law_due_participants_are_listed(store: StoreView, now: i64, i: int)
    requires
        0 <= i < store.nodes.len(),
        store.nodes[i].active,
        store.nodes[i].node.manual_override,
        store.nodes[i].node.state == ParticipationState::Participating,
        store.nodes[i].node.next_download_at <= now || store.nodes[i].node.next_upload_at <= now,
    ensures
        ({
            let list = store.due_speed_nodes(now);
            let node = store.nodes[i].node;
            ||| list.contains(node)
            ||| list.len() == 500 && forall|k: int|
                0 <= k < list.len() ==> {
                    let other = #[trigger] list[k];
                    &&& other.next_download_at <= node.next_download_at || other.next_upload_at
                        <= node.next_download_at
                    &&& other.next_download_at <= node.next_upload_at || other.next_upload_at
                        <= node.next_upload_at
                }
        }),
        store.nodes.filter(
            |record: NodeRecordView|
                record.active && record.node.manual_override && record.node.state
                    == ParticipationState::Participating && (record.node.next_download_at <= now
                    || record.node.next_upload_at <= now),
        ).len() <= 500 ==> store.due_speed_nodes(now).contains(store.nodes[i].node),
{
    let list = store.due_speed_nodes(now);
    let node = store.nodes[i].node;
    lemma_listed(store.nodes, speed_due(now), speed_key(), DUE_LIMIT as int, i);
    lemma_chosen_count(
        store.nodes,
        speed_due(now),
        |record: NodeRecordView|
            record.active && record.node.manual_override && record.node.state
                == ParticipationState::Participating && (record.node.next_download_at <= now
                || record.node.next_upload_at <= now),
    );
    if !list.contains(node) {
        assert forall|k: int| 0 <= k < list.len() implies {
            let other = #[trigger] list[k];
            &&& other.next_download_at <= node.next_download_at || other.next_upload_at <= node.next_download_at
            &&& other.next_download_at <= node.next_upload_at || other.next_upload_at <= node.next_upload_at
        } by {
            let left = speed_key()(list[k]);
            let right = speed_key()(node);
            assert(key_order(left, right) <= 0);
            assert(part_order(left[0], right[0]) <= 0);
        }
    }
}

/// A confirmed node that takes part or is observed is in the list of due latency tests as soon as
/// its time has come. It is left out only where 500 nodes are listed that have waited at least as
/// long.
pub proof fn law_due_latency_tests_are_listed(store: StoreView, now: i64, i: int)
    requires
        0 <= i < store.nodes.len(),
        store.nodes[i].active,
        store.nodes[i].node.manual_override,
        store.nodes[i].node.state == ParticipationState::Participating || store.nodes[i].node.state
            == ParticipationState::Observe,
        store.nodes[i].node.next_latency_at <= now,
    ensures
        ({
            let list = store.due_latency_nodes(now);
            let node = store.nodes[i].node;
            ||| list.contains(node)
            ||| list.len() == 500 && forall|k: int|
                0 <= k < list.len() ==> (#[trigger] list[k]).next_latency_at <= node.next_latency_at
        }),
        store.nodes.filter(
            |record: NodeRecordView|
                record.active && record.node.manual_override && (record.node.state
                    == ParticipationState::Participating || record.node.state == ParticipationState::Observe)
                    && record.node.next_latency_at <= now,
        ).len() <= 500 ==> store.due_latency_nodes(now).contains(store.nodes[i].node),
{
    let list = store.due_latency_nodes(now);
    let node = store.nodes[i].node;
    lemma_listed(store.nodes, latency_due(now), latency_key(), DUE_LIMIT as int, i);
    lemma_chosen_count(
        store.nodes,
        latency_due(now),
        |record: NodeRecordView|
            record.active && record.node.manual_override && (record.node.state
                == ParticipationState::Participating || record.node.state == ParticipationState::Observe)
                && record.node.next_latency_at <= now,
    );
    if !list.contains(node) {
        assert forall|k: int| 0 <= k < list.len() implies (#[trigger] list[k]).next_latency_at
            <= node.next_latency_at by {
            let left = latency_key()(list[k]);
            let right = latency_key()(node);
            assert(key_order(left, right) <= 0);
            assert(part_order(left[0], right[0]) <= 0);
        }
    }
}

/// Every listed node is one of the tables: active, confirmed and due. The one that has waited
/// longest is listed first.
pub proof fn law_due_lists_begin_with_the_longest_wait(store: StoreView, now: i64, i: int, j: int)
    ensures
        0 <= i < j < store.due_speed_nodes(now).len() ==> {
            let left = store.due_speed_nodes(now)[i];
            let right = store.due_speed_nodes(now)[j];
            &&& left.next_download_at <= right.next_download_at || left.next_upload_at
                <= right.next_download_at
            &&& left.next_download_at <= right.next_upload_at || left.next_upload_at <= right.next_upload_at
        },
        0 <= i < j < store.due_latency_nodes(now).len() ==> store.due_latency_nodes(now)[i].next_latency_at
            <= store.due_latency_nodes(now)[j].next_latency_at,
        0 <= i < store.due_speed_nodes(now).len() ==> exists|k: int|
            0 <= k < store.nodes.len() && (#[trigger] store.nodes[k]).active && store.nodes[k].node
                == store.due_speed_nodes(now)[i],
        0 <= i < store.due_latency_nodes(now).len() ==> exists|k: int|
            0 <= k < store.nodes.len() && (#[trigger] store.nodes[k]).active && store.nodes[k].node
                == store.due_latency_nodes(now)[i],
{
    let speed = selected_nodes(store.nodes, speed_due(now));
    let latency = selected_nodes(store.nodes, latency_due(now));
    lemma_arranged(speed, speed_key());
    lemma_arranged(latency, latency_key());
    if 0 <= i < j < store.due_speed_nodes(now).len() {
        let left = speed_key()(ordered_nodes(speed, speed_key())[i]);
        let right = speed_key()(ordered_nodes(speed, speed_key())[j]);
        assert(part_order(left[0], right[0]) <= 0);
    }
    if 0 <= i < j < store.due_latency_nodes(now).len() {
        let left = latency_key()(ordered_nodes(latency, latency_key())[i]);
        let right = latency_key()(ordered_nodes(latency, latency_key())[j]);
        assert(part_order(left[0], right[0]) <= 0);
    }
    if 0 <= i < store.due_speed_nodes(now).len() {
        assert(speed.contains(ordered_nodes(speed, speed_key())[i]));
        let k = lemma_only_chosen(store.nodes, speed_due(now), store.due_speed_nodes(now)[i]);
        assert(store.nodes[k].active);
    }
    if 0 <= i < store.due_latency_nodes(now).len() {
        assert(latency.contains(ordered_nodes(latency, latency_key())[i]));
        let k = lemma_only_chosen(store.nodes, latency_due(now), store.due_latency_nodes(now)[i]);
        assert(store.nodes[k].active);
    }
}

/// The list of active nodes holds every active node and no other one.
pub proof fn law_active_nodes_are_all_listed(store: StoreView, node: NodeView)
    ensures
        store.active_nodes().contains(node) <==> exists|i: int|
            0 <= i < store.nodes.len() && (#[trigger] store.nodes[i]).active && store.nodes[i].node == node,
        store.active_nodes().len() == store.nodes.filter(|record: NodeRecordView| record.active).len(),
{
    let selected = selected_nodes(store.nodes, all_active());
    let list = store.active_nodes();
    lemma_arranged(selected, display_key());
    lemma_chosen_count(store.nodes, all_active(), |record: NodeRecordView| record.active);
    if list.contains(node) {
        let k = choose|k: int| 0 <= k < list.len() && list[k] == node;
        assert(selected.contains(list[k]));
        let i = lemma_only_chosen(store.nodes, all_active(), node);
        assert(store.nodes[i].active);
    }
    if exists|i: int|
        0 <= i < store.nodes.len() && (#[trigger] store.nodes[i]).active && store.nodes[i].node == node {
        let i = choose|i: int|
            0 <= i < store.nodes.len() && (#[trigger] store.nodes[i]).active && store.nodes[i].node == node;
        lemma_chosen(store.nodes, all_active(), i);
        let s = choose|s: int| 0 <= s < selected.len() && selected[s] == node;
        assert(list.contains(selected[s]));
    }
}

/// A look-up by profile and name finds a node exactly where an active one has them, and of several
/// one that no other was seen after.
pub proof fn law_look_up_finds_the_node_seen_last(
    store: StoreView,
    profile_uid: Seq<char>,
    node_name: Seq<char>,
    i: int,
)
    requires
        0 <= i < store.nodes.len(),
        store.nodes[i].active,
        store.nodes[i].node.profile_uid == profile_uid,
        store.nodes[i].node.node_name == node_name,
    ensures
        store.node_by_name(profile_uid, node_name) matches Some(node) && {
            &&& node.profile_uid == profile_uid
            &&& node.node_name == node_name
            &&& node.last_seen_at >= store.nodes[i].node.last_seen_at
            &&& exists|k: int|
                0 <= k < store.nodes.len() && (#[trigger] store.nodes[k]).active && store.nodes[k].node == node
        },
{
    let chosen = active_named(profile_uid, node_name);
    let selected = selected_nodes(store.nodes, chosen);
    let found = ordered_nodes(selected, latest_key());
    lemma_arranged(selected, latest_key());
    lemma_chosen(store.nodes, chosen, i);
    let s = choose|s: int| 0 <= s < selected.len() && selected[s] == store.nodes[i].node;
    assert(found.contains(selected[s]));
    let at = choose|at: int| 0 <= at < found.len() && found[at] == selected[s];
    if at > 0 {
        let left = latest_key()(found[0]);
        let right = latest_key()(found[at]);
        assert(key_order(left, right) <= 0);
        assert(part_order(left[0], right[0]) <= 0);
    }
    assert(selected.contains(found[0]));
    let k = lemma_only_chosen(store.nodes, chosen, found[0]);
    assert(store.nodes[k].active);
}

proof fn lemma_record_selected(records: Seq<RecordView>, node_ids: Seq<Seq<char>>, start_at: i64, record: RecordView)
    ensures
        selected_records(records, node_ids, start_at).contains(record) <==> records.contains(record)
            && record.created_at >= start_at && node_ids.contains(record.node_id),
        selected_records(records, node_ids, start_at).len() == records.filter(
            |record: RecordView| record.created_at >= start_at && node_ids.contains(record.node_id),
        ).len(),
    decreases records.len(),
{
    reveal(Seq::filter);
    if records.len() > 0 {
        let front = records.drop_last();
        let fewer = selected_records(front, node_ids, start_at);
        let all = selected_records(records, node_ids, start_at);
        lemma_record_selected(front, node_ids, start_at, record);
        if front.contains(record) {
            let k = choose|k: int| 0 <= k < front.len() && front[k] == record;
            assert(records[k] == record);
        }
        if fewer.contains(record) {
            let k = choose|k: int| 0 <= k < fewer.len() && fewer[k] == record;
            assert(all[k] == record);
        }
        if records.last() == record {
            assert(records[records.len() - 1] == record);
            if record.created_at >= start_at && node_ids.contains(record.node_id) {
                assert(all[all.len() - 1] == record);
            }
        } else {
            if records.contains(record) {
                let k = choose|k: int| 0 <= k < records.len() && records[k] == record;
                assert(front[k] == record);
            }
            if all.contains(record) {
                let k = choose|k: int| 0 <= k < all.len() && all[k] == record;
                assert(fewer[k] == record);
            }
        }
    }
}

/// The results that are read back are exactly those of the wanted nodes from the wanted time on,
/// each as often as the tables hold it, and the oldest first.
pub proof fn law_results_are_read_exactly(
    store: StoreView,
    node_ids: Seq<Seq<char>>,
    start_at: i64,
    record: RecordView,
    i: int,
    j: int,
)
    ensures
        store.records_since(node_ids, start_at).contains(record) <==> store.measurements.contains(record)
            && record.created_at >= start_at && node_ids.contains(record.node_id),
        store.records_since(node_ids, start_at).len() == store.measurements.filter(
            |record: RecordView| record.created_at >= start_at && node_ids.contains(record.node_id),
        ).len(),
        0 <= i < j < store.records_since(node_ids, start_at).len() ==> store.records_since(
            node_ids,
            start_at,
        )[i].created_at <= store.records_since(node_ids, start_at)[j].created_at,
{
    let records = selected_records(store.measurements, node_ids, start_at);
    let key = |record: RecordView| seq![KeyView::Number(record.created_at as int)];
    let list = store.records_since(node_ids, start_at);
    lemma_arranged(records, key);
    lemma_record_selected(store.measurements, node_ids, start_at, record);
    if list.contains(record) {
        let k = choose|k: int| 0 <= k < list.len() && list[k] == record;
        assert(records.contains(list[k]));
    }
    if records.contains(record) {
        let k = choose|k: int| 0 <= k < records.len() && records[k] == record;
        assert(list.contains(records[k]));
    }
    if 0 <= i < j < list.len() {
        let left = key(list[i]);
        let right = key(list[j]);
        assert(key_order(left, right) <= 0);
        assert(part_order(left[0], right[0]) <= 0);
    }
}

/// Without a result no traffic was used. A result adds the bytes that it moved to what was used
/// from a time on that is not after it, and nothing to what was used from a later time on; the sum
/// is refused only where it exceeds the signed 64-bit numbers.
pub proof fn law_traffic_adds_up(store: StoreView, record: RecordView, start_at: i64)
    requires
        record.bytes_down <= i64::MAX,
        record.bytes_up <= i64::MAX,
    ensures
        store.measurements.len() == 0 ==> store.traffic_since(start_at) == Ok::<(int, int), BenchmarkError>((0, 0)),
        record.created_at < start_at ==> store.with_record(record).traffic_since(start_at)
            == store.traffic_since(start_at),
        record.created_at >= start_at ==> match store.traffic_since(start_at) {
            Ok((down, up)) => store.with_record(record).traffic_since(start_at) == if down + record.bytes_down
                <= i64::MAX && up + record.bytes_up <= i64::MAX {
                Ok::<(int, int), BenchmarkError>((down + record.bytes_down, up + record.bytes_up))
            } else {
                Err(BenchmarkError::TrafficOverflow)
            },
            Err(error) => error == BenchmarkError::TrafficOverflow && store.with_record(record).traffic_since(
                start_at,
            ) == Err::<(int, int), BenchmarkError>(error),
        },
{
    let all = store.with_record(record).measurements;
    assert(all.drop_last() =~= store.measurements);
    assert(all.last() == stored_record(record));
}

} // verus!
