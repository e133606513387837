//! What holds of the tables across several operations.

use crate::models::{DiscoveredView, NodeView, ParticipationState, RecordView, ReminderAction};
use crate::order::{KeyView, arranged, law_sorted_order_is_stable, sorted_order};
use crate::queries::{
    DUE_LIMIT, active_named, at_most, counted_since, latency_due, latency_key, latest_key,
    moved_bytes, ordered_nodes, selected_records, speed_due, speed_key, sums,
};
use crate::reconcile::{
    Merge, found_id, fresh_record, lemma_node_at_facts, member_with_id, member_with_name, members,
    node_at, node_of, seen_again, sighted_change, standing, with_sighting,
};
use crate::settings::{SettingsView, law_normal_settings_stay};
use crate::store::{
    NodeChange, NodeRecordView, StoreView, active_of_profile, active_of_profiles, active_with_id, all_active,
    changed_nodes, concerns, distinct_nodes, earlier, knows_node, lemma_same_ids, lower_stage, reminder_change,
    selected_nodes, stored_record, with_id,
};
use vstd::prelude::*;

verus! {

/// Whether the time and the stage of a node's next speed test are those of its more urgent
/// direction.
pub open spec fn in_step(node: NodeView) -> bool {
    &&& node.next_speed_at == earlier(node.next_download_at, node.next_upload_at)
    &&& node.bootstrap_stage == lower_stage(node.download_bootstrap_stage, node.upload_bootstrap_stage)
}

/// Whether that holds of every node.
pub open spec fn all_in_step(nodes: Seq<NodeRecordView>) -> bool {
    forall|i: int| 0 <= i < nodes.len() ==> in_step((#[trigger] nodes[i]).node)
}

/// No change to chosen nodes lets the common speed schedule of a node fall out of step with its
/// two directions.
pub proof fn law_changes_keep_schedules_in_step(
    nodes: Seq<NodeRecordView>,
    chosen: spec_fn(NodeRecordView) -> bool,
    change: NodeChange,
)
    requires
        all_in_step(nodes),
    ensures
        all_in_step(changed_nodes(nodes, chosen, change)),
{
    let after = changed_nodes(nodes, chosen, change);
    assert forall|i: int| 0 <= i < after.len() implies in_step((#[trigger] after[i]).node) by {
        assert(in_step(nodes[i].node));
    }
}

proof fn lemma_sightings_keep_step(store: StoreView, merge: Merge, discovered: Seq<DiscoveredView>)
    requires
        all_in_step(store.nodes),
    ensures
        all_in_step(store.after_sightings(merge, discovered).nodes),
    decreases discovered.len(),
{
    if discovered.len() > 0 {
        let before = store.after_sightings(merge, discovered.drop_last());
        lemma_sightings_keep_step(store, merge, discovered.drop_last());
        let found = discovered.last();
        let after = before.after_sighting(merge, found);
        lemma_node_at_facts(before.nodes, found.node_id);
        assert forall|i: int| 0 <= i < after.nodes.len() implies in_step((#[trigger] after.nodes[i]).node) by {
            if i < before.nodes.len() {
                assert(in_step(before.nodes[i].node));
            }
        }
    }
}

proof fn lemma_absences_keep_step(
    store: StoreView,
    merge: Merge,
    absent: Seq<NodeView>,
    discovered: Seq<DiscoveredView>,
)
    requires
        all_in_step(store.nodes),
    ensures
        all_in_step(store.after_absences(merge, absent, discovered).nodes),
    decreases absent.len(),
{
    if absent.len() > 0 {
        let before = store.after_absences(merge, absent.drop_last(), discovered);
        lemma_absences_keep_step(store, merge, absent.drop_last(), discovered);
        if !found_id(discovered, absent.last().node_id) {
            law_changes_keep_schedules_in_step(
                before.nodes,
                with_id(absent.last().node_id),
                NodeChange::Retire { now: merge.now },
            );
        }
    }
}

/// Merging a scan keeps the speed schedules of all nodes in step with their directions.
pub proof fn law_merging_keeps_schedules_in_step(
    store: StoreView,
    merge: Merge,
    discovered: Seq<DiscoveredView>,
)
    requires
        all_in_step(store.nodes),
    ensures
        all_in_step(store.reconciled(merge, discovered).nodes),
{
    lemma_sightings_keep_step(store, merge, discovered);
    lemma_absences_keep_step(
        store.after_sightings(merge, discovered),
        merge,
        merge.members,
        discovered,
    );
}

/// A confirmation of participants keeps the speed schedules in step with their directions.
pub proof fn law_confirmation_keeps_schedules_in_step(
    store: StoreView,
    profile_uids: Seq<Seq<char>>,
    participants: Seq<Seq<char>>,
    now: i64,
)
    requires
        all_in_step(store.nodes),
    ensures
        all_in_step(store.after_confirmation(profile_uids, participants, now).nodes),
{
    let after = store.after_confirmation(profile_uids, participants, now).nodes;
    assert forall|i: int| 0 <= i < after.len() implies in_step((#[trigger] after[i]).node) by {
        assert(in_step(store.nodes[i].node));
    }
}

/// Whether a record is what a merge makes of a found node.
pub open spec fn shows(record: NodeRecordView, found: DiscoveredView, merge: Merge) -> bool {
    let (state, manual_override) = standing(merge.members, found, merge.settings);
    &&& record.active
    &&& record.node.node_id == found.node_id
    &&& record.node.profile_name == found.profile_name
    &&& record.node.node_name == found.node_name
    &&& record.node.node_type == found.node_type
    &&& record.node.fingerprint == found.fingerprint
    &&& record.node.state == state
    &&& record.node.manual_override == manual_override
    &&& record.node.last_seen_at == merge.now
}

proof fn lemma_node_of_unique(nodes: Seq<NodeRecordView>, node_id: Seq<char>, i: int)
    requires
        distinct_nodes(nodes),
        0 <= i < nodes.len(),
        nodes[i].node.node_id == node_id,
    ensures
        node_at(nodes, node_id) == i,
        node_of(nodes, node_id) == Some(nodes[i]),
{
    lemma_node_at_facts(nodes, node_id);
    let at = node_at(nodes, node_id);
    if at < i {
        assert(nodes[at].node.node_id != nodes[i].node.node_id);
    }
}

proof fn lemma_sighting_facts(store: StoreView, merge: Merge, found: DiscoveredView, node_id: Seq<char>)
    requires
        distinct_nodes(store.nodes),
    ensures
        distinct_nodes(store.after_sighting(merge, found).nodes),
        found.node_id == node_id ==> {
            let record = node_of(store.after_sighting(merge, found).nodes, node_id);
            &&& record is Some
            &&& shows(record->0, found, merge)
            &&& record->0 == match node_of(store.nodes, node_id) {
                Some(earlier) => seen_again(
                    earlier,
                    found,
                    standing(merge.members, found, merge.settings).0,
                    standing(merge.members, found, merge.settings).1,
                    merge.now,
                ),
                None => fresh_record(
                    found,
                    standing(merge.members, found, merge.settings).0,
                    standing(merge.members, found, merge.settings).1,
                    merge.now,
                ),
            }
        },
        found.node_id != node_id ==> node_of(store.after_sighting(merge, found).nodes, node_id) == node_of(
            store.nodes,
            node_id,
        ),
{
    let (state, manual_override) = standing(merge.members, found, merge.settings);
    let before = store.nodes;
    let after = with_sighting(before, found, state, manual_override, merge.now);
    assert(store.after_sighting(merge, found).nodes == after);
    let at = node_at(before, found.node_id);
    lemma_node_at_facts(before, found.node_id);
    lemma_node_at_facts(before, node_id);
    assert forall|i: int, j: int| 0 <= i < j < after.len() implies (#[trigger] after[i]).node.node_id != (
    #[trigger] after[j]).node.node_id by {
        if at < before.len() || (i != at && j != at) {
            assert(before[i].node.node_id != before[j].node.node_id);
        } else {
            assert(before[i].node.node_id != found.node_id);
        }
    }
    lemma_node_at_facts(after, node_id);
    if found.node_id == node_id {
        lemma_node_of_unique(after, node_id, at);
    } else {
        let k = node_at(before, node_id);
        if k < before.len() {
            assert(after[k].node.node_id == node_id);
            lemma_node_of_unique(after, node_id, k);
            assert(k != at);
            assert(after[k] == before[k]);
        } else {
            let m = node_at(after, node_id);
            if m < after.len() {
                assert(after[m].node.node_id == node_id);
                if m < before.len() {
                    assert(before[m].node.node_id == node_id);
                }
                assert(false);
            }
        }
    }
}

/// Whether a record has the schedule of another one.
pub open spec fn same_schedule(left: NodeRecordView, right: NodeRecordView) -> bool {
    &&& left.node.bootstrap_stage == right.node.bootstrap_stage
    &&& left.node.download_bootstrap_stage == right.node.download_bootstrap_stage
    &&& left.node.upload_bootstrap_stage == right.node.upload_bootstrap_stage
    &&& left.node.next_latency_at == right.node.next_latency_at
    &&& left.node.next_speed_at == right.node.next_speed_at
    &&& left.node.next_download_at == right.node.next_download_at
    &&& left.node.next_upload_at == right.node.next_upload_at
    &&& left.node.snoozed_until == right.node.snoozed_until
    &&& left.node.ignore_reminder == right.node.ignore_reminder
    &&& left.node.first_seen_at == right.node.first_seen_at
}

proof fn lemma_sightings_facts(store: StoreView, merge: Merge, discovered: Seq<DiscoveredView>, node_id: Seq<char>)
    requires
        distinct_nodes(store.nodes),
    ensures
        distinct_nodes(store.after_sightings(merge, discovered).nodes),
        !found_id(discovered, node_id) ==> node_of(
            store.after_sightings(merge, discovered).nodes,
            node_id,
        ) == node_of(store.nodes, node_id),
        node_of(store.nodes, node_id) matches Some(earlier) ==> {
            let record = node_of(store.after_sightings(merge, discovered).nodes, node_id);
            record is Some && same_schedule(record->0, earlier)
        },
    decreases discovered.len(),
{
    if discovered.len() > 0 {
        let front = discovered.drop_last();
        lemma_sightings_facts(store, merge, front, node_id);
        lemma_sighting_facts(store.after_sightings(merge, front), merge, discovered.last(), node_id);
        if !found_id(discovered, node_id) {
            assert(!found_id(front, node_id)) by {
                if found_id(front, node_id) {
                    let i = choose|i: int| 0 <= i < front.len() && (#[trigger] front[i]).node_id == node_id;
                    assert(discovered[i].node_id == node_id);
                }
            }
            assert(discovered[discovered.len() - 1].node_id != node_id);
        }
    }
}

/// Whether the node found at an index is the last one found with its id.
pub open spec fn last_with_id(discovered: Seq<DiscoveredView>, j: int) -> bool {
    0 <= j < discovered.len() && forall|k: int|
        j < k < discovered.len() ==> (#[trigger] discovered[k]).node_id != discovered[j].node_id
}

proof fn lemma_sightings_show(store: StoreView, merge: Merge, discovered: Seq<DiscoveredView>, j: int)
    requires
        distinct_nodes(store.nodes),
        last_with_id(discovered, j),
    ensures
        ({
            let record = node_of(store.after_sightings(merge, discovered).nodes, discovered[j].node_id);
            record is Some && shows(record->0, discovered[j], merge)
        }),
    decreases discovered.len(),
{
    let front = discovered.drop_last();
    let node_id = discovered[j].node_id;
    lemma_sightings_facts(store, merge, front, node_id);
    lemma_sighting_facts(store.after_sightings(merge, front), merge, discovered.last(), node_id);
    if j < discovered.len() - 1 {
        assert(discovered[discovered.len() - 1].node_id != node_id);
        assert(last_with_id(front, j)) by {
            assert forall|k: int| j < k < front.len() implies (#[trigger] front[k]).node_id != front[j].node_id by {
                assert(discovered[k].node_id != discovered[j].node_id);
            }
        }
        lemma_sightings_show(store, merge, front, j);
    }
}

proof fn lemma_retire_facts(nodes: Seq<NodeRecordView>, retired: Seq<char>, now: i64, node_id: Seq<char>)
    requires
        distinct_nodes(nodes),
    ensures
        distinct_nodes(changed_nodes(nodes, with_id(retired), NodeChange::Retire { now })),
        retired != node_id ==> node_of(
            changed_nodes(nodes, with_id(retired), NodeChange::Retire { now }),
            node_id,
        ) == node_of(nodes, node_id),
        retired == node_id ==> node_of(
            changed_nodes(nodes, with_id(retired), NodeChange::Retire { now }),
            node_id,
        ) == match node_of(nodes, node_id) {
            Some(record) => Some((NodeChange::Retire { now }).on(record)),
            None => None,
        },
{
    let after = changed_nodes(nodes, with_id(retired), NodeChange::Retire { now });
    assert forall|i: int, j: int| 0 <= i < j < after.len() implies (#[trigger] after[i]).node.node_id != (
    #[trigger] after[j]).node.node_id by {
        assert(nodes[i].node.node_id != nodes[j].node.node_id);
    }
    lemma_node_at_facts(nodes, node_id);
    lemma_node_at_facts(after, node_id);
    let k = node_at(nodes, node_id);
    if k < nodes.len() {
        assert(after[k].node.node_id == node_id);
        lemma_node_of_unique(after, node_id, k);
    } else {
        let m = node_at(after, node_id);
        if m < after.len() {
            assert(nodes[m].node.node_id == node_id);
        }
    }
}

/// Whether a member has the id.
pub open spec fn has_member(members: Seq<NodeView>, node_id: Seq<char>) -> bool {
    exists|i: int| 0 <= i < members.len() && (#[trigger] members[i]).node_id == node_id
}

proof fn lemma_absences_facts(
    store: StoreView,
    merge: Merge,
    absent: Seq<NodeView>,
    discovered: Seq<DiscoveredView>,
    node_id: Seq<char>,
)
    requires
        distinct_nodes(store.nodes),
    ensures
        distinct_nodes(store.after_absences(merge, absent, discovered).nodes),
        found_id(discovered, node_id) || !has_member(absent, node_id) ==> node_of(
            store.after_absences(merge, absent, discovered).nodes,
            node_id,
        ) == node_of(store.nodes, node_id),
        !found_id(discovered, node_id) && has_member(absent, node_id) ==> node_of(
            store.after_absences(merge, absent, discovered).nodes,
            node_id,
        ) == match node_of(store.nodes, node_id) {
            Some(record) => Some((NodeChange::Retire { now: merge.now }).on(record)),
            None => None,
        },
    decreases absent.len(),
{
    if absent.len() > 0 {
        let front = absent.drop_last();
        let before = store.after_absences(merge, front, discovered);
        lemma_absences_facts(store, merge, front, discovered, node_id);
        lemma_retire_facts(before.nodes, absent.last().node_id, merge.now, node_id);
        if has_member(front, node_id) {
            let i = choose|i: int| 0 <= i < front.len() && (#[trigger] front[i]).node_id == node_id;
            assert(absent[i].node_id == node_id);
        }
        if absent.last().node_id == node_id {
            assert(absent[absent.len() - 1].node_id == node_id);
        }
        if has_member(absent, node_id) && absent.last().node_id != node_id {
            let i = choose|i: int| 0 <= i < absent.len() && (#[trigger] absent[i]).node_id == node_id;
            assert(front[i].node_id == node_id);
        }
    }
}

/// After a merge every found node is active and shows what was found, with the state that its
/// former standing gives it. Of several nodes found with one id the last counts.
pub proof fn law_found_nodes_are_active(
    store: StoreView,
    merge: Merge,
    discovered: Seq<DiscoveredView>,
    j: int,
)
    requires
        store.valid(),
        last_with_id(discovered, j),
    ensures
        ({
            let record = node_of(store.reconciled(merge, discovered).nodes, discovered[j].node_id);
            record is Some && shows(record->0, discovered[j], merge)
        }),
{
    let node_id = discovered[j].node_id;
    lemma_sightings_facts(store, merge, discovered, node_id);
    lemma_sightings_show(store, merge, discovered, j);
    assert(found_id(discovered, node_id));
    lemma_absences_facts(
        store.after_sightings(merge, discovered),
        merge,
        merge.members,
        discovered,
        node_id,
    );
}

/// A node whose id is new to its profile is not due for any test at any time until the user has
/// confirmed it.
pub proof fn law_new_nodes_wait_for_confirmation(
    store: StoreView,
    merge: Merge,
    discovered: Seq<DiscoveredView>,
    j: int,
    time: i64,
)
    requires
        store.valid(),
        last_with_id(discovered, j),
        member_with_id(merge.members, discovered[j].node_id) is None,
    ensures
        ({
            let record = node_of(store.reconciled(merge, discovered).nodes, discovered[j].node_id);
            record is Some && !latency_due(time)(record->0) && !speed_due(time)(record->0)
        }),
{
    law_found_nodes_are_active(store, merge, discovered, j);
}

/// A node that the user excluded stays excluded when its connection changes under the same name.
pub proof fn law_exclusion_survives_a_new_connection(
    store: StoreView,
    merge: Merge,
    discovered: Seq<DiscoveredView>,
    j: int,
)
    requires
        store.valid(),
        last_with_id(discovered, j),
        member_with_id(merge.members, discovered[j].node_id) is None,
        member_with_name(merge.members, discovered[j].node_name) matches Some(member)
            && member.state == ParticipationState::Excluded && member.manual_override,
    ensures
        ({
            let record = node_of(store.reconciled(merge, discovered).nodes, discovered[j].node_id);
            record is Some && record->0.node.state == ParticipationState::Excluded
                && record->0.node.manual_override
        }),
{
    law_found_nodes_are_active(store, merge, discovered, j);
}

/// A known node keeps the decision of the user when it is found again.
pub proof fn law_known_nodes_keep_their_decision(
    store: StoreView,
    merge: Merge,
    discovered: Seq<DiscoveredView>,
    j: int,
)
    requires
        store.valid(),
        last_with_id(discovered, j),
        member_with_id(merge.members, discovered[j].node_id) is Some,
    ensures
        ({
            let record = node_of(store.reconciled(merge, discovered).nodes, discovered[j].node_id);
            let member = member_with_id(merge.members, discovered[j].node_id)->0;
            record is Some && record->0.node.state == member.state && record->0.node.manual_override
                == member.manual_override
        }),
{
    law_found_nodes_are_active(store, merge, discovered, j);
}

/// A stored node keeps its schedule and its reminders through a merge, whether it is found or
/// not.
pub proof fn law_merging_keeps_schedules(
    store: StoreView,
    merge: Merge,
    discovered: Seq<DiscoveredView>,
    node_id: Seq<char>,
)
    requires
        store.valid(),
        node_of(store.nodes, node_id) is Some,
    ensures
        ({
            let record = node_of(store.reconciled(merge, discovered).nodes, node_id);
            record is Some && same_schedule(record->0, node_of(store.nodes, node_id)->0)
        }),
{
    lemma_sightings_facts(store, merge, discovered, node_id);
    lemma_absences_facts(
        store.after_sightings(merge, discovered),
        merge,
        merge.members,
        discovered,
        node_id,
    );
}

/// After a merge every former member that was not found is inactive and removed.
pub proof fn law_absent_members_are_retired(
    store: StoreView,
    merge: Merge,
    discovered: Seq<DiscoveredView>,
    node_id: Seq<char>,
)
    requires
        store.valid(),
        has_member(merge.members, node_id),
        knows_node(store.nodes, node_id),
        !found_id(discovered, node_id),
    ensures
        ({
            let record = node_of(store.reconciled(merge, discovered).nodes, node_id);
            record is Some && !record->0.active && record->0.node.state == ParticipationState::Removed
                && record->0.node.last_seen_at == merge.now
        }),
{
    lemma_sightings_facts(store, merge, discovered, node_id);
    lemma_absences_facts(
        store.after_sightings(merge, discovered),
        merge,
        merge.members,
        discovered,
        node_id,
    );
    let i = choose|i: int| 0 <= i < store.nodes.len() && (#[trigger] store.nodes[i]).node.node_id == node_id;
    lemma_node_of_unique(store.nodes, node_id, i);
}

/// A merge leaves every node alone that is neither found nor a member of the profile.
pub proof fn law_other_nodes_are_left_alone(
    store: StoreView,
    merge: Merge,
    discovered: Seq<DiscoveredView>,
    node_id: Seq<char>,
)
    requires
        store.valid(),
        !has_member(merge.members, node_id),
        !found_id(discovered, node_id),
    ensures
        node_of(store.reconciled(merge, discovered).nodes, node_id) == node_of(store.nodes, node_id),
{
    lemma_sightings_facts(store, merge, discovered, node_id);
    lemma_absences_facts(
        store.after_sightings(merge, discovered),
        merge,
        merge.members,
        discovered,
        node_id,
    );
}

proof fn lemma_merge_keeps_rest(store: StoreView, merge: Merge, discovered: Seq<DiscoveredView>)
    ensures
        store.after_sightings(merge, discovered).measurements == store.measurements,
        store.after_sightings(merge, discovered).settings == store.settings,
        store.after_sightings(merge, discovered).profiles == store.profiles,
        store.after_sightings(merge, discovered).changes.len() >= store.changes.len(),
    decreases discovered.len(),
{
    if discovered.len() > 0 {
        lemma_merge_keeps_rest(store, merge, discovered.drop_last());
    }
}

proof fn lemma_absences_keep_rest(
    store: StoreView,
    merge: Merge,
    absent: Seq<NodeView>,
    discovered: Seq<DiscoveredView>,
)
    ensures
        store.after_absences(merge, absent, discovered).measurements == store.measurements,
        store.after_absences(merge, absent, discovered).settings == store.settings,
        store.after_absences(merge, absent, discovered).profiles == store.profiles,
        store.after_absences(merge, absent, discovered).changes.len() >= store.changes.len(),
    decreases absent.len(),
{
    if absent.len() > 0 {
        lemma_absences_keep_rest(store, merge, absent.drop_last(), discovered);
    }
}

/// A merge touches neither test results nor settings nor profiles, and forgets no change.
pub proof fn law_merging_keeps_results(store: StoreView, merge: Merge, discovered: Seq<DiscoveredView>)
    ensures
        store.reconciled(merge, discovered).measurements == store.measurements,
        store.reconciled(merge, discovered).settings == store.settings,
        store.reconciled(merge, discovered).profiles == store.profiles,
        store.reconciled(merge, discovered).changes.len() >= store.changes.len(),
{
    lemma_merge_keeps_rest(store, merge, discovered);
    lemma_absences_keep_rest(
        store.after_sightings(merge, discovered),
        merge,
        merge.members,
        discovered,
    );
}

/// After an accepted confirmation every active node of the profiles is confirmed; the listed
/// ones are due for all tests at once, and the others are due for none.
pub proof fn law_confirmation_settles_every_node(
    store: StoreView,
    profile_uids: Seq<Seq<char>>,
    participants: Seq<Seq<char>>,
    now: i64,
)
    requires
        store.selection_refusal(profile_uids, participants) is None,
    ensures
        store.after_confirmation(profile_uids, participants, now).selection_confirmed(profile_uids),
        forall|i: int|
            0 <= i < store.nodes.len() && active_of_profiles(profile_uids)(#[trigger] store.nodes[i]) ==> {
                let record = store.after_confirmation(profile_uids, participants, now).nodes[i];
                if participants.contains(store.nodes[i].node.node_id) {
                    latency_due(now)(record) && speed_due(now)(record)
                } else {
                    record.node.state == ParticipationState::Excluded && !latency_due(now)(record)
                        && !speed_due(now)(record)
                }
            },
{
    let after = store.after_confirmation(profile_uids, participants, now);
    let i = choose|i: int|
        0 <= i < store.nodes.len() && active_of_profiles(profile_uids)(#[trigger] store.nodes[i]);
    assert(active_of_profiles(profile_uids)(after.nodes[i]));
    assert forall|k: int|
        0 <= k < after.nodes.len() && active_of_profiles(profile_uids)(#[trigger] after.nodes[k])
        implies after.nodes[k].node.manual_override by {
        assert(active_of_profiles(profile_uids)(store.nodes[k]));
    }
}

/// Confirming some profiles leaves the nodes of all other profiles as they are.
pub proof fn law_confirmation_spares_other_profiles(
    store: StoreView,
    profile_uids: Seq<Seq<char>>,
    participants: Seq<Seq<char>>,
    now: i64,
    i: int,
)
    requires
        0 <= i < store.nodes.len(),
        !profile_uids.contains(store.nodes[i].node.profile_uid),
    ensures
        store.after_confirmation(profile_uids, participants, now).nodes[i] == store.nodes[i],
{
}

/// A node that the user excludes leaves no change about it that still matters.
pub proof fn law_exclusion_silences_changes(store: StoreView, node_id: Seq<char>, now: i64, i: int, c: int)
    requires
        0 <= i < store.nodes.len(),
        store.nodes[i].node.node_id == node_id,
        0 <= c < store.changes.len(),
        concerns(store.changes[c], store.nodes[i]),
    ensures
        !store.after_decision(node_id, ParticipationState::Excluded, now).changes[c].relevant,
{
    let decided = store.with_nodes_changed(
        active_with_id(node_id),
        NodeChange::Decide { state: ParticipationState::Excluded, now },
    );
    assert(with_id(node_id)(decided.nodes[i]));
    assert(concerns(store.changes[c], decided.nodes[i]));
}

/// Once the history is cleared no test result is left, every active node is at the start of its
/// series, and all of its tests are due at once.
pub proof fn law_clearing_starts_over(store: StoreView, now: i64, i: int)
    requires
        0 <= i < store.nodes.len(),
        store.nodes[i].active,
    ensures
        ({
            let after = (StoreView { measurements: Seq::empty(), ..store }).with_nodes_changed(
                all_active(),
                NodeChange::Restart { now },
            );
            let node = after.nodes[i].node;
            &&& after.measurements.len() == 0
            &&& node.bootstrap_stage == 0 && node.download_bootstrap_stage == 0
                && node.upload_bootstrap_stage == 0
            &&& node.next_latency_at == now && node.next_download_at == now && node.next_upload_at == now
                && node.next_speed_at == now
            &&& node.snoozed_until is None && !node.ignore_reminder
            &&& node.state == store.nodes[i].node.state && node.manual_override
                == store.nodes[i].node.manual_override
        }),
{
}

/// A delay never makes a test come earlier, and it touches nothing but its own test.
pub proof fn law_delays_touch_one_test(record: NodeRecordView, at: i64)
    ensures
        ({
            let latency = (NodeChange::DelayLatency { at }).on(record).node;
            let download = (NodeChange::DelayDownload { at }).on(record).node;
            let upload = (NodeChange::DelayUpload { at }).on(record).node;
            &&& latency.next_latency_at >= record.node.next_latency_at && latency.next_latency_at >= at
            &&& latency.next_download_at == record.node.next_download_at && latency.next_upload_at
                == record.node.next_upload_at && latency.next_speed_at == record.node.next_speed_at
            &&& download.next_download_at >= record.node.next_download_at && download.next_download_at >= at
            &&& download.next_latency_at == record.node.next_latency_at && download.next_upload_at
                == record.node.next_upload_at
            &&& upload.next_upload_at >= record.node.next_upload_at && upload.next_upload_at >= at
            &&& upload.next_latency_at == record.node.next_latency_at && upload.next_download_at
                == record.node.next_download_at
        }),
{
}

/// A reset takes back what a snooze or an ignored reminder changed.
pub proof fn law_reset_takes_reminders_back(record: NodeRecordView, action: ReminderAction, now: int)
    requires
        record.node.snoozed_until is None,
        !record.node.ignore_reminder,
    ensures
        reminder_change(ReminderAction::Reset, now).on(reminder_change(action, now).on(record)) == record,
{
}

proof fn lemma_selected(nodes: Seq<NodeRecordView>, chosen: spec_fn(NodeRecordView) -> bool, k: int)
    requires
        0 <= k < selected_nodes(nodes, chosen).len(),
    ensures
        exists|i: int|
            0 <= i < nodes.len() && chosen(#[trigger] nodes[i]) && nodes[i].node == selected_nodes(
                nodes,
                chosen,
            )[k],
    decreases nodes.len(),
{
    if nodes.len() > 0 {
        let front = nodes.drop_last();
        if k < selected_nodes(front, chosen).len() {
            lemma_selected(front, chosen, k);
            let i = choose|i: int|
                0 <= i < front.len() && chosen(#[trigger] front[i]) && front[i].node == selected_nodes(
                    front,
                    chosen,
                )[k];
            assert(chosen(nodes[i]) && nodes[i].node == selected_nodes(nodes, chosen)[k]);
        } else {
            assert(chosen(nodes[nodes.len() - 1]));
        }
    }
}

proof fn lemma_ordered_member(
    nodes: Seq<NodeRecordView>,
    chosen: spec_fn(NodeRecordView) -> bool,
    key: spec_fn(NodeView) -> Seq<KeyView>,
    limit: int,
    k: int,
)
    requires
        0 <= k < at_most(ordered_nodes(selected_nodes(nodes, chosen), key), limit).len(),
        limit >= 0,
    ensures
        exists|i: int|
            0 <= i < nodes.len() && chosen(#[trigger] nodes[i]) && nodes[i].node == at_most(
                ordered_nodes(selected_nodes(nodes, chosen), key),
                limit,
            )[k],
{
    let selected = selected_nodes(nodes, chosen);
    let keys = selected.map_values(key);
    law_sorted_order_is_stable(keys);
    let from = sorted_order(keys)[k];
    assert(arranged(selected, keys)[k] == selected[from]);
    lemma_selected(nodes, chosen, from);
}

/// Only nodes that the user confirmed are ever due, and speed tests only for participants.
pub proof fn law_due_nodes_are_confirmed(store: StoreView, now: i64)
    ensures
        forall|k: int|
            0 <= k < store.due_latency_nodes(now).len() ==> {
                let node = #[trigger] store.due_latency_nodes(now)[k];
                node.manual_override && node.next_latency_at <= now && (node.state
                    == ParticipationState::Participating || node.state == ParticipationState::Observe)
            },
        forall|k: int|
            0 <= k < store.due_speed_nodes(now).len() ==> {
                let node = #[trigger] store.due_speed_nodes(now)[k];
                node.manual_override && node.state == ParticipationState::Participating && (
                node.next_download_at <= now || node.next_upload_at <= now)
            },
        store.due_latency_nodes(now).len() <= 500,
        store.due_speed_nodes(now).len() <= 500,
{
    assert forall|k: int| 0 <= k < store.due_latency_nodes(now).len() implies {
        let node = #[trigger] store.due_latency_nodes(now)[k];
        node.manual_override && node.next_latency_at <= now && (node.state
            == ParticipationState::Participating || node.state == ParticipationState::Observe)
    } by {
        lemma_ordered_member(
            store.nodes,
            latency_due(now),
            latency_key(),
            DUE_LIMIT as int,
            k,
        );
    }
    assert forall|k: int| 0 <= k < store.due_speed_nodes(now).len() implies {
        let node = #[trigger] store.due_speed_nodes(now)[k];
        node.manual_override && node.state == ParticipationState::Participating && (node.next_download_at
            <= now || node.next_upload_at <= now)
    } by {
        lemma_ordered_member(
            store.nodes,
            speed_due(now),
            speed_key(),
            DUE_LIMIT as int,
            k,
        );
    }
}

/// The node that is looked up by profile and name is one of the tables, active, of that profile
/// and of that name.
pub proof fn law_named_node_is_known(store: StoreView, profile_uid: Seq<char>, node_name: Seq<char>)
    ensures
        match store.node_by_name(profile_uid, node_name) {
            Some(node) => knows_node(store.nodes, node.node_id) && node.profile_uid == profile_uid
                && node.node_name == node_name,
            None => true,
        },
{
    let chosen = active_named(profile_uid, node_name);
    let found = ordered_nodes(selected_nodes(store.nodes, chosen), latest_key());
    if found.len() > 0 {
        let limit = found.len() as int;
        assert(at_most(found, limit) =~= found);
        lemma_ordered_member(store.nodes, chosen, latest_key(), limit, 0);
    }
}

proof fn lemma_selects(nodes: Seq<NodeRecordView>, chosen: spec_fn(NodeRecordView) -> bool, i: int)
    requires
        0 <= i < nodes.len(),
        chosen(nodes[i]),
    ensures
        has_member(selected_nodes(nodes, chosen), nodes[i].node.node_id),
    decreases nodes.len(),
{
    let front = nodes.drop_last();
    let selected = selected_nodes(nodes, chosen);
    if i < front.len() {
        lemma_selects(front, chosen, i);
        let earlier_ones = selected_nodes(front, chosen);
        let k = choose|k: int|
            0 <= k < earlier_ones.len() && (#[trigger] earlier_ones[k]).node_id == front[i].node.node_id;
        assert(selected[k] == earlier_ones[k]);
    } else {
        assert(selected[selected.len() - 1].node_id == nodes[i].node.node_id);
    }
}

proof fn lemma_first_member(members: Seq<NodeView>, node_id: Seq<char>)
    requires
        has_member(members, node_id),
    ensures
        exists|k: int|
            0 <= k < members.len() && member_with_id(members, node_id) == Some(#[trigger] members[k])
                && members[k].node_id == node_id,
    decreases members.len(),
{
    if members[0].node_id != node_id {
        let rest = members.drop_first();
        let i = choose|i: int| 0 <= i < members.len() && (#[trigger] members[i]).node_id == node_id;
        assert(rest[i - 1].node_id == node_id);
        lemma_first_member(rest, node_id);
        let k = choose|k: int|
            0 <= k < rest.len() && member_with_id(rest, node_id) == Some(#[trigger] rest[k])
                && rest[k].node_id == node_id;
        assert(members[k + 1] == rest[k]);
    }
}

/// An active record of a profile is the member with its id.
proof fn lemma_record_is_member(nodes: Seq<NodeRecordView>, profile_uid: Seq<char>, node_id: Seq<char>)
    requires
        distinct_nodes(nodes),
        node_of(nodes, node_id) matches Some(record) && record.active && record.node.profile_uid
            == profile_uid,
    ensures
        has_member(members(nodes, profile_uid), node_id),
        member_with_id(members(nodes, profile_uid), node_id) == Some(node_of(nodes, node_id)->0.node),
{
    lemma_node_at_facts(nodes, node_id);
    let at = node_at(nodes, node_id);
    let chosen = active_of_profile(profile_uid);
    let list = members(nodes, profile_uid);
    assert(chosen(nodes[at]));
    lemma_selects(nodes, chosen, at);
    lemma_first_member(list, node_id);
    let k = choose|k: int|
        0 <= k < list.len() && member_with_id(list, node_id) == Some(#[trigger] list[k]) && list[k].node_id
            == node_id;
    lemma_selected(nodes, chosen, k);
    let i = choose|i: int| 0 <= i < nodes.len() && chosen(#[trigger] nodes[i]) && nodes[i].node == list[k];
    lemma_node_of_unique(nodes, node_id, i);
}

/// Whether a profile alone has the ids that were found in it.
pub open spec fn ids_are_its_own(
    nodes: Seq<NodeRecordView>,
    profile_uid: Seq<char>,
    discovered: Seq<DiscoveredView>,
) -> bool {
    &&& forall|i: int| 0 <= i < discovered.len() ==> (#[trigger] discovered[i]).profile_uid == profile_uid
    &&& forall|i: int| 0 <= i < nodes.len() && found_id(discovered, (#[trigger] nodes[i]).node.node_id)
        ==> nodes[i].node.profile_uid == profile_uid
}

proof fn lemma_sightings_keep_profiles(
    store: StoreView,
    merge: Merge,
    profile_uid: Seq<char>,
    discovered: Seq<DiscoveredView>,
    node_id: Seq<char>,
)
    requires
        distinct_nodes(store.nodes),
        forall|i: int| 0 <= i < discovered.len() ==> (#[trigger] discovered[i]).profile_uid == profile_uid,
        node_of(store.nodes, node_id) matches Some(record) ==> record.node.profile_uid == profile_uid,
    ensures
        node_of(store.after_sightings(merge, discovered).nodes, node_id) matches Some(record)
            ==> record.node.profile_uid == profile_uid,
    decreases discovered.len(),
{
    if discovered.len() > 0 {
        let front = discovered.drop_last();
        assert forall|i: int| 0 <= i < front.len() implies (#[trigger] front[i]).profile_uid == profile_uid by {
            assert(discovered[i].profile_uid == profile_uid);
        }
        lemma_sightings_keep_profiles(store, merge, profile_uid, front, node_id);
        lemma_sightings_facts(store, merge, front, node_id);
        lemma_sighting_facts(store.after_sightings(merge, front), merge, discovered.last(), node_id);
        assert(discovered[discovered.len() - 1].profile_uid == profile_uid);
    }
}

proof fn lemma_known_sightings_report_nothing(store: StoreView, merge: Merge, discovered: Seq<DiscoveredView>)
    requires
        forall|i: int| 0 <= i < discovered.len() ==> sighted_change(merge.members, #[trigger] discovered[i]) is None,
    ensures
        store.after_sightings(merge, discovered).changes == store.changes,
        store.after_sightings(merge, discovered).last_change_id == store.last_change_id,
    decreases discovered.len(),
{
    if discovered.len() > 0 {
        let front = discovered.drop_last();
        assert forall|i: int| 0 <= i < front.len() implies sighted_change(
            merge.members,
            #[trigger] front[i],
        ) is None by {
            assert(sighted_change(merge.members, discovered[i]) is None);
        }
        lemma_known_sightings_report_nothing(store, merge, front);
        assert(sighted_change(merge.members, discovered[discovered.len() - 1]) is None);
    }
}

proof fn lemma_no_absence(
    store: StoreView,
    merge: Merge,
    absent: Seq<NodeView>,
    discovered: Seq<DiscoveredView>,
)
    requires
        forall|i: int| 0 <= i < absent.len() ==> found_id(discovered, (#[trigger] absent[i]).node_id),
    ensures
        store.after_absences(merge, absent, discovered) == store,
    decreases absent.len(),
{
    if absent.len() > 0 {
        let front = absent.drop_last();
        assert forall|i: int| 0 <= i < front.len() implies found_id(
            discovered,
            (#[trigger] front[i]).node_id,
        ) by {
            assert(found_id(discovered, absent[i].node_id));
        }
        lemma_no_absence(store, merge, front, discovered);
        assert(found_id(discovered, absent[absent.len() - 1].node_id));
    }
}

/// After a merge the members of the profile are the nodes that were found.
pub proof fn law_members_are_the_found_nodes(
    store: StoreView,
    profile_uid: Seq<char>,
    profile_name: Seq<char>,
    settings: SettingsView,
    now: i64,
    discovered: Seq<DiscoveredView>,
    node_id: Seq<char>,
)
    requires
        store.valid(),
        ids_are_its_own(store.nodes, profile_uid, discovered),
    ensures
        ({
            let merge = store.merge_of(profile_uid, profile_name, settings, now);
            has_member(members(store.reconciled(merge, discovered).nodes, profile_uid), node_id) == found_id(
                discovered,
                node_id,
            )
        }),
{
    let merge = store.merge_of(profile_uid, profile_name, settings, now);
    let seen = store.after_sightings(merge, discovered);
    let first = store.reconciled(merge, discovered);
    lemma_sightings_facts(store, merge, discovered, node_id);
    lemma_absences_facts(seen, merge, merge.members, discovered, node_id);
    lemma_node_at_facts(store.nodes, node_id);
    if found_id(discovered, node_id) {
        lemma_sightings_keep_profiles(store, merge, profile_uid, discovered, node_id);
        let j = lemma_last_with_id(discovered, node_id);
        law_found_nodes_are_active(store, merge, discovered, j);
        lemma_record_is_member(first.nodes, profile_uid, node_id);
    } else if has_member(members(first.nodes, profile_uid), node_id) {
        let chosen = active_of_profile(profile_uid);
        let list = members(first.nodes, profile_uid);
        let k = choose|k: int| 0 <= k < list.len() && (#[trigger] list[k]).node_id == node_id;
        lemma_selected(first.nodes, chosen, k);
        let i = choose|i: int|
            0 <= i < first.nodes.len() && chosen(#[trigger] first.nodes[i]) && first.nodes[i].node == list[k];
        lemma_node_of_unique(first.nodes, node_id, i);
        if !has_member(merge.members, node_id) {
            lemma_record_is_member(store.nodes, profile_uid, node_id);
        }
        assert(false);
    }
}

proof fn lemma_last_with_id(discovered: Seq<DiscoveredView>, node_id: Seq<char>) -> (j: int)
    requires
        found_id(discovered, node_id),
    ensures
        last_with_id(discovered, j),
        discovered[j].node_id == node_id,
    decreases discovered.len(),
{
    if discovered.last().node_id == node_id {
        discovered.len() - 1
    } else {
        let front = discovered.drop_last();
        let i = choose|i: int| 0 <= i < discovered.len() && (#[trigger] discovered[i]).node_id == node_id;
        assert(front[i].node_id == node_id);
        let j = lemma_last_with_id(front, node_id);
        assert forall|k: int| j < k < discovered.len() implies (#[trigger] discovered[k]).node_id
            != discovered[j].node_id by {
            if k < front.len() {
                assert(front[k].node_id != front[j].node_id);
            }
        }
        j
    }
}

/// A scan that finds the same nodes again reports no change, whatever the settings and the time
/// are by then.
pub proof fn law_a_repeated_scan_reports_nothing(
    store: StoreView,
    profile_uid: Seq<char>,
    profile_name: Seq<char>,
    settings: SettingsView,
    now: i64,
    discovered: Seq<DiscoveredView>,
    later_settings: SettingsView,
    later: i64,
)
    requires
        store.valid(),
        ids_are_its_own(store.nodes, profile_uid, discovered),
        forall|i: int, j: int|
            0 <= i < j < discovered.len() ==> (#[trigger] discovered[i]).node_id != (
            #[trigger] discovered[j]).node_id,
    ensures
        ({
            let first = store.reconciled(
                store.merge_of(profile_uid, profile_name, settings, now),
                discovered,
            );
            let second = first.reconciled(
                first.merge_of(profile_uid, profile_name, later_settings, later),
                discovered,
            );
            second.changes == first.changes && second.last_change_id == first.last_change_id
        }),
{
    let merge = store.merge_of(profile_uid, profile_name, settings, now);
    let seen = store.after_sightings(merge, discovered);
    let first = store.reconciled(merge, discovered);
    let again = first.merge_of(profile_uid, profile_name, later_settings, later);
    assert forall|i: int| 0 <= i < discovered.len() implies sighted_change(
        again.members,
        #[trigger] discovered[i],
    ) is None by {
        let node_id = discovered[i].node_id;
        assert(found_id(discovered, node_id));
        lemma_node_at_facts(store.nodes, node_id);
        lemma_sightings_facts(store, merge, discovered, node_id);
        lemma_absences_facts(seen, merge, merge.members, discovered, node_id);
        lemma_sightings_keep_profiles(store, merge, profile_uid, discovered, node_id);
        assert(last_with_id(discovered, i));
        law_found_nodes_are_active(store, merge, discovered, i);
        lemma_record_is_member(first.nodes, profile_uid, node_id);
    }
    lemma_known_sightings_report_nothing(first, again, discovered);
    assert forall|i: int| 0 <= i < again.members.len() implies found_id(
        discovered,
        (#[trigger] again.members[i]).node_id,
    ) by {
        let node_id = again.members[i].node_id;
        assert(has_member(members(first.nodes, profile_uid), node_id));
        law_members_are_the_found_nodes(
            store,
            profile_uid,
            profile_name,
            settings,
            now,
            discovered,
            node_id,
        );
    }
    lemma_no_absence(first.after_sightings(again, discovered), again, again.members, discovered);
}

/// Settings that passed their check are read back as they were stored.
pub proof fn law_stored_settings_are_read_back(store: StoreView, wished: SettingsView)
    requires
        wished.refusal() is None,
    ensures
        ({
            let after = StoreView { settings: Some(wished.normal()), ..store };
            after.settings_sound() && after.current_settings() == wished.normal()
        }),
{
    law_normal_settings_stay(wished);
}

/// A stored result is among the results of its node that are read back, as the tables hold it.
pub proof fn law_stored_results_are_read_back(
    store: StoreView,
    record: RecordView,
    node_ids: Seq<Seq<char>>,
    start_at: i64,
)
    requires
        node_ids.contains(record.node_id),
        record.created_at >= start_at,
    ensures
        store.with_record(record).records_since(node_ids, start_at).contains(stored_record(record)),
{
    let kept = stored_record(record);
    let all = store.with_record(record).measurements;
    assert(all.drop_last() =~= store.measurements);
    let found = selected_records(all, node_ids, start_at);
    let last = found.len() - 1;
    assert(found[last] == kept);
    let keys = found.map_values(
        |record: RecordView| seq![KeyView::Number(record.created_at as int)],
    );
    law_sorted_order_is_stable(keys);
    assert(sorted_order(keys).contains(last));
    let k = choose|k: int| 0 <= k < sorted_order(keys).len() && sorted_order(keys)[k] == last;
    assert(arranged(found, keys)[k] == kept);
}

/// Every stored result, of a failed test too, adds the bytes that it moved to the traffic of its
/// day and to no later day.
pub proof fn law_results_count_for_the_day(store: StoreView, record: RecordView, start_at: i64)
    ensures
        ({
            let down = moved_bytes(store.measurements, counted_since(start_at), true);
            let up = moved_bytes(store.measurements, counted_since(start_at), false);
            let kept = stored_record(record);
            store.traffic_since(start_at) == sums(down, up) && store.with_record(record).traffic_since(start_at)
                == if record.created_at >= start_at {
                sums(down + kept.bytes_down, up + kept.bytes_up)
            } else {
                sums(down, up)
            }
        }),
{
    let all = store.with_record(record).measurements;
    assert(all.drop_last() =~= store.measurements);
}

/// A plan for one test leaves the times and the stages of the other tests alone.
pub proof fn law_plans_touch_one_test(record: NodeRecordView, stage: u8, at: i64)
    ensures
        ({
            let node = record.node;
            let latency = (NodeChange::PlanLatency { at }).on(record).node;
            let download = (NodeChange::PlanDownload { stage, at }).on(record).node;
            let upload = (NodeChange::PlanUpload { stage, at }).on(record).node;
            &&& latency == NodeView { next_latency_at: at, ..node }
            &&& download.next_download_at == at && download.download_bootstrap_stage == stage
            &&& download.next_latency_at == node.next_latency_at
            &&& download.next_upload_at == node.next_upload_at
            &&& download.upload_bootstrap_stage == node.upload_bootstrap_stage
            &&& upload.next_upload_at == at && upload.upload_bootstrap_stage == stage
            &&& upload.next_latency_at == node.next_latency_at
            &&& upload.next_download_at == node.next_download_at
            &&& upload.download_bootstrap_stage == node.download_bootstrap_stage
        }),
{
}

/// Where every test result belongs to a known node, it stays so: results of known nodes are added,
/// nodes change or are merged, and none is forgotten.
pub proof fn law_results_stay_with_known_nodes(
    store: StoreView,
    record: RecordView,
    chosen: spec_fn(NodeRecordView) -> bool,
    change: NodeChange,
    merge: Merge,
    discovered: Seq<DiscoveredView>,
    now: i64,
)
    requires
        store.valid(),
        store.results_known(),
        knows_node(store.nodes, record.node_id),
    ensures
        store.with_record(record).results_known(),
        store.with_nodes_changed(chosen, change).results_known(),
        store.reconciled(merge, discovered).results_known(),
        store.after_clearing(now).results_known(),
{
    let noted = store.with_record(record);
    assert forall|i: int| 0 <= i < noted.measurements.len() implies knows_node(
        noted.nodes,
        (#[trigger] noted.measurements[i]).node_id,
    ) by {
        if i < store.measurements.len() {
            assert(noted.measurements[i] == store.measurements[i]);
        }
    }
    let changed = store.with_nodes_changed(chosen, change);
    lemma_same_ids(store.nodes, changed.nodes);
    assert forall|i: int| 0 <= i < changed.measurements.len() implies knows_node(
        changed.nodes,
        (#[trigger] changed.measurements[i]).node_id,
    ) by {
        assert(knows_node(store.nodes, store.measurements[i].node_id));
    }
    let merged = store.reconciled(merge, discovered);
    law_merging_keeps_results(store, merge, discovered);
    assert forall|i: int| 0 <= i < merged.measurements.len() implies knows_node(
        merged.nodes,
        (#[trigger] merged.measurements[i]).node_id,
    ) by {
        let node_id = store.measurements[i].node_id;
        assert(knows_node(store.nodes, node_id));
        let k = choose|k: int| 0 <= k < store.nodes.len() && (#[trigger] store.nodes[k]).node.node_id == node_id;
        lemma_node_of_unique(store.nodes, node_id, k);
        law_merging_keeps_schedules(store, merge, discovered, node_id);
        lemma_node_at_facts(merged.nodes, node_id);
        assert(merged.nodes[node_at(merged.nodes, node_id)].node.node_id == node_id);
    }
}

} // verus!
