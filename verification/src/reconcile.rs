//! Merging the nodes that a scan of a profile found with the nodes that are stored.

use vstd::prelude::*;

use crate::keywords::{default_state_for_name, proposed_state};
use crate::models::{DiscoveredNode, DiscoveredView, NodeView, ParticipationState, StoredNode};
use crate::settings::{BenchmarkSettings, SettingsView};
use crate::store::{
    active_of_profile, distinct_nodes, knows_node, lemma_nodes_keep_valid, lemma_with_change_valid,
    node_views, selected_nodes, with_id, BenchmarkStore, NodeChange, NodeRecord, NodeRecordView, StoreView,
};
use crate::text::same_text;

verus! {

/// The active nodes of a profile, in the order of the table.
pub open spec fn members(nodes: Seq<NodeRecordView>, profile_uid: Seq<char>) -> Seq<NodeView> {
    selected_nodes(nodes, active_of_profile(profile_uid))
}

/// The first member with an id.
pub open spec fn member_with_id(members: Seq<NodeView>, node_id: Seq<char>) -> Option<NodeView>
    decreases members.len(),
{
    if members.len() == 0 {
        None
    } else if members[0].node_id == node_id {
        Some(members[0])
    } else {
        member_with_id(members.drop_first(), node_id)
    }
}

/// The first member with a name.
pub open spec fn member_with_name(members: Seq<NodeView>, node_name: Seq<char>) -> Option<NodeView>
    decreases members.len(),
{
    if members.len() == 0 {
        None
    } else if members[0].node_name == node_name {
        Some(members[0])
    } else {
        member_with_name(members.drop_first(), node_name)
    }
}

/// The state of a found node and whether the user decided on it: a node that is known keeps
/// both; one whose connection changed stays excluded if the user excluded it and must be
/// confirmed otherwise; a new one must be confirmed unless the keywords exclude it.
pub open spec fn standing(members: Seq<NodeView>, found: DiscoveredView, settings: SettingsView) -> (
    ParticipationState,
    bool,
) {
    match member_with_id(members, found.node_id) {
        Some(member) => (member.state, member.manual_override),
        None => match member_with_name(members, found.node_name) {
            Some(member) => if member.state == ParticipationState::Excluded && member.manual_override {
                (ParticipationState::Excluded, true)
            } else {
                (ParticipationState::Changed, false)
            },
            None => if proposed_state(found.node_name, found.profile_name, settings)
                == ParticipationState::Excluded {
                (ParticipationState::Excluded, true)
            } else {
                (ParticipationState::Changed, false)
            },
        },
    }
}

/// The change that a found node amounts to.
pub open spec fn sighted_change(members: Seq<NodeView>, found: DiscoveredView) -> Option<Seq<char>> {
    match member_with_id(members, found.node_id) {
        Some(member) => if member.node_name != found.node_name {
            Some("renamed"@)
        } else {
            None
        },
        None => match member_with_name(members, found.node_name) {
            Some(_) => Some("configurationChanged"@),
            None => Some("added"@),
        },
    }
}

/// The index of the record with a node id, or the number of records.
pub open spec fn node_at(nodes: Seq<NodeRecordView>, node_id: Seq<char>) -> int
    decreases nodes.len(),
{
    if nodes.len() == 0 {
        0
    } else if nodes[0].node.node_id == node_id {
        0
    } else {
        1 + node_at(nodes.drop_first(), node_id)
    }
}

/// The record with a node id.
pub open spec fn node_of(nodes: Seq<NodeRecordView>, node_id: Seq<char>) -> Option<NodeRecordView> {
    let at = node_at(nodes, node_id);
    if at < nodes.len() {
        Some(nodes[at])
    } else {
        None
    }
}

/// The record of a node that was never seen before.
pub open spec fn fresh_record(
    found: DiscoveredView,
    state: ParticipationState,
    manual_override: bool,
    now: i64,
) -> NodeRecordView {
    NodeRecordView {
        node: NodeView {
            node_id: found.node_id,
            profile_uid: found.profile_uid,
            profile_name: found.profile_name,
            node_name: found.node_name,
            node_type: found.node_type,
            fingerprint: found.fingerprint,
            state,
            manual_override,
            first_seen_at: now,
            last_seen_at: now,
            bootstrap_stage: 0,
            next_latency_at: now,
            next_speed_at: now,
            download_bootstrap_stage: 0,
            upload_bootstrap_stage: 0,
            next_download_at: now,
            next_upload_at: now,
            snoozed_until: None,
            ignore_reminder: false,
        },
        active: true,
    }
}

/// The record of a node that was seen again; its profile and its schedule stay.
pub open spec fn seen_again(
    record: NodeRecordView,
    found: DiscoveredView,
    state: ParticipationState,
    manual_override: bool,
    now: i64,
) -> NodeRecordView {
    NodeRecordView {
        node: NodeView {
            profile_name: found.profile_name,
            node_name: found.node_name,
            node_type: found.node_type,
            fingerprint: found.fingerprint,
            state,
            manual_override,
            last_seen_at: now,
            ..record.node
        },
        active: true,
    }
}

/// The records after a node was found.
pub open spec fn with_sighting(
    nodes: Seq<NodeRecordView>,
    found: DiscoveredView,
    state: ParticipationState,
    manual_override: bool,
    now: i64,
) -> Seq<NodeRecordView> {
    let at = node_at(nodes, found.node_id);
    if at < nodes.len() {
        nodes.update(at, seen_again(nodes[at], found, state, manual_override, now))
    } else {
        nodes.push(fresh_record(found, state, manual_override, now))
    }
}

/// Whether a node with the id was found.
pub open spec fn found_id(discovered: Seq<DiscoveredView>, node_id: Seq<char>) -> bool {
    exists|i: int| 0 <= i < discovered.len() && (#[trigger] discovered[i]).node_id == node_id
}

/// Whether a node with the name was found.
pub open spec fn found_name(discovered: Seq<DiscoveredView>, node_name: Seq<char>) -> bool {
    exists|i: int| 0 <= i < discovered.len() && (#[trigger] discovered[i]).node_name == node_name
}

/// What found nodes stand for.
pub open spec fn discovered_views(discovered: Seq<DiscoveredNode>) -> Seq<DiscoveredView> {
    discovered.map_values(|node: DiscoveredNode| node@)
}

/// A profile whose nodes are merged.
pub struct Merge {
    pub profile_uid: Seq<char>,
    pub profile_name: Seq<char>,
    pub members: Seq<NodeView>,
    pub settings: SettingsView,
    pub now: i64,
}

impl StoreView {
    /// The tables after one node was found.
    pub open spec fn after_sighting(self, merge: Merge, found: DiscoveredView) -> StoreView {
        let (state, manual_override) = standing(merge.members, found, merge.settings);
        let seen = StoreView {
            nodes: with_sighting(self.nodes, found, state, manual_override, merge.now),
            ..self
        };
        match sighted_change(merge.members, found) {
            Some(change_type) => seen.with_change(
                merge.profile_uid,
                merge.profile_name,
                Some(found.node_name),
                change_type,
                state != ParticipationState::Excluded,
                merge.now,
            ),
            None => seen,
        }
    }

    /// The tables after nodes were found, one after the other.
    pub open spec fn after_sightings(self, merge: Merge, discovered: Seq<DiscoveredView>) -> StoreView
        decreases discovered.len(),
    {
        if discovered.len() == 0 {
            self
        } else {
            self.after_sightings(merge, discovered.drop_last()).after_sighting(merge, discovered.last())
        }
    }

    /// The tables after a look whether one former member was found.
    pub open spec fn after_absence(
        self,
        merge: Merge,
        member: NodeView,
        discovered: Seq<DiscoveredView>,
    ) -> StoreView {
        if found_id(discovered, member.node_id) {
            self
        } else {
            let retired = self.with_nodes_changed(
                with_id(member.node_id),
                NodeChange::Retire { now: merge.now },
            );
            if found_name(discovered, member.node_name) {
                retired
            } else {
                retired.with_change(
                    merge.profile_uid,
                    merge.profile_name,
                    Some(member.node_name),
                    "removed"@,
                    member.state != ParticipationState::Excluded,
                    merge.now,
                )
            }
        }
    }

    /// The tables after a look whether former members were found, one after the other.
    pub open spec fn after_absences(
        self,
        merge: Merge,
        absent: Seq<NodeView>,
        discovered: Seq<DiscoveredView>,
    ) -> StoreView
        decreases absent.len(),
    {
        if absent.len() == 0 {
            self
        } else {
            self.after_absences(merge, absent.drop_last(), discovered).after_absence(
                merge,
                absent.last(),
                discovered,
            )
        }
    }

    /// The merge of what a scan of a profile found.
    pub open spec fn merge_of(
        self,
        profile_uid: Seq<char>,
        profile_name: Seq<char>,
        settings: SettingsView,
        now: i64,
    ) -> Merge {
        Merge {
            profile_uid,
            profile_name,
            members: members(self.nodes, profile_uid),
            settings,
            now,
        }
    }

    /// The tables after the nodes that a scan found were merged.
    pub open spec fn reconciled(self, merge: Merge, discovered: Seq<DiscoveredView>) -> StoreView {
        self.after_sightings(merge, discovered).after_absences(merge, merge.members, discovered)
    }
}

proof fn lemma_node_at(nodes: Seq<NodeRecordView>, node_id: Seq<char>, at: int)
    requires
        0 <= at <= nodes.len(),
        forall|i: int| 0 <= i < at ==> (#[trigger] nodes[i]).node.node_id != node_id,
        at < nodes.len() ==> nodes[at].node.node_id == node_id,
    ensures
        node_at(nodes, node_id) == at,
    decreases nodes.len(),
{
    if nodes.len() > 0 && at > 0 {
        let rest = nodes.drop_first();
        assert(nodes[0].node.node_id != node_id);
        assert forall|i: int| 0 <= i < at - 1 implies (#[trigger] rest[i]).node.node_id != node_id by {
            assert(rest[i] == nodes[i + 1]);
        }
        lemma_node_at(rest, node_id, at - 1);
    }
}

/// The index of a node id points to the first record with it.
pub proof fn lemma_node_at_facts(nodes: Seq<NodeRecordView>, node_id: Seq<char>)
    ensures
        0 <= node_at(nodes, node_id) <= nodes.len(),
        node_at(nodes, node_id) < nodes.len() ==> nodes[node_at(nodes, node_id)].node.node_id == node_id,
        forall|i: int| 0 <= i < node_at(nodes, node_id) ==> (#[trigger] nodes[i]).node.node_id != node_id,
    decreases nodes.len(),
{
    if nodes.len() > 0 && nodes[0].node.node_id != node_id {
        let rest = nodes.drop_first();
        lemma_node_at_facts(rest, node_id);
        assert forall|i: int| 0 <= i < node_at(nodes, node_id) implies (#[trigger] nodes[i]).node.node_id
            != node_id by {
            if i > 0 {
                assert(rest[i - 1] == nodes[i]);
            }
        }
    }
}

/// A sighting keeps the ids of the nodes distinct and forgets none of them.
pub proof fn lemma_sighting_nodes(
    nodes: Seq<NodeRecordView>,
    found: DiscoveredView,
    state: ParticipationState,
    manual_override: bool,
    now: i64,
)
    requires
        distinct_nodes(nodes),
    ensures
        distinct_nodes(with_sighting(nodes, found, state, manual_override, now)),
        forall|node_id: Seq<char>|
            knows_node(nodes, node_id) ==> #[trigger] knows_node(
                with_sighting(nodes, found, state, manual_override, now),
                node_id,
            ),
        with_sighting(nodes, found, state, manual_override, now).len() <= nodes.len() + 1,
{
    let after = with_sighting(nodes, found, state, manual_override, now);
    let at = node_at(nodes, found.node_id);
    lemma_node_at_facts(nodes, found.node_id);
    assert forall|i: int, j: int| 0 <= i < j < after.len() implies (#[trigger] after[i]).node.node_id != (
    #[trigger] after[j]).node.node_id by {
        if at < nodes.len() || (i != at && j != at) {
            assert(nodes[i].node.node_id != nodes[j].node.node_id);
        } else {
            assert(nodes[i].node.node_id != found.node_id);
        }
    }
    assert forall|node_id: Seq<char>| knows_node(nodes, node_id) implies #[trigger] knows_node(after, node_id) by {
        let i = choose|i: int| 0 <= i < nodes.len() && (#[trigger] nodes[i]).node.node_id == node_id;
        assert(after[i].node.node_id == node_id);
    }
}

proof fn lemma_sighting_valid(store: StoreView, merge: Merge, found: DiscoveredView)
    requires
        store.valid(),
        store.last_change_id < i64::MAX,
        i64::MIN <= store.last_change_id,
    ensures
        store.after_sighting(merge, found).valid(),
        store.after_sighting(merge, found).last_change_id <= store.last_change_id + 1,
        store.after_sighting(merge, found).last_change_id >= store.last_change_id,
{
    let (state, manual_override) = standing(merge.members, found, merge.settings);
    let seen = StoreView {
        nodes: with_sighting(store.nodes, found, state, manual_override, merge.now),
        ..store
    };
    lemma_sighting_nodes(store.nodes, found, state, manual_override, merge.now);
    assert(seen.valid());
    match sighted_change(merge.members, found) {
        Some(change_type) => {
            lemma_with_change_valid(
                seen,
                merge.profile_uid,
                merge.profile_name,
                Some(found.node_name),
                change_type,
                state != ParticipationState::Excluded,
                merge.now,
            );
        },
        None => {},
    }
}

proof fn lemma_absence_valid(
    store: StoreView,
    merge: Merge,
    member: NodeView,
    discovered: Seq<DiscoveredView>,
)
    requires
        store.valid(),
        store.last_change_id < i64::MAX,
        i64::MIN <= store.last_change_id,
    ensures
        store.after_absence(merge, member, discovered).valid(),
        store.after_absence(merge, member, discovered).last_change_id <= store.last_change_id + 1,
        store.after_absence(merge, member, discovered).last_change_id >= store.last_change_id,
{
    if !found_id(discovered, member.node_id) {
        let retired = store.with_nodes_changed(
            with_id(member.node_id),
            NodeChange::Retire { now: merge.now },
        );
        lemma_nodes_keep_valid(store, retired);
        if !found_name(discovered, member.node_name) {
            lemma_with_change_valid(
                retired,
                merge.profile_uid,
                merge.profile_name,
                Some(member.node_name),
                "removed"@,
                member.state != ParticipationState::Excluded,
                merge.now,
            );
        }
    }
}

fn find_id(members: &Vec<StoredNode>, node_id: &str) -> (at: Option<usize>)
    ensures
        match at {
            Some(i) => i < members.len() && member_with_id(node_views(members@), node_id@) == Some(
                members@[i as int]@,
            ),
            None => member_with_id(node_views(members@), node_id@) is None,
        },
{
    let ghost all = node_views(members@);
    assert(all.skip(0) =~= all);
    for i in 0..members.len()
        invariant
            all == node_views(members@),
            member_with_id(all, node_id@) == member_with_id(all.skip(i as int), node_id@),
    {
        assert(all.skip(i as int)[0] == members@[i as int]@);
        if same_text(members[i].node_id.as_str(), node_id) {
            return Some(i);
        }
        assert(all.skip(i as int).drop_first() =~= all.skip(i + 1));
    }
    None
}

fn find_name(members: &Vec<StoredNode>, node_name: &str) -> (at: Option<usize>)
    ensures
        match at {
            Some(i) => i < members.len() && member_with_name(node_views(members@), node_name@) == Some(
                members@[i as int]@,
            ),
            None => member_with_name(node_views(members@), node_name@) is None,
        },
{
    let ghost all = node_views(members@);
    assert(all.skip(0) =~= all);
    for i in 0..members.len()
        invariant
            all == node_views(members@),
            member_with_name(all, node_name@) == member_with_name(all.skip(i as int), node_name@),
    {
        assert(all.skip(i as int)[0] == members@[i as int]@);
        if same_text(members[i].node_name.as_str(), node_name) {
            return Some(i);
        }
        assert(all.skip(i as int).drop_first() =~= all.skip(i + 1));
    }
    None
}

impl BenchmarkStore {
    fn put_sighting(
        &mut self,
        found: &DiscoveredNode,
        state: ParticipationState,
        manual_override: bool,
        now: i64,
    )
        ensures
            final(self)@ == (StoreView {
                nodes: with_sighting(old(self)@.nodes, found@, state, manual_override, now),
                ..old(self)@
            }),
    {
        let ghost before = self@;
        let mut at: usize = 0;
        while at < self.nodes.len() && !same_text(
            self.nodes[at].node.node_id.as_str(),
            found.node_id.as_str(),
        )
            invariant
                self@ == before,
                at <= self.nodes.len(),
                forall|i: int| 0 <= i < at ==> (#[trigger] before.nodes[i]).node.node_id != found@.node_id,
            decreases self.nodes.len() - at,
        {
            assert(before.nodes[at as int] == self.nodes@[at as int]@);
            at += 1;
        }
        proof {
            if at < self.nodes.len() {
                assert(before.nodes[at as int] == self.nodes@[at as int]@);
            }
            lemma_node_at(before.nodes, found@.node_id, at as int);
        }
        if at < self.nodes.len() {
            let record = &mut self.nodes[at];
            record.node.profile_name = found.profile_name.clone();
            record.node.node_name = found.node_name.clone();
            record.node.node_type = found.node_type.clone();
            record.node.fingerprint = found.fingerprint.clone();
            record.node.state = state;
            record.node.manual_override = manual_override;
            record.node.last_seen_at = now;
            record.active = true;
        } else {
            let node = StoredNode {
                node_id: found.node_id.clone(),
                profile_uid: found.profile_uid.clone(),
                profile_name: found.profile_name.clone(),
                node_name: found.node_name.clone(),
                node_type: found.node_type.clone(),
                fingerprint: found.fingerprint.clone(),
                state,
                manual_override,
                first_seen_at: now,
                last_seen_at: now,
                bootstrap_stage: 0,
                next_latency_at: now,
                next_speed_at: now,
                download_bootstrap_stage: 0,
                upload_bootstrap_stage: 0,
                next_download_at: now,
                next_upload_at: now,
                snoozed_until: None,
                ignore_reminder: false,
            };
            self.nodes.push(NodeRecord { node, active: true });
        }
        assert(self@.nodes =~= with_sighting(before.nodes, found@, state, manual_override, now));
        assert(self@ =~= (StoreView { nodes: self@.nodes, ..before }));
    }

    /// Merges the nodes that a scan of a profile found: nodes that are known keep their state
    /// and schedule, new and changed ones wait for a decision of the user, and those that are
    /// gone are retired. What changed is reported.
    pub fn reconcile_nodes(
        &mut self,
        profile_uid: &str,
        profile_name: &str,
        discovered: &[DiscoveredNode],
        settings: &BenchmarkSettings,
        now: i64,
    )
        requires
            old(self)@.valid(),
            old(self)@.has_room((discovered@.len() + old(self)@.nodes.len()) as int),
        ensures
            final(self)@ == old(self)@.reconciled(
                old(self)@.merge_of(profile_uid@, profile_name@, settings@, now),
                discovered_views(discovered@),
            ),
            final(self)@.valid(),
            final(self)@.last_change_id <= old(self)@.last_change_id + discovered@.len() + old(self)@.nodes.len(),
    {
        let ghost given = self@;
        let ghost merge = given.merge_of(profile_uid@, profile_name@, settings@, now);
        let ghost views = discovered_views(discovered@);
        let flags = self.flag_profile(profile_uid);
        let existing = self.pick(&flags, Ghost(active_of_profile(profile_uid@)));
        assert(views.take(0) =~= Seq::empty());
        for d in 0..discovered.len()
            invariant
                views == discovered_views(discovered@),
                node_views(existing@) == merge.members,
                merge == given.merge_of(profile_uid@, profile_name@, settings@, now),
                existing.len() <= given.nodes.len(),
                given.has_room((discovered@.len() + given.nodes.len()) as int),
                self@ == given.after_sightings(merge, views.take(d as int)),
                self@.valid(),
                given.last_change_id <= self@.last_change_id <= given.last_change_id + d,
        {
            let found = &discovered[d];
            let ghost before = self@;
            assert(views.take(d + 1).drop_last() =~= views.take(d as int));
            assert(views.take(d + 1).last() == found@);
            proof {
                lemma_sighting_valid(before, merge, found@);
            }
            let same_id = find_id(&existing, found.node_id.as_str());
            let same_name = find_name(&existing, found.node_name.as_str());
            let (state, manual_override) = match same_id {
                Some(i) => (existing[i].state, existing[i].manual_override),
                None => match same_name {
                    Some(i) => {
                        if existing[i].state == ParticipationState::Excluded && existing[i].manual_override {
                            (ParticipationState::Excluded, true)
                        } else {
                            (ParticipationState::Changed, false)
                        }
                    },
                    None => {
                        let proposed = default_state_for_name(
                            found.node_name.as_str(),
                            found.profile_name.as_str(),
                            settings,
                        );
                        if proposed == ParticipationState::Excluded {
                            (ParticipationState::Excluded, true)
                        } else {
                            (ParticipationState::Changed, false)
                        }
                    },
                },
            };
            assert((state, manual_override) == standing(merge.members, found@, merge.settings));
            self.put_sighting(found, state, manual_override, now);
            proof {
                lemma_sighting_nodes(before.nodes, found@, state, manual_override, now);
            }
            let relevant: bool = state != ParticipationState::Excluded;
            match same_id {
                Some(i) => {
                    if !same_text(existing[i].node_name.as_str(), found.node_name.as_str()) {
                        self.push_change(
                            profile_uid,
                            profile_name,
                            Some(found.node_name.as_str()),
                            "renamed",
                            relevant,
                            now,
                        );
                    }
                },
                None => match same_name {
                    Some(_) => {
                        self.push_change(
                            profile_uid,
                            profile_name,
                            Some(found.node_name.as_str()),
                            "configurationChanged",
                            relevant,
                            now,
                        );
                    },
                    None => {
                        self.push_change(
                            profile_uid,
                            profile_name,
                            Some(found.node_name.as_str()),
                            "added",
                            relevant,
                            now,
                        );
                    },
                },
            }
        }
        assert(views.take(views.len() as int) =~= views);
        let ghost sighted = self@;
        assert(merge.members.take(0) =~= Seq::empty());
        for m in 0..existing.len()
            invariant
                views == discovered_views(discovered@),
                node_views(existing@) == merge.members,
                merge == given.merge_of(profile_uid@, profile_name@, settings@, now),
                existing.len() <= given.nodes.len(),
                given.has_room((discovered@.len() + given.nodes.len()) as int),
                self@ == sighted.after_absences(merge, merge.members.take(m as int), views),
                self@.valid(),
                given.last_change_id <= self@.last_change_id <= given.last_change_id + discovered@.len() + m,
        {
            let member = &existing[m];
            assert(merge.members.take(m + 1).drop_last() =~= merge.members.take(m as int));
            assert(merge.members.take(m + 1).last() == member@);
            let ghost before = self@;
            proof {
                lemma_absence_valid(before, merge, member@, views);
            }
            let mut id_found: bool = false;
            let mut name_found: bool = false;
            for d in 0..discovered.len()
                invariant
                    views == discovered_views(discovered@),
                    id_found == exists|k: int| 0 <= k < d && (#[trigger] views[k]).node_id == member@.node_id,
                    name_found == exists|k: int|
                        0 <= k < d && (#[trigger] views[k]).node_name == member@.node_name,
            {
                assert(views[d as int] == discovered@[d as int]@);
                if same_text(discovered[d].node_id.as_str(), member.node_id.as_str()) {
                    assert(views[d as int].node_id == member@.node_id);
                    id_found = true;
                }
                if same_text(discovered[d].node_name.as_str(), member.node_name.as_str()) {
                    assert(views[d as int].node_name == member@.node_name);
                    name_found = true;
                }
            }
            assert(id_found == found_id(views, member@.node_id));
            assert(name_found == found_name(views, member@.node_name));
            if !id_found {
                self.change_one(member.node_id.as_str(), NodeChange::Retire { now });
                if !name_found {
                    self.push_change(
                        profile_uid,
                        profile_name,
                        Some(member.node_name.as_str()),
                        "removed",
                        member.state != ParticipationState::Excluded,
                        now,
                    );
                }
            }
        }
        assert(merge.members.take(merge.members.len() as int) =~= merge.members);
    }
}

} // verus!
