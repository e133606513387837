//! What the decisions of the user and the scans of profiles change in the tables, stated of their
//! rows.

use crate::errors::BenchmarkError;
use crate::keywords::proposed_state;
use crate::models::{
    DiscoveredView, MeasurementKind, NodeView, ParticipationState, RecordView, ReminderAction,
};
use crate::outcomes::{daily_limit, exceeds, used_bytes};
use crate::reconcile::{Merge, found_id, found_name, member_with_id, member_with_name, members, standing};
use crate::settings::SettingsView;
use crate::store::{
    MISSING_PROFILE_ERROR, NodeChange, NodeRecordView, ProfileView, StoreView, active_among,
    active_excluded, active_of_profile, active_of_profiles, concerns, profile_at, profile_of,
    reminder_change, selected_nodes, stored_record, with_profile,
};
use vstd::prelude::*;

verus! {

/// Whether two nodes differ at most in how they take part and when they are tested.
pub open spec fn same_identity(after: NodeRecordView, before: NodeRecordView) -> bool {
    after == (NodeRecordView {
        node: NodeView {
            state: after.node.state,
            manual_override: after.node.manual_override,
            next_latency_at: after.node.next_latency_at,
            next_speed_at: after.node.next_speed_at,
            next_download_at: after.node.next_download_at,
            next_upload_at: after.node.next_upload_at,
            ..before.node
        },
        active: before.active,
    })
}

/// Whether a node is as a decision of the user leaves it: in the decided state and confirmed; due for
/// what that state is tested for, and otherwise as it was.
pub open spec fn decided(
    after: NodeRecordView,
    before: NodeRecordView,
    state: ParticipationState,
    now: i64,
) -> bool {
    let takes_part = state == ParticipationState::Participating;
    let is_watched = takes_part || state == ParticipationState::Observe;
    &&& same_identity(after, before)
    &&& after.node.state == state
    &&& after.node.manual_override
    &&& is_watched ==> after.node.next_latency_at == now
    &&& !is_watched ==> after.node.next_latency_at == before.node.next_latency_at
    &&& takes_part ==> after.node.next_download_at == now && after.node.next_upload_at == now
        && after.node.next_speed_at == now
    &&& !takes_part ==> after.node.next_download_at == before.node.next_download_at
        && after.node.next_upload_at == before.node.next_upload_at && after.node.next_speed_at
        == before.node.next_speed_at
}

/// A decision on a node changes that node alone, and only while its profile has it. Results,
/// settings and profiles stay.
pub proof fn law_decisions_concern_one_node(
    store: StoreView,
    node_id: Seq<char>,
    state: ParticipationState,
    now: i64,
    i: int,
)
    requires
        0 <= i < store.nodes.len(),
    ensures
        ({
            let after = store.after_decision(node_id, state, now);
            &&& after.nodes.len() == store.nodes.len()
            &&& after.measurements == store.measurements && after.settings == store.settings
                && after.profiles == store.profiles
            &&& if store.nodes[i].active && store.nodes[i].node.node_id == node_id {
                decided(after.nodes[i], store.nodes[i], state, now)
            } else {
                after.nodes[i] == store.nodes[i]
            }
            &&& state != ParticipationState::Excluded ==> after.changes == store.changes
        }),
{
}

/// A confirmation of participants decides on every active node of the profiles: the listed ones take
/// part, all others are excluded. Every other node stays as it is.
pub proof fn law_confirmation_decides_on_every_node(
    store: StoreView,
    profile_uids: Seq<Seq<char>>,
    participants: Seq<Seq<char>>,
    now: i64,
    i: int,
)
    requires
        0 <= i < store.nodes.len(),
    ensures
        ({
            let after = store.after_confirmation(profile_uids, participants, now);
            let node = store.nodes[i].node;
            &&& after.nodes.len() == store.nodes.len()
            &&& after.measurements == store.measurements && after.settings == store.settings
                && after.profiles == store.profiles
            &&& if store.nodes[i].active && profile_uids.contains(node.profile_uid) {
                decided(
                    after.nodes[i],
                    store.nodes[i],
                    if participants.contains(node.node_id) {
                        ParticipationState::Participating
                    } else {
                        ParticipationState::Excluded
                    },
                    now,
                )
            } else {
                after.nodes[i] == store.nodes[i]
            }
        }),
{
}

/// After a confirmation the changes about active excluded nodes no longer matter, and all other
/// changes are as they were.
pub proof fn law_confirmation_silences_changes_of_excluded_nodes(
    store: StoreView,
    profile_uids: Seq<Seq<char>>,
    participants: Seq<Seq<char>>,
    now: i64,
    c: int,
)
    requires
        0 <= c < store.changes.len(),
    ensures
        ({
            let after = store.after_confirmation(profile_uids, participants, now);
            let event = store.changes[c].event;
            let silent = exists|i: int|
                0 <= i < after.nodes.len() && (#[trigger] after.nodes[i]).active && after.nodes[i].node.state
                    == ParticipationState::Excluded && after.nodes[i].node.profile_uid == event.profile_uid
                    && event.node_name == Some(after.nodes[i].node.node_name);
            &&& after.changes.len() == store.changes.len()
            &&& after.changes[c].event == event
            &&& silent ==> !after.changes[c].relevant
            &&& !silent ==> after.changes[c].relevant == store.changes[c].relevant
        }),
{
    let after = store.after_confirmation(profile_uids, participants, now);
    let event = store.changes[c].event;
    if exists|i: int|
        0 <= i < after.nodes.len() && (#[trigger] after.nodes[i]).active && after.nodes[i].node.state
            == ParticipationState::Excluded && after.nodes[i].node.profile_uid == event.profile_uid
            && event.node_name == Some(after.nodes[i].node.node_name) {
        let i = choose|i: int|
            0 <= i < after.nodes.len() && (#[trigger] after.nodes[i]).active && after.nodes[i].node.state
                == ParticipationState::Excluded && after.nodes[i].node.profile_uid == event.profile_uid
                && event.node_name == Some(after.nodes[i].node.node_name);
        assert(active_excluded()(after.nodes[i]));
        assert(concerns(store.changes[c], after.nodes[i]));
    } else {
        assert forall|i: int|
            0 <= i < after.nodes.len() && active_excluded()(after.nodes[i])
            implies !concerns(store.changes[c], #[trigger] after.nodes[i]) by {}
    }
}

/// A selection is refused exactly where no profile is given, where the profiles have no active node,
/// or where a participant is no active node of theirs, in this order.
pub proof fn law_selections_need_known_candidates(
    store: StoreView,
    profile_uids: Seq<Seq<char>>,
    participants: Seq<Seq<char>>,
)
    ensures
        ({
            let offered = |node_id: Seq<char>|
                exists|i: int|
                    0 <= i < store.nodes.len() && (#[trigger] store.nodes[i]).active && profile_uids.contains(
                        store.nodes[i].node.profile_uid,
                    ) && store.nodes[i].node.node_id == node_id;
            let any = exists|i: int|
                0 <= i < store.nodes.len() && (#[trigger] store.nodes[i]).active && profile_uids.contains(
                    store.nodes[i].node.profile_uid,
                );
            let refusal = store.selection_refusal(profile_uids, participants);
            &&& refusal == Some(BenchmarkError::NoProfileSelected) <==> profile_uids.len() == 0
            &&& refusal == Some(BenchmarkError::NoCandidate) <==> profile_uids.len() > 0 && !any
            &&& profile_uids.len() > 0 && any ==> (refusal is None <==> forall|k: int|
                0 <= k < participants.len() ==> offered(#[trigger] participants[k]))
            &&& refusal is None || refusal == Some(BenchmarkError::NoProfileSelected) || refusal == Some(
                BenchmarkError::NoCandidate,
            ) || refusal == Some(BenchmarkError::CandidatesChanged)
        }),
{
    let any = exists|i: int|
        0 <= i < store.nodes.len() && (#[trigger] store.nodes[i]).active && profile_uids.contains(
            store.nodes[i].node.profile_uid,
        );
    assert(any == store.has_candidates(profile_uids)) by {
        if any {
            let i = choose|i: int|
                0 <= i < store.nodes.len() && (#[trigger] store.nodes[i]).active && profile_uids.contains(
                    store.nodes[i].node.profile_uid,
                );
            assert(active_of_profiles(profile_uids)(store.nodes[i]));
        }
    }
    let offered = |node_id: Seq<char>|
        exists|i: int|
            0 <= i < store.nodes.len() && (#[trigger] store.nodes[i]).active && profile_uids.contains(
                store.nodes[i].node.profile_uid,
            ) && store.nodes[i].node.node_id == node_id;
    assert forall|k: int| 0 <= k < participants.len() implies offered(#[trigger] participants[k])
        == store.offers(profile_uids, participants[k]) by {
        let node_id = participants[k];
        if offered(node_id) {
            let i = choose|i: int|
                0 <= i < store.nodes.len() && (#[trigger] store.nodes[i]).active && profile_uids.contains(
                    store.nodes[i].node.profile_uid,
                ) && store.nodes[i].node.node_id == node_id;
            assert(active_of_profiles(profile_uids)(store.nodes[i]));
        }
    }
}

/// An answer to a reminder puts it off for seven days, dismisses it, or takes both back, and changes
/// nothing else of the node.
pub proof fn law_reminders_are_answered(record: NodeRecordView, now: i64)
    requires
        now + 604_800 <= i64::MAX,
    ensures
        ({
            let snoozed = reminder_change(ReminderAction::SnoozeSevenDays, now as int).on(record);
            let ignored = reminder_change(ReminderAction::Ignore, now as int).on(record);
            let reset = reminder_change(ReminderAction::Reset, now as int).on(record);
            &&& snoozed == (NodeRecordView {
                node: NodeView {
                    snoozed_until: Some((now + 604_800) as i64),
                    ignore_reminder: false,
                    ..record.node
                },
                ..record
            })
            &&& ignored == (NodeRecordView {
                node: NodeView { snoozed_until: None, ignore_reminder: true, ..record.node },
                ..record
            })
            &&& reset == (NodeRecordView {
                node: NodeView { snoozed_until: None, ignore_reminder: false, ..record.node },
                ..record
            })
        }),
{
}

/// Tests that are made due are those of the listed active nodes: all their tests are due at once, and
/// nothing else changes.
pub proof fn law_made_due_are_the_listed_nodes(store: StoreView, node_ids: Seq<Seq<char>>, now: i64, i: int)
    requires
        0 <= i < store.nodes.len(),
    ensures
        ({
            let after = store.with_nodes_changed(active_among(node_ids), NodeChange::MakeDue { now });
            let became = after.nodes[i];
            &&& after.measurements == store.measurements && after.changes == store.changes
            &&& if store.nodes[i].active && node_ids.contains(store.nodes[i].node.node_id) {
                &&& became.node.next_latency_at == now && became.node.next_download_at == now
                    && became.node.next_upload_at == now && became.node.next_speed_at == now
                &&& same_identity(became, store.nodes[i])
                &&& became.node.state == store.nodes[i].node.state && became.node.manual_override
                    == store.nodes[i].node.manual_override
            } else {
                became == store.nodes[i]
            }
        }),
{
}

/// Clearing the history starts every active node over and leaves inactive ones, settings, profiles
/// and changes alone.
pub proof fn law_clearing_spares_the_rest(store: StoreView, now: i64, i: int)
    requires
        0 <= i < store.nodes.len(),
    ensures
        ({
            let after = store.after_clearing(now);
            &&& after.measurements.len() == 0
            &&& after.changes == store.changes && after.settings == store.settings && after.profiles
                == store.profiles
            &&& !store.nodes[i].active ==> after.nodes[i] == store.nodes[i]
            &&& store.nodes[i].active ==> {
                let became = after.nodes[i].node;
                &&& after.nodes[i].active
                &&& became.bootstrap_stage == 0 && became.download_bootstrap_stage == 0 && became.upload_bootstrap_stage
                    == 0
                &&& became.next_latency_at == now && became.next_speed_at == now && became.next_download_at == now
                    && became.next_upload_at == now
                &&& became.snoozed_until is None && !became.ignore_reminder
                &&& became.node_id == store.nodes[i].node.node_id && became.state == store.nodes[i].node.state
                    && became.manual_override == store.nodes[i].node.manual_override && became.first_seen_at
                    == store.nodes[i].node.first_seen_at && became.fingerprint == store.nodes[i].node.fingerprint
            }
        }),
{
}

proof fn lemma_profile_place(profiles: Seq<ProfileView>, profile_uid: Seq<char>)
    ensures
        0 <= profile_at(profiles, profile_uid) <= profiles.len(),
        profile_at(profiles, profile_uid) < profiles.len() ==> profiles[profile_at(
            profiles,
            profile_uid,
        )].profile_uid == profile_uid,
        forall|i: int|
            0 <= i < profile_at(profiles, profile_uid) ==> (#[trigger] profiles[i]).profile_uid
                != profile_uid,
    decreases profiles.len(),
{
    if profiles.len() > 0 && profiles[0].profile_uid != profile_uid {
        let rest = profiles.drop_first();
        lemma_profile_place(rest, profile_uid);
        assert forall|i: int| 0 <= i < profile_at(profiles, profile_uid) implies (
        #[trigger] profiles[i]).profile_uid != profile_uid by {
            if i > 0 {
                assert(rest[i - 1] == profiles[i]);
            }
        }
    }
}

proof fn lemma_with_profile(profiles: Seq<ProfileView>, profile: ProfileView, other: Seq<char>)
    ensures
        profile_of(with_profile(profiles, profile), profile.profile_uid) == Some(profile),
        other != profile.profile_uid ==> profile_of(with_profile(profiles, profile), other) == profile_of(
            profiles,
            other,
        ),
{
    let after = with_profile(profiles, profile);
    let at = profile_at(profiles, profile.profile_uid);
    lemma_profile_place(profiles, profile.profile_uid);
    lemma_profile_place(after, profile.profile_uid);
    lemma_profile_place(profiles, other);
    lemma_profile_place(after, other);
    assert(after[at] == profile);
    let now = profile_at(after, profile.profile_uid);
    if now < at {
        assert(after[now] == profiles[now]);
    }
    if other != profile.profile_uid {
        let was = profile_at(profiles, other);
        let became = profile_at(after, other);
        if was < profiles.len() {
            assert(was != at);
            assert(after[was] == profiles[was]);
            if became < was {
                if became == at {
                    assert(after[became].profile_uid == profile.profile_uid);
                } else {
                    assert(after[became] == profiles[became]);
                }
            }
        } else if became < after.len() {
            if became == at {
                assert(after[became].profile_uid == profile.profile_uid);
            } else {
                assert(after[became] == profiles[became]);
            }
        }
    }
}

/// A scan of a profile notes its name, its time and its error, and keeps the former fingerprint of
/// the configuration where it gives none. It reports a change exactly where the profile was known
/// under another name. Other profiles, nodes and results stay as they are.
pub proof fn law_scans_are_noted(
    store: StoreView,
    profile_uid: Seq<char>,
    profile_name: Seq<char>,
    source_hash: Option<Seq<char>>,
    scanned_at: i64,
    scan_error: Option<Seq<char>>,
    other: Seq<char>,
)
    ensures
        ({
            let after = store.after_scan(profile_uid, profile_name, source_hash, scanned_at, scan_error);
            let previous = profile_of(store.profiles, profile_uid);
            let profile = profile_of(after.profiles, profile_uid);
            let renamed = previous is Some && previous->0.profile_name != profile_name;
            &&& after.nodes == store.nodes && after.measurements == store.measurements && after.settings
                == store.settings
            &&& profile is Some && profile->0.profile_name == profile_name && profile->0.last_scanned_at == Some(
                scanned_at,
            ) && profile->0.scan_error == scan_error
            &&& source_hash is Some ==> profile->0.source_hash == source_hash
            &&& source_hash is None && previous is Some ==> profile->0.source_hash
                == previous->0.source_hash
            &&& source_hash is None && previous is None ==> profile->0.source_hash is None
            &&& other != profile_uid ==> profile_of(after.profiles, other) == profile_of(store.profiles, other)
            &&& !renamed ==> after.changes == store.changes
            &&& renamed ==> after.changes.len() == store.changes.len() + 1 && after.changes.take(
                store.changes.len() as int,
            ) == store.changes && after.changes.last().relevant && {
                let event = after.changes.last().event;
                &&& event.profile_uid == profile_uid && event.profile_name == profile_name
                &&& event.node_name is None && event.change_type == "profileRenamed"@
                &&& event.created_at == scanned_at
            }
        }),
{
    let after = store.after_scan(profile_uid, profile_name, source_hash, scanned_at, scan_error);
    let previous = profile_of(store.profiles, profile_uid);
    let profile = ProfileView {
        profile_uid,
        profile_name,
        source_hash: match (source_hash, previous) {
            (Some(hash), _) => Some(hash),
            (None, Some(previous)) => previous.source_hash,
            (None, None) => None,
        },
        last_scanned_at: Some(scanned_at),
        scan_error,
    };
    lemma_with_profile(store.profiles, profile, other);
    if after.changes.len() > store.changes.len() {
        assert(after.changes.take(store.changes.len() as int) =~= store.changes);
    }
}

/// The loss of a profile retires its active nodes and no other one. The loss is reported when it is
/// first noticed, and again only where the profile had active nodes.
pub proof fn law_lost_profiles_retire_their_nodes(
    store: StoreView,
    profile_uid: Seq<char>,
    fallback_name: Seq<char>,
    now: i64,
    i: int,
)
    requires
        0 <= i < store.nodes.len(),
    ensures
        ({
            let after = store.after_loss(profile_uid, fallback_name, now);
            let became = after.nodes[i];
            let was = store.nodes[i];
            &&& after.nodes.len() == store.nodes.len() && after.measurements == store.measurements
            &&& if was.active && was.node.profile_uid == profile_uid {
                became == (NodeRecordView {
                    node: NodeView { state: ParticipationState::Removed, last_seen_at: now, ..was.node },
                    active: false,
                })
            } else {
                became == was
            }
            &&& was.active && was.node.profile_uid == profile_uid ==> after.changes.len()
                == store.changes.len() + 1
            &&& profile_of(store.profiles, profile_uid) is None ==> after.changes.len() == store.changes.len()
                + 1
            &&& after.changes.len() == store.changes.len() + 1 ==> {
                let event = after.changes.last().event;
                &&& after.changes.last().relevant
                &&& event.profile_uid == profile_uid && event.node_name is None && event.change_type
                    == "profileRemoved"@ && event.created_at == now
            }
            &&& after.changes.len() == store.changes.len() ==> after.changes == store.changes
        }),
{
    if store.nodes[i].active && store.nodes[i].node.profile_uid == profile_uid {
        assert(active_of_profile(profile_uid)(store.nodes[i]));
    }
}

/// A loss that was noticed before is not reported again where the profile has no active node.
pub proof fn law_a_known_loss_is_not_reported_again(
    store: StoreView,
    profile_uid: Seq<char>,
    fallback_name: Seq<char>,
    now: i64,
    later: i64,
)
    ensures
        ({
            let once = store.after_loss(profile_uid, fallback_name, now);
            once.after_loss(profile_uid, fallback_name, later).changes == once.changes
        }),
{
    let once = store.after_loss(profile_uid, fallback_name, now);
    let previous = profile_of(store.profiles, profile_uid);
    let profile = ProfileView {
        profile_uid,
        profile_name: match previous {
            Some(previous) => previous.profile_name,
            None => fallback_name,
        },
        source_hash: match previous {
            Some(previous) => previous.source_hash,
            None => None,
        },
        last_scanned_at: Some(now),
        scan_error: Some(MISSING_PROFILE_ERROR@),
    };
    lemma_with_profile(store.profiles, profile, profile_uid);
    assert forall|i: int| 0 <= i < once.nodes.len() implies !active_of_profile(profile_uid)(
        #[trigger] once.nodes[i],
    ) by {}
}

/// A stored result is the result itself, but for counts above the signed 64-bit numbers, which stop
/// there, and for a value that is no number, which is left out.
pub proof fn law_results_are_stored_as_they_are(record: RecordView)
    ensures
        ({
            let kept = stored_record(record);
            &&& record.bytes_down <= i64::MAX && record.bytes_up <= i64::MAX && record.duration_ms <= i64::MAX
                && !(record.value is Some && record.value->0.is_nan()) ==> kept == record
            &&& kept.node_id == record.node_id && kept.kind == record.kind && kept.success == record.success
                && kept.rank_eligible == record.rank_eligible && kept.created_at == record.created_at
                && kept.error == record.error && kept.trigger == record.trigger
            &&& kept.bytes_down <= record.bytes_down && kept.bytes_up <= record.bytes_up
            &&& record.value is Some && record.value->0.is_nan() ==> kept.value is None
            &&& !(record.value is Some && record.value->0.is_nan()) ==> kept.value == record.value
        }),
{
}

/// A test of some size is refused exactly where it would take the traffic of the day in its own
/// direction above the limit of that direction, and never where that limit is the largest number.
pub proof fn law_each_direction_has_its_own_limit(down: int, up: int, size: u64, settings: SettingsView)
    ensures
        exceeds(
            used_bytes((down, up), MeasurementKind::Download),
            size,
            daily_limit(settings, MeasurementKind::Download),
        ) <==> settings.download_daily_limit_bytes < u64::MAX && down + size
            > settings.download_daily_limit_bytes,
        exceeds(
            used_bytes((down, up), MeasurementKind::Upload),
            size,
            daily_limit(settings, MeasurementKind::Upload),
        ) <==> settings.upload_daily_limit_bytes < u64::MAX && up + size > settings.upload_daily_limit_bytes,
{
}

proof fn lemma_no_member_with_id(members: Seq<NodeView>, node_id: Seq<char>)
    ensures
        member_with_id(members, node_id) is None <==> forall|i: int|
            0 <= i < members.len() ==> (#[trigger] members[i]).node_id != node_id,
    decreases members.len(),
{
    if members.len() > 0 {
        let rest = members.drop_first();
        lemma_no_member_with_id(rest, node_id);
        if members[0].node_id != node_id {
            if member_with_id(members, node_id) is None {
                assert forall|i: int| 0 <= i < members.len() implies (#[trigger] members[i]).node_id
                    != node_id by {
                    if i > 0 {
                        assert(rest[i - 1] == members[i]);
                    }
                }
            } else {
                let i = choose|i: int| 0 <= i < rest.len() && (#[trigger] rest[i]).node_id == node_id;
                assert(members[i + 1].node_id == node_id);
            }
        }
    }
}

proof fn lemma_no_member_with_name(members: Seq<NodeView>, node_name: Seq<char>)
    ensures
        member_with_name(members, node_name) is None <==> forall|i: int|
            0 <= i < members.len() ==> (#[trigger] members[i]).node_name != node_name,
    decreases members.len(),
{
    if members.len() > 0 {
        let rest = members.drop_first();
        lemma_no_member_with_name(rest, node_name);
        if members[0].node_name != node_name {
            if member_with_name(members, node_name) is None {
                assert forall|i: int| 0 <= i < members.len() implies (#[trigger] members[i]).node_name
                    != node_name by {
                    if i > 0 {
                        assert(rest[i - 1] == members[i]);
                    }
                }
            } else {
                let i = choose|i: int| 0 <= i < rest.len() && (#[trigger] rest[i]).node_name == node_name;
                assert(members[i + 1].node_name == node_name);
            }
        }
    }
}

/// A found node reports a change exactly where its id is new to the profile, or it is known by
/// another name: a known name with a new id has a changed configuration, a new name with a new id
/// was added, and a known id with a new name was renamed. The change matters unless the node is
/// excluded.
pub proof fn law_sightings_report_changes(store: StoreView, merge: Merge, found: DiscoveredView)
    ensures
        ({
            let after = store.after_sighting(merge, found);
            let n = store.changes.len() as int;
            let known = exists|i: int|
                0 <= i < merge.members.len() && (#[trigger] merge.members[i]).node_id == found.node_id;
            let name_known = exists|i: int|
                0 <= i < merge.members.len() && (#[trigger] merge.members[i]).node_name == found.node_name;
            &&& !known ==> after.changes.len() == n + 1 && after.changes.last().event.change_type
                == if name_known {
                "configurationChanged"@
            } else {
                "added"@
            }
            &&& known && member_with_id(merge.members, found.node_id)->0.node_name == found.node_name
                ==> after.changes == store.changes
            &&& known && member_with_id(merge.members, found.node_id)->0.node_name != found.node_name
                ==> after.changes.len() == n + 1 && after.changes.last().event.change_type == "renamed"@
            &&& after.changes.len() > n ==> {
                let change = after.changes.last();
                &&& after.changes.take(n) == store.changes
                &&& change.event.profile_uid == merge.profile_uid && change.event.profile_name
                    == merge.profile_name && change.event.created_at == merge.now
                &&& change.event.node_name == Some(found.node_name)
                &&& change.relevant <==> standing(merge.members, found, merge.settings).0
                    != ParticipationState::Excluded
            }
        }),
{
    lemma_no_member_with_id(merge.members, found.node_id);
    lemma_no_member_with_name(merge.members, found.node_name);
    let after = store.after_sighting(merge, found);
    if after.changes.len() > store.changes.len() {
        assert(after.changes.take(store.changes.len() as int) =~= store.changes);
    }
}

/// A member of a profile that a scan no longer finds is reported as removed exactly where nothing of
/// its name was found either; the report matters unless the member was excluded.
pub proof fn law_absences_report_removals(
    store: StoreView,
    merge: Merge,
    member: NodeView,
    discovered: Seq<DiscoveredView>,
)
    ensures
        ({
            let after = store.after_absence(merge, member, discovered);
            let n = store.changes.len() as int;
            let found = exists|i: int|
                0 <= i < discovered.len() && (#[trigger] discovered[i]).node_id == member.node_id;
            let name_found = exists|i: int|
                0 <= i < discovered.len() && (#[trigger] discovered[i]).node_name == member.node_name;
            &&& found ==> after == store
            &&& !found && name_found ==> after.changes == store.changes
            &&& !found && !name_found ==> after.changes.len() == n + 1 && after.changes.take(n)
                == store.changes && {
                let change = after.changes.last();
                &&& change.event.change_type == "removed"@ && change.event.node_name == Some(member.node_name)
                &&& change.event.profile_uid == merge.profile_uid && change.event.created_at == merge.now
                &&& change.relevant <==> member.state != ParticipationState::Excluded
            }
        }),
{
    assert(found_id(discovered, member.node_id) == (exists|i: int|
        0 <= i < discovered.len() && (#[trigger] discovered[i]).node_id == member.node_id));
    assert(found_name(discovered, member.node_name) == (exists|i: int|
        0 <= i < discovered.len() && (#[trigger] discovered[i]).node_name == member.node_name));
    let after = store.after_absence(merge, member, discovered);
    if after.changes.len() > store.changes.len() {
        assert(after.changes.take(store.changes.len() as int) =~= store.changes);
    }
}

/// A found node whose id is new to the profile is never tested unasked: it is unconfirmed, or it is
/// excluded.
pub proof fn law_new_ids_are_unconfirmed_or_excluded(members: Seq<NodeView>, found: DiscoveredView, settings: SettingsView)
    requires
        forall|i: int| 0 <= i < members.len() ==> (#[trigger] members[i]).node_id != found.node_id,
    ensures
        ({
            let (state, confirmed) = standing(members, found, settings);
            &&& confirmed ==> state == ParticipationState::Excluded
            &&& !confirmed ==> state == ParticipationState::Changed
        }),
{
    lemma_no_member_with_id(members, found.node_id);
}

proof fn lemma_member_with_name(members: Seq<NodeView>, node_name: Seq<char>, at: int)
    requires
        0 <= at <= members.len(),
        forall|i: int| 0 <= i < at ==> (#[trigger] members[i]).node_name != node_name,
        at < members.len() ==> members[at].node_name == node_name,
    ensures
        at < members.len() ==> member_with_name(members, node_name) == Some(members[at]),
        at == members.len() ==> member_with_name(members, node_name) is None,
    decreases members.len(),
{
    if at > 0 {
        assert(members[0].node_name != node_name);
        let rest = members.drop_first();
        assert forall|i: int| 0 <= i < at - 1 implies (#[trigger] rest[i]).node_name != node_name by {
            assert(members[i + 1].node_name != node_name);
        }
        lemma_member_with_name(rest, node_name, at - 1);
    }
}

proof fn lemma_member_with_id(members: Seq<NodeView>, node_id: Seq<char>, at: int)
    requires
        0 <= at < members.len(),
        forall|i: int| 0 <= i < at ==> (#[trigger] members[i]).node_id != node_id,
        members[at].node_id == node_id,
    ensures
        member_with_id(members, node_id) == Some(members[at]),
    decreases members.len(),
{
    if at > 0 {
        assert(members[0].node_id != node_id);
        let rest = members.drop_first();
        assert forall|i: int| 0 <= i < at - 1 implies (#[trigger] rest[i]).node_id != node_id by {
            assert(members[i + 1].node_id != node_id);
        }
        lemma_member_with_id(rest, node_id, at - 1);
    }
}

/// A node whose id is new but whose name the profile has stays excluded exactly where the user excluded
/// the first one of that name. One whose name is new as well is excluded exactly where the keywords say
/// so.
pub proof fn law_new_ids_are_excluded_with_reason(
    members: Seq<NodeView>,
    found: DiscoveredView,
    settings: SettingsView,
    at: int,
)
    requires
        forall|i: int| 0 <= i < members.len() ==> (#[trigger] members[i]).node_id != found.node_id,
        0 <= at <= members.len(),
        forall|i: int| 0 <= i < at ==> (#[trigger] members[i]).node_name != found.node_name,
        at < members.len() ==> members[at].node_name == found.node_name,
    ensures
        ({
            let (state, confirmed) = standing(members, found, settings);
            &&& at < members.len() ==> (state == ParticipationState::Excluded <==> members[at].state
                == ParticipationState::Excluded && members[at].manual_override)
            &&& at == members.len() ==> (state == ParticipationState::Excluded <==> proposed_state(
                found.node_name,
                found.profile_name,
                settings,
            ) == ParticipationState::Excluded)
            &&& confirmed <==> state == ParticipationState::Excluded
        }),
{
    lemma_no_member_with_id(members, found.node_id);
    lemma_member_with_name(members, found.node_name, at);
}

/// A node whose id the profile has keeps its state and whether the user decided on it.
pub proof fn law_known_ids_keep_their_standing(
    members: Seq<NodeView>,
    found: DiscoveredView,
    settings: SettingsView,
    at: int,
)
    requires
        0 <= at < members.len(),
        forall|i: int| 0 <= i < at ==> (#[trigger] members[i]).node_id != found.node_id,
        members[at].node_id == found.node_id,
    ensures
        standing(members, found, settings).0 == members[at].state,
        standing(members, found, settings).1 == members[at].manual_override,
{
    lemma_member_with_id(members, found.node_id, at);
}

proof fn lemma_members(nodes: Seq<NodeRecordView>, chosen: spec_fn(NodeRecordView) -> bool, same: spec_fn(NodeRecordView) -> bool)
    requires
        forall|record: NodeRecordView| #[trigger] same(record) == chosen(record),
    ensures
        selected_nodes(nodes, chosen) == nodes.filter(same).map_values(|record: NodeRecordView| record.node),
    decreases nodes.len(),
{
    reveal(Seq::filter);
    let inner = |record: NodeRecordView| record.node;
    if nodes.len() > 0 {
        let front = nodes.drop_last();
        lemma_members(front, chosen, same);
        assert(same(nodes.last()) == chosen(nodes.last()));
        if chosen(nodes.last()) {
            assert(front.filter(same).push(nodes.last()).map_values(inner) =~= front.filter(same).map_values(
                inner,
            ).push(nodes.last().node));
        }
    } else {
        assert(nodes.filter(same).map_values(inner) =~= Seq::empty());
    }
}

/// The members of a profile are its active nodes, in the order of the tables.
pub proof fn law_members_are_the_active_nodes(nodes: Seq<NodeRecordView>, profile_uid: Seq<char>)
    ensures
        members(nodes, profile_uid) == nodes.filter(
            |record: NodeRecordView| record.active && record.node.profile_uid == profile_uid,
        ).map_values(|record: NodeRecordView| record.node),
{
    lemma_members(
        nodes,
        active_of_profile(profile_uid),
        |record: NodeRecordView| record.active && record.node.profile_uid == profile_uid,
    );
}

} // verus!
