//! What a look at the ranking shows, and when its wishes are refused, stated of the tables.

use crate::batch::some_running;
use crate::course_laws::law_profiles_keep_their_nodes;
use crate::errors::BenchmarkError;
use crate::keywords::proposed_state;
use crate::manager::{ManagerView, SHOWN_CHANGES, candidate_key, looked_back, shown_candidates};
use crate::models::{
    BenchmarkWindow, ChangeView, DiscoveredView, NodeUpdateRequest, NodeView, ParticipationState, RecordView,
};
use crate::order::key_order;
use crate::profile::{PreparedView, PrintView, hash_text, print_at, special};
use crate::profile_laws::{built_in, lemma_built_in};
use crate::queries::{
    ProfileTraffic, SummaryView, configured_name, count_nodes, counted_of, lost_profiles, moved_bytes,
    newest_changes, pair_ids, pair_key, profile_pairs, summary_key, wanted_changes,
};
use crate::query_laws::{law_active_nodes_are_all_listed, lemma_arranged};
use crate::settings::SettingsView;
use crate::store::{
    ChangeRecordView, NodeRecordView, StoreView, active_of_profile, active_of_profiles, active_with_id,
    profile_of, stored_record,
};
use crate::text::text_order;
use vstd::prelude::*;
use vstd::utf8::encode_utf8;

verus! {

/// The ranking can be started exactly where some profile is selected, the selected profiles have an
/// active node, the user decided on every one of their active nodes, and one of them takes part.
pub proof fn law_starting_needs_a_confirmed_participant(store: StoreView)
    ensures
        ({
            let uids = store.current_settings().selected_profile_uids;
            let offered = |i: int|
                0 <= i < store.nodes.len() && store.nodes[i].active && uids.contains(
                    store.nodes[i].node.profile_uid,
                );
            &&& store.start_refusal() is None <==> {
                &&& uids.len() > 0
                &&& forall|i: int| #[trigger] offered(i) ==> store.nodes[i].node.manual_override
                &&& exists|i: int| #[trigger]
                    offered(i) && store.nodes[i].node.state == ParticipationState::Participating
            }
            &&& store.start_refusal() == Some(BenchmarkError::SelectionMissing) <==> uids.len() == 0
        }),
{
    let uids = store.current_settings().selected_profile_uids;
    let offered = |i: int|
        0 <= i < store.nodes.len() && store.nodes[i].active && uids.contains(
            store.nodes[i].node.profile_uid,
        );
    let shown = store.selected_active();
    let kept = |node: NodeView| uids.contains(node.profile_uid);
    law_profiles_keep_their_nodes(store.active_nodes(), Seq::empty(), uids);
    assert forall|i: int| #[trigger] offered(i) implies active_of_profiles(uids)(store.nodes[i]) by {}
    if exists|i: int| #[trigger] offered(i) && store.nodes[i].node.state == ParticipationState::Participating {
        let i = choose|i: int| #[trigger]
            offered(i) && store.nodes[i].node.state == ParticipationState::Participating;
        let node = store.nodes[i].node;
        law_active_nodes_are_all_listed(store, node);
        assert(store.nodes[i].active && store.nodes[i].node == node);
        let all = store.active_nodes();
        assert(all.contains(node));
        let k = choose|k: int| 0 <= k < all.len() && all[k] == node;
        assert(kept(all[k]));
        all.lemma_filter_contains(kept, k);
        assert(shown.contains(node));
        let s = choose|s: int| 0 <= s < shown.len() && shown[s] == node;
        assert(shown[s].state == ParticipationState::Participating);
    }
    if exists|s: int| 0 <= s < shown.len() && (#[trigger] shown[s]).state == ParticipationState::Participating {
        let s = choose|s: int|
            0 <= s < shown.len() && (#[trigger] shown[s]).state == ParticipationState::Participating;
        let all = store.active_nodes();
        all.lemma_filter_pred(kept, s);
        all.lemma_filter_contains_rev(kept, shown[s]);
        law_active_nodes_are_all_listed(store, shown[s]);
        let i = choose|i: int|
            0 <= i < store.nodes.len() && (#[trigger] store.nodes[i]).active && store.nodes[i].node
                == shown[s];
        assert(offered(i));
    }
    if store.selection_confirmed(uids) {
        assert forall|i: int| #[trigger] offered(i) implies store.nodes[i].node.manual_override by {
            assert(active_of_profiles(uids)(store.nodes[i]));
        }
    } else if forall|i: int| #[trigger] offered(i) ==> store.nodes[i].node.manual_override {
        assert forall|i: int|
            0 <= i < store.nodes.len() && active_of_profiles(uids)(#[trigger] store.nodes[i])
            implies store.nodes[i].node.manual_override by {
            assert(offered(i));
        }
        assert forall|i: int| !(#[trigger] offered(i)) by {
            if offered(i) {
                assert(active_of_profiles(uids)(store.nodes[i]));
            }
        }
    }
}

/// Starting and stopping change the one switch of the settings and nothing else.
pub proof fn law_starting_turns_one_switch(store: StoreView, enabled: bool)
    ensures
        store.with_enabled(enabled) == (StoreView { settings: store.with_enabled(enabled).settings, ..store }),
        store.with_enabled(enabled).settings == Some(
            SettingsView { enabled, ..store.current_settings() },
        ),
{
}

/// A wish to change a node is refused exactly where it asks for a state that only scans give, or for
/// a state of a node that no profile has.
pub proof fn law_node_wishes_need_an_active_node(store: StoreView, request: NodeUpdateRequest)
    ensures
        ({
            let refusal = store.update_refusal(request);
            let known = exists|i: int|
                0 <= i < store.nodes.len() && (#[trigger] store.nodes[i]).active
                    && store.nodes[i].node.node_id == request.node_id@;
            &&& request.state is None ==> refusal is None
            &&& request.state == Some(ParticipationState::Changed) || request.state == Some(
                ParticipationState::Removed,
            ) ==> refusal == Some(BenchmarkError::ReservedState)
            &&& request.state == Some(ParticipationState::Participating) || request.state == Some(
                ParticipationState::Observe,
            ) || request.state == Some(ParticipationState::Excluded) ==> refusal == if known {
                None::<BenchmarkError>
            } else {
                Some(BenchmarkError::UnknownNode)
            }
        }),
{
    if exists|i: int|
        0 <= i < store.nodes.len() && (#[trigger] store.nodes[i]).active && store.nodes[i].node.node_id
            == request.node_id@ {
        let i = choose|i: int|
            0 <= i < store.nodes.len() && (#[trigger] store.nodes[i]).active && store.nodes[i].node.node_id
                == request.node_id@;
        assert(active_with_id(request.node_id@)(store.nodes[i]));
    }
}

/// The history can be cleared exactly while the ranking is stopped and no manual batch runs.
pub proof fn law_clearing_needs_rest(manager: ManagerView, again: bool)
    ensures
        manager.clearing_refusal(again) is None <==> !manager.store.current_settings().enabled && forall|i: int|
            0 <= i < manager.manual_jobs.len() ==> !(#[trigger] manager.manual_jobs[i]).running,
        manager.store.current_settings().enabled ==> manager.clearing_refusal(again) == Some(
            if again {
                BenchmarkError::EnabledAgain
            } else {
                BenchmarkError::StillEnabled
            },
        ),
{
    assert(some_running(manager.manual_jobs) == !(forall|i: int|
        0 <= i < manager.manual_jobs.len() ==> !(#[trigger] manager.manual_jobs[i]).running));
}

/// Results are looked at from seven days ago on, and all of them for the long-term window. At most
/// fifty changes are shown.
pub proof fn law_looks_go_back_seven_days(now: int)
    ensures
        looked_back(BenchmarkWindow::LongTerm, now) == 0,
        looked_back(BenchmarkWindow::SixHours, now) == now - 604_800,
        looked_back(BenchmarkWindow::TwelveHours, now) == now - 604_800,
        looked_back(BenchmarkWindow::OneDay, now) == now - 604_800,
        looked_back(BenchmarkWindow::SevenDays, now) == now - 604_800,
        SHOWN_CHANGES == 50,
{
}

/// The candidates that are shown are exactly those that were found, by profile name and then by node
/// name.
pub proof fn law_candidates_are_shown_in_order(nodes: Seq<DiscoveredView>, i: int, j: int)
    ensures
        shown_candidates(nodes).len() == nodes.len(),
        0 <= i < nodes.len() ==> shown_candidates(nodes).contains(nodes[i]) && nodes.contains(
            shown_candidates(nodes)[i],
        ),
        0 <= i < j < nodes.len() ==> {
            let left = shown_candidates(nodes)[i];
            let right = shown_candidates(nodes)[j];
            &&& text_order(left.profile_name, right.profile_name) <= 0
            &&& text_order(left.profile_name, right.profile_name) == 0 ==> text_order(
                left.node_name,
                right.node_name,
            ) <= 0
        },
{
    lemma_arranged(nodes, candidate_key());
    if 0 <= i < j < nodes.len() {
        let left = candidate_key()(shown_candidates(nodes)[i]);
        let right = candidate_key()(shown_candidates(nodes)[j]);
        assert(key_order(left, right) <= 0);
        reveal_with_fuel(key_order, 3);
        assert(left.drop_first()[0] == left[1]);
        assert(right.drop_first()[0] == right[1]);
    }
}

proof fn lemma_newest(changes: Seq<ChangeRecordView>, limit: int) -> (places: Seq<int>)
    ensures
        places.len() == newest_changes(changes, limit).len(),
        forall|k: int|
            0 <= k < places.len() ==> 0 <= #[trigger] places[k] < changes.len()
                && changes[places[k]].relevant && changes[places[k]].event == newest_changes(changes, limit)[k],
        forall|j: int, k: int| 0 <= j < k < places.len() ==> #[trigger] places[k] < #[trigger] places[j],
        changes.len() <= limit ==> forall|c: int|
            0 <= c < changes.len() && (#[trigger] changes[c]).relevant ==> newest_changes(
                changes,
                limit,
            ).contains(changes[c].event),
    decreases changes.len(),
{
    if changes.len() == 0 || limit <= 0 {
        Seq::empty()
    } else {
        let front = changes.drop_last();
        let last = changes.len() - 1;
        let all = newest_changes(changes, limit);
        if changes.last().relevant {
            let rest = lemma_newest(front, limit - 1);
            let places = seq![last] + rest;
            let inner = newest_changes(front, limit - 1);
            assert forall|k: int| 0 <= k < places.len() implies 0 <= #[trigger] places[k] < changes.len()
                && changes[places[k]].relevant && changes[places[k]].event == all[k] by {
                if k > 0 {
                    assert(places[k] == rest[k - 1]);
                    assert(all[k] == inner[k - 1]);
                }
            }
            assert forall|j: int, k: int| 0 <= j < k < places.len() implies #[trigger] places[k]
                < #[trigger] places[j] by {
                assert(places[k] == rest[k - 1]);
                if j > 0 {
                    assert(places[j] == rest[j - 1]);
                }
            }
            if changes.len() <= limit {
                assert forall|c: int| 0 <= c < changes.len() && (#[trigger] changes[c]).relevant
                    implies all.contains(changes[c].event) by {
                    if c == last {
                        assert(all[0] == changes[c].event);
                    } else {
                        assert(front[c] == changes[c]);
                        let k = choose|k: int| 0 <= k < inner.len() && inner[k] == front[c].event;
                        assert(all[k + 1] == changes[c].event);
                    }
                }
            }
            places
        } else {
            let places = lemma_newest(front, limit);
            if changes.len() <= limit {
                assert forall|c: int| 0 <= c < changes.len() && (#[trigger] changes[c]).relevant
                    implies all.contains(changes[c].event) by {
                    assert(front[c] == changes[c]);
                }
            }
            places
        }
    }
}

proof fn lemma_wanted(changes: Seq<ChangeView>, settings: SettingsView) -> (places: Seq<int>)
    ensures
        places.len() == wanted_changes(changes, settings).len(),
        forall|k: int|
            0 <= k < places.len() ==> 0 <= #[trigger] places[k] < changes.len() && changes[places[k]]
                == wanted_changes(changes, settings)[k] && kept(changes[places[k]], settings),
        forall|j: int, k: int| 0 <= j < k < places.len() ==> #[trigger] places[j] < #[trigger] places[k],
        forall|c: int|
            0 <= c < changes.len() && kept(#[trigger] changes[c], settings) ==> wanted_changes(
                changes,
                settings,
            ).contains(changes[c]),
    decreases changes.len(),
{
    if changes.len() == 0 {
        Seq::empty()
    } else {
        let front = changes.drop_last();
        let inner = lemma_wanted(front, settings);
        let before = wanted_changes(front, settings);
        let all = wanted_changes(changes, settings);
        let last = changes.len() - 1;
        assert forall|c: int| 0 <= c < changes.len() && kept(#[trigger] changes[c], settings)
            implies all.contains(changes[c]) by {
            if c < last {
                assert(front[c] == changes[c]);
                let k = choose|k: int| 0 <= k < before.len() && before[k] == front[c];
                assert(all[k] == changes[c]);
            } else {
                assert(all[all.len() - 1] == changes[c]);
            }
        }
        if kept(changes.last(), settings) {
            inner.push(last)
        } else {
            inner
        }
    }
}

/// Whether the keywords keep a change: it is about a profile, or about a node that they do not
/// exclude.
pub open spec fn kept(change: ChangeView, settings: SettingsView) -> bool {
    change.node_name is None || proposed_state(change.node_name->0, change.profile_name, settings)
        != ParticipationState::Excluded
}

/// The changes that are shown matter, are kept by the keywords, are no more than asked for, and come
/// newest first. Where the tables hold no more changes than are asked for, none that matters and is
/// kept is left out.
pub proof fn law_shown_changes_are_the_newest(store: StoreView, limit: usize, settings: SettingsView) -> (places: Seq<
    int,
>)
    ensures
        ({
            let shown = store.recent_changes(limit, settings);
            &&& shown.len() <= limit && places.len() == shown.len()
            &&& forall|k: int|
                0 <= k < shown.len() ==> {
                    let c = #[trigger] places[k];
                    &&& 0 <= c < store.changes.len()
                    &&& store.changes[c].relevant && store.changes[c].event == shown[k]
                    &&& kept(shown[k], settings)
                }
            &&& forall|j: int, k: int| 0 <= j < k < shown.len() ==> #[trigger] places[k] < #[trigger] places[j]
            &&& store.changes.len() <= limit ==> forall|c: int|
                0 <= c < store.changes.len() && (#[trigger] store.changes[c]).relevant && kept(
                    store.changes[c].event,
                    settings,
                ) ==> shown.contains(store.changes[c].event)
        }),
{
    let budget: int = if limit * 10 > usize::MAX {
        usize::MAX as int
    } else {
        limit * 10
    };
    let newest = newest_changes(store.changes, budget);
    let outer = lemma_newest(store.changes, budget);
    let inner = lemma_wanted(newest, settings);
    let shown = store.recent_changes(limit, settings);
    let wanted = wanted_changes(newest, settings);
    let places = Seq::new(shown.len(), |k: int| outer[inner[k]]);
    assert forall|k: int| 0 <= k < shown.len() implies {
        let c = #[trigger] places[k];
        &&& 0 <= c < store.changes.len()
        &&& store.changes[c].relevant && store.changes[c].event == shown[k]
        &&& kept(shown[k], settings)
    } by {
        assert(0 <= inner[k] < newest.len());
        assert(0 <= outer[inner[k]] < store.changes.len());
        assert(shown[k] == wanted[k]);
    }
    assert forall|j: int, k: int| 0 <= j < k < shown.len() implies #[trigger] places[k]
        < #[trigger] places[j] by {
        assert(inner[j] < inner[k]);
        assert(outer[inner[k]] < outer[inner[j]]);
    }
    if store.changes.len() <= limit {
        assert forall|c: int|
            0 <= c < store.changes.len() && (#[trigger] store.changes[c]).relevant && kept(
                store.changes[c].event,
                settings,
            ) implies shown.contains(store.changes[c].event) by {
            assert(newest.contains(store.changes[c].event));
            let n = choose|n: int| 0 <= n < newest.len() && newest[n] == store.changes[c].event;
            assert(kept(newest[n], settings));
            assert(wanted.contains(newest[n]));
            lemma_fewer(store.changes, budget, settings);
        }
    }
    places
}

proof fn lemma_fewer(changes: Seq<ChangeRecordView>, limit: int, settings: SettingsView)
    ensures
        newest_changes(changes, limit).len() <= changes.len(),
        wanted_changes(newest_changes(changes, limit), settings).len() <= changes.len(),
    decreases changes.len(),
{
    lemma_fewer_newest(changes, limit);
    lemma_fewer_wanted(newest_changes(changes, limit), settings);
}

proof fn lemma_fewer_newest(changes: Seq<ChangeRecordView>, limit: int)
    ensures
        newest_changes(changes, limit).len() <= changes.len(),
    decreases changes.len(),
{
    if changes.len() > 0 && limit > 0 {
        lemma_fewer_newest(changes.drop_last(), limit - 1);
        lemma_fewer_newest(changes.drop_last(), limit);
    }
}

proof fn lemma_fewer_wanted(changes: Seq<ChangeView>, settings: SettingsView)
    ensures
        wanted_changes(changes, settings).len() <= changes.len(),
    decreases changes.len(),
{
    if changes.len() > 0 {
        lemma_fewer_wanted(changes.drop_last(), settings);
    }
}

proof fn lemma_pair_ids(nodes: Seq<NodeRecordView>, pair: (Seq<char>, Seq<char>), node_id: Seq<char>)
    ensures
        pair_ids(nodes, pair).contains(node_id) <==> exists|i: int|
            0 <= i < nodes.len() && (#[trigger] nodes[i]).active && nodes[i].node.profile_uid == pair.0
                && nodes[i].node.profile_name == pair.1 && nodes[i].node.node_id == node_id,
    decreases nodes.len(),
{
    if nodes.len() > 0 {
        let front = nodes.drop_last();
        let last = nodes.last();
        let before = pair_ids(front, pair);
        let all = pair_ids(nodes, pair);
        lemma_pair_ids(front, pair, node_id);
        if before.contains(node_id) {
            let k = choose|k: int| 0 <= k < before.len() && before[k] == node_id;
            assert(all[k] == node_id);
            let i = choose|i: int|
                0 <= i < front.len() && (#[trigger] front[i]).active && front[i].node.profile_uid == pair.0
                    && front[i].node.profile_name == pair.1 && front[i].node.node_id == node_id;
            assert(nodes[i] == front[i]);
        } else if last.active && (last.node.profile_uid, last.node.profile_name) == pair && last.node.node_id
            == node_id {
            assert(all[all.len() - 1] == node_id);
            assert(nodes[nodes.len() - 1] == last);
        } else {
            if all.contains(node_id) {
                let k = choose|k: int| 0 <= k < all.len() && all[k] == node_id;
                if k < before.len() {
                    assert(before[k] == node_id);
                }
            }
            if exists|i: int|
                0 <= i < nodes.len() && (#[trigger] nodes[i]).active && nodes[i].node.profile_uid == pair.0
                    && nodes[i].node.profile_name == pair.1 && nodes[i].node.node_id == node_id {
                let i = choose|i: int|
                    0 <= i < nodes.len() && (#[trigger] nodes[i]).active && nodes[i].node.profile_uid
                        == pair.0 && nodes[i].node.profile_name == pair.1 && nodes[i].node.node_id == node_id;
                assert(front[i] == nodes[i]);
            }
        }
    }
}

proof fn lemma_profile_pairs(nodes: Seq<NodeRecordView>, pair: (Seq<char>, Seq<char>))
    ensures
        profile_pairs(nodes).contains(pair) <==> exists|i: int|
            0 <= i < nodes.len() && (#[trigger] nodes[i]).active && nodes[i].node.profile_uid == pair.0
                && nodes[i].node.profile_name == pair.1,
    decreases nodes.len(),
{
    if nodes.len() > 0 {
        let front = nodes.drop_last();
        let last = nodes.last();
        let before = profile_pairs(front);
        let all = profile_pairs(nodes);
        let own = (last.node.profile_uid, last.node.profile_name);
        lemma_profile_pairs(front, pair);
        if before.contains(pair) {
            let k = choose|k: int| 0 <= k < before.len() && before[k] == pair;
            assert(all[k] == pair);
            let i = choose|i: int|
                0 <= i < front.len() && (#[trigger] front[i]).active && front[i].node.profile_uid == pair.0
                    && front[i].node.profile_name == pair.1;
            assert(nodes[i] == front[i]);
        } else if last.active && own == pair {
            assert(all[all.len() - 1] == pair);
            assert(nodes[nodes.len() - 1] == last);
        } else {
            if all.contains(pair) {
                let k = choose|k: int| 0 <= k < all.len() && all[k] == pair;
                if k < before.len() {
                    assert(before[k] == pair);
                }
            }
            if exists|i: int|
                0 <= i < nodes.len() && (#[trigger] nodes[i]).active && nodes[i].node.profile_uid == pair.0
                    && nodes[i].node.profile_name == pair.1 {
                let i = choose|i: int|
                    0 <= i < nodes.len() && (#[trigger] nodes[i]).active && nodes[i].node.profile_uid
                        == pair.0 && nodes[i].node.profile_name == pair.1;
                assert(front[i] == nodes[i]);
            }
        }
    }
}

/// The traffic by profile has a row for each profile with an active node and for no other one. A
/// result adds the bytes that it moved to the row of its node's profile, where that node is active
/// and the result is not too old, and to no other row.
pub proof fn law_traffic_goes_to_the_profile_of_the_node(
    store: StoreView,
    record: RecordView,
    start_at: i64,
    rows: Seq<ProfileTraffic>,
    later_rows: Seq<ProfileTraffic>,
    k: int,
)
    requires
        store.traffic_by_profile(start_at) == Ok::<Seq<ProfileTraffic>, BenchmarkError>(rows),
        store.with_record(record).traffic_by_profile(start_at) == Ok::<Seq<ProfileTraffic>, BenchmarkError>(
            later_rows,
        ),
        record.bytes_down <= i64::MAX,
        record.bytes_up <= i64::MAX,
        0 <= k < rows.len(),
    ensures
        later_rows.len() == rows.len(),
        exists|i: int|
            0 <= i < store.nodes.len() && (#[trigger] store.nodes[i]).active && store.nodes[i].node.profile_uid
                == rows[k].0 && store.nodes[i].node.profile_name == rows[k].1,
        ({
            let own = record.created_at >= start_at && exists|i: int|
                0 <= i < store.nodes.len() && (#[trigger] store.nodes[i]).active
                    && store.nodes[i].node.profile_uid == rows[k].0 && store.nodes[i].node.profile_name
                    == rows[k].1 && store.nodes[i].node.node_id == record.node_id;
            later_rows[k] == if own {
                (rows[k].0, rows[k].1, rows[k].2 + record.bytes_down, rows[k].3 + record.bytes_up)
            } else {
                rows[k]
            }
        }),
{
    let pairs = profile_pairs(store.nodes);
    let ordered = store.ordered_pairs();
    lemma_arranged(pairs, pair_key());
    let pair = ordered[k];
    assert(pairs.contains(pair));
    lemma_profile_pairs(store.nodes, pair);
    lemma_pair_ids(store.nodes, pair, record.node_id);
    let after = store.with_record(record);
    assert(after.ordered_pairs() == ordered);
    let counted = counted_of(pair_ids(store.nodes, pair), start_at);
    let all = after.measurements;
    assert(all.drop_last() =~= store.measurements);
    assert(all.last() == stored_record(record));
    assert(rows[k] == (
        pair.0,
        pair.1,
        moved_bytes(store.measurements, counted, true),
        moved_bytes(store.measurements, counted, false),
    ));
    assert(later_rows[k] == (
        pair.0,
        pair.1,
        moved_bytes(all, counted, true),
        moved_bytes(all, counted, false),
    ));
}

/// Every profile with an active node has its row in the traffic by profile, and before the first
/// result every row is empty.
pub proof fn law_every_profile_has_its_traffic(
    store: StoreView,
    start_at: i64,
    rows: Seq<ProfileTraffic>,
    i: int,
)
    requires
        store.traffic_by_profile(start_at) == Ok::<Seq<ProfileTraffic>, BenchmarkError>(rows),
        0 <= i < store.nodes.len(),
        store.nodes[i].active,
    ensures
        exists|k: int|
            0 <= k < rows.len() && (#[trigger] rows[k]).0 == store.nodes[i].node.profile_uid && rows[k].1
                == store.nodes[i].node.profile_name && (store.measurements.len() == 0 ==> rows[k].2 == 0
                && rows[k].3 == 0),
{
    let pairs = profile_pairs(store.nodes);
    let ordered = store.ordered_pairs();
    let pair = (store.nodes[i].node.profile_uid, store.nodes[i].node.profile_name);
    lemma_arranged(pairs, pair_key());
    assert(store.nodes[i].active && store.nodes[i].node.profile_uid == pair.0);
    lemma_profile_pairs(store.nodes, pair);
    let p = choose|p: int| 0 <= p < pairs.len() && pairs[p] == pair;
    assert(ordered.contains(pairs[p]));
    let k = choose|k: int| 0 <= k < ordered.len() && ordered[k] == pair;
    assert(rows[k].0 == pair.0);
}

proof fn lemma_count_nodes(nodes: Seq<NodeRecordView>, uid: Seq<char>)
    ensures
        count_nodes(nodes, active_of_profile(uid)) == nodes.filter(
            |record: NodeRecordView| record.active && record.node.profile_uid == uid,
        ).len(),
    decreases nodes.len(),
{
    reveal(Seq::filter);
    if nodes.len() > 0 {
        lemma_count_nodes(nodes.drop_last(), uid);
    }
}

proof fn lemma_configured(profiles: Seq<(Seq<char>, Seq<char>)>, uid: Seq<char>)
    ensures
        configured_name(profiles, uid) is Some <==> exists|i: int|
            0 <= i < profiles.len() && (#[trigger] profiles[i]).0 == uid,
        configured_name(profiles, uid) matches Some(name) ==> exists|i: int|
            0 <= i < profiles.len() && (#[trigger] profiles[i]).0 == uid && profiles[i].1 == name,
    decreases profiles.len(),
{
    if profiles.len() > 0 {
        let front = profiles.drop_last();
        lemma_configured(front, uid);
        if profiles.last().0 == uid {
            assert(profiles[profiles.len() - 1].0 == uid);
        } else {
            if configured_name(front, uid) is Some {
                let name = configured_name(front, uid)->0;
                let i = choose|i: int|
                    0 <= i < front.len() && (#[trigger] front[i]).0 == uid && front[i].1 == name;
                assert(profiles[i] == front[i]);
            }
            if exists|i: int| 0 <= i < profiles.len() && (#[trigger] profiles[i]).0 == uid {
                let i = choose|i: int| 0 <= i < profiles.len() && (#[trigger] profiles[i]).0 == uid;
                assert(front[i] == profiles[i]);
            }
        }
    }
}

proof fn lemma_lost(selected: Seq<Seq<char>>, profiles: Seq<(Seq<char>, Seq<char>)>, uid: Seq<char>)
    ensures
        lost_profiles(selected, profiles).contains(uid) <==> selected.contains(uid) && configured_name(
            profiles,
            uid,
        ) is None,
    decreases selected.len(),
{
    if selected.len() > 0 {
        let front = selected.drop_last();
        let before = lost_profiles(front, profiles);
        let all = lost_profiles(selected, profiles);
        lemma_lost(front, profiles, uid);
        if front.contains(uid) {
            let k = choose|k: int| 0 <= k < front.len() && front[k] == uid;
            assert(selected[k] == uid);
        }
        if before.contains(uid) {
            let k = choose|k: int| 0 <= k < before.len() && before[k] == uid;
            assert(all[k] == uid);
        }
        if selected.last() == uid {
            assert(selected[selected.len() - 1] == uid);
            if configured_name(profiles, uid) is None {
                assert(all[all.len() - 1] == uid);
            }
        }
        if selected.contains(uid) && !front.contains(uid) {
            let k = choose|k: int| 0 <= k < selected.len() && selected[k] == uid;
            if k < front.len() {
                assert(front[k] == uid);
            }
        }
        if all.contains(uid) && !before.contains(uid) {
            let k = choose|k: int| 0 <= k < all.len() && all[k] == uid;
            if k < before.len() {
                assert(before[k] == uid);
            }
        }
    }
}

/// Whether a summary is right about a profile.
pub open spec fn sums_up(
    summary: SummaryView,
    store: StoreView,
    profiles: Seq<(Seq<char>, Seq<char>)>,
    settings: SettingsView,
) -> bool {
    let configured = exists|i: int| 0 <= i < profiles.len() && (#[trigger] profiles[i]).0 == summary.uid;
    let scan = profile_of(store.profiles, summary.uid);
    &&& summary.available == configured
    &&& summary.selected == settings.selected_profile_uids.contains(summary.uid)
    &&& summary.node_count == store.nodes.filter(
        |record: NodeRecordView| record.active && record.node.profile_uid == summary.uid,
    ).len()
    &&& configured ==> exists|i: int|
        0 <= i < profiles.len() && (#[trigger] profiles[i]).0 == summary.uid && profiles[i].1 == summary.name
    &&& !configured ==> summary.name == if scan is Some {
        scan->0.profile_name
    } else {
        summary.uid
    }
    &&& scan is Some ==> summary.scan_error == scan->0.scan_error && summary.last_scanned_at
        == scan->0.last_scanned_at
    &&& scan is None ==> summary.scan_error is None && summary.last_scanned_at is None
}

/// The profiles that are shown are those of the configuration and the selected ones that it lacks,
/// each with its own name, nodes and scan, the available ones first.
pub proof fn law_profiles_are_summed_up(
    store: StoreView,
    profiles: Seq<(Seq<char>, Seq<char>)>,
    settings: SettingsView,
    k: int,
)
    requires
        0 <= k < store.profile_summaries(profiles, settings).len(),
    ensures
        sums_up(store.profile_summaries(profiles, settings)[k], store, profiles, settings),
        k + 1 < store.profile_summaries(profiles, settings).len() ==> {
            let left = store.profile_summaries(profiles, settings)[k];
            let right = store.profile_summaries(profiles, settings)[k + 1];
            &&& right.available ==> left.available
            &&& left.available == right.available ==> text_order(left.name, right.name) <= 0
        },
        ({
            let uid = store.profile_summaries(profiles, settings)[k].uid;
            (exists|i: int| 0 <= i < profiles.len() && (#[trigger] profiles[i]).0 == uid)
                || settings.selected_profile_uids.contains(uid)
        }),
{
    let uids = store.shown_profiles(profiles, settings);
    let summaries = uids.map_values(|uid: Seq<char>| store.summary_of(uid, profiles, settings));
    let shown = store.profile_summaries(profiles, settings);
    lemma_arranged(summaries, summary_key());
    assert(summaries.contains(shown[k]));
    let at = choose|at: int| 0 <= at < summaries.len() && summaries[at] == shown[k];
    let uid = uids[at];
    assert(shown[k] == store.summary_of(uid, profiles, settings));
    lemma_configured(profiles, uid);
    lemma_count_nodes(store.nodes, uid);
    lemma_lost(settings.selected_profile_uids, profiles, uid);
    let lost = lost_profiles(settings.selected_profile_uids, profiles);
    if at < profiles.len() {
        assert(profiles[at].0 == uid);
    } else {
        assert(lost[at - profiles.len()] == uid);
        assert(lost.contains(uid));
    }
    if k + 1 < shown.len() {
        let left = summary_key()(shown[k]);
        let right = summary_key()(shown[k + 1]);
        assert(key_order(left, right) <= 0);
        reveal_with_fuel(key_order, 3);
        assert(left.drop_first()[0] == left[1]);
        assert(right.drop_first()[0] == right[1]);
    }
}

/// No profile of the configuration and no selected profile is left out.
pub proof fn law_no_profile_is_left_out(
    store: StoreView,
    profiles: Seq<(Seq<char>, Seq<char>)>,
    settings: SettingsView,
    uid: Seq<char>,
)
    requires
        (exists|i: int| 0 <= i < profiles.len() && (#[trigger] profiles[i]).0 == uid)
            || settings.selected_profile_uids.contains(uid),
    ensures
        exists|k: int|
            0 <= k < store.profile_summaries(profiles, settings).len() && (
            #[trigger] store.profile_summaries(profiles, settings)[k]).uid == uid,
{
    let uids = store.shown_profiles(profiles, settings);
    let summaries = uids.map_values(|uid: Seq<char>| store.summary_of(uid, profiles, settings));
    let shown = store.profile_summaries(profiles, settings);
    lemma_arranged(summaries, summary_key());
    lemma_configured(profiles, uid);
    lemma_lost(settings.selected_profile_uids, profiles, uid);
    let at = if exists|i: int| 0 <= i < profiles.len() && (#[trigger] profiles[i]).0 == uid {
        choose|i: int| 0 <= i < profiles.len() && (#[trigger] profiles[i]).0 == uid
    } else {
        let lost = lost_profiles(settings.selected_profile_uids, profiles);
        let i = choose|i: int| 0 <= i < lost.len() && lost[i] == uid;
        profiles.len() + i
    };
    assert(uids[at] == uid);
    assert(shown.contains(summaries[at]));
    let k = choose|k: int| 0 <= k < shown.len() && shown[k] == summaries[at];
    assert(shown[k].uid == uid);
}

/// The place of a fingerprint is that of the first one with the name.
pub proof fn lemma_print_place(prints: Seq<PrintView>, name: Seq<char>, p: int)
    requires
        0 <= p <= prints.len(),
        p < prints.len() ==> prints[p].name == name,
        forall|q: int| 0 <= q < p ==> (#[trigger] prints[q]).name != name,
    ensures
        print_at(prints, name) == p,
    decreases prints.len(),
{
    if p > 0 {
        assert(prints[0].name != name);
        let rest = prints.drop_first();
        assert forall|q: int| 0 <= q < p - 1 implies (#[trigger] rest[q]).name != name by {
            assert(prints[q + 1].name != name);
        }
        lemma_print_place(rest, name, p - 1);
    }
}

/// The first node of a list has the fingerprint and the type of its proxy; a node that is no proxy of
/// the configuration has its own type and a hash of the configuration, its name and its type. A
/// second node with the fingerprint of an earlier one gets a hash of its name behind it.
pub proof fn law_nodes_have_the_fingerprint_of_their_proxy(
    profile: PreparedView,
    first: (Seq<char>, Seq<char>),
    second: (Seq<char>, Seq<char>),
    p: int,
)
    requires
        !built_in(first.0, first.1),
        !built_in(second.0, second.1),
        0 <= p <= profile.direct_fingerprints.len(),
        p < profile.direct_fingerprints.len() ==> profile.direct_fingerprints[p].name == first.0,
        forall|q: int| 0 <= q < p ==> (#[trigger] profile.direct_fingerprints[q]).name != first.0,
    ensures
        ({
            let found = profile.found_nodes(seq![first, second]);
            let base = if p < profile.direct_fingerprints.len() {
                profile.direct_fingerprints[p].fingerprint
            } else {
                hash_text(encode_utf8(profile.source_hash + "\n"@ + first.0 + "\n"@ + first.1))
            };
            &&& found.len() == 2
            &&& found[0].fingerprint == base
            &&& found[0].node_type == if p < profile.direct_fingerprints.len() {
                profile.direct_fingerprints[p].node_type
            } else {
                first.1
            }
            &&& found[0].node_name == first.0 && found[1].node_name == second.0
            &&& second.0 == first.0 && second.1 == first.1 ==> found[1].fingerprint == base + "-"@ + hash_text(
                encode_utf8(second.0),
            )
        }),
{
    lemma_print_place(profile.direct_fingerprints, first.0, p);
    let nodes = seq![first, second];
    let one = seq![first];
    assert(nodes.drop_last() =~= one);
    assert(one.drop_last() =~= Seq::empty());
    lemma_built_in(first.0, first.1);
    lemma_built_in(second.0, second.1);
    assert(!special(first.0, first.1) && !special(second.0, second.1));
    assert(profile.found_nodes(Seq::empty()).len() == 0);
    let none = Seq::<(Seq<char>, Seq<char>)>::empty();
    assert(one.drop_last() == none);
    assert(!profile.base_taken(none, profile.base_print(first)));
    let earlier = profile.found_nodes(one);
    assert(earlier =~= seq![profile.found_node(none, first)]);
    let found = profile.found_nodes(nodes);
    assert(found == earlier.push(profile.found_node(one, second)));
    if second == first {
        assert(one[0] == first);
        assert(profile.base_taken(one, profile.base_print(second)));
    }
}

} // verus!
