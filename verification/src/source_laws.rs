//! What holds of the sources of nodes: of the files of providers, of scans and of what is asked of the
//! tables.

use crate::config::{
    ConfigView, bare, entry, entry_at, json_of, lemma_entry_at, parsed_config, table_entry, text_entry,
    with_bare, with_entry,
};
use crate::cycle::{CycleView, first_phase, unstarted};
use crate::delay::{DelayPlan, DelayRefusal, opens_tunnel, planned_delay};
use crate::errors::{BenchmarkError, UrlField};
use crate::manager::{SnapshotData, is_data_of};
use crate::models::{BenchmarkWindow, NodeUpdateRequest, NodeView, ParticipationState, RecordView};
use crate::profile::{
    PreparedView, PrintView, config_prints, hash_text, lemma_with_entry, path_count, paths_of, prepared,
    print_at, print_of, provider_path, provider_prints, relocated, relocated_config, relocated_first,
    with_path, with_print, with_prints,
};
use crate::query_laws::law_results_are_read_exactly;
use crate::scan::ScanView;
use crate::settings::{SettingsView, UrlRefusal, UrlView, refuses};
use crate::status::{ScheduledWorker, TaskView};
use crate::store::{
    StoreView, knows_node, measurement_records, node_views, profile_of, reminder_change,
};
use crate::store_laws::{law_lost_profiles_retire_their_nodes, law_scans_are_noted};
use crate::tables::{GrownTable, lacking, later_columns};
use crate::view_laws::lemma_print_place;
use crate::visit::{VisitStage, VisitStep, shown_at, step_at};
use vstd::prelude::*;

verus! {

proof fn lemma_inside(view: ConfigView, inside: ConfigView)
    requires
        !(inside is Tagged),
    ensures
        bare(with_bare(view, inside)) == inside,
    decreases view,
{
    match view {
        ConfigView::Tagged(tag, inner) => {
            lemma_inside(*inner, inside);
        },
        _ => {},
    }
}

proof fn lemma_path_count_is_filter(providers: Seq<(ConfigView, ConfigView)>)
    ensures
        path_count(providers) == providers.filter(
            |provider: (ConfigView, ConfigView)| provider_path(provider.1) is Some,
        ).len(),
    decreases providers.len(),
{
    reveal(Seq::filter);
    if providers.len() > 0 {
        lemma_path_count_is_filter(providers.drop_last());
    }
}

/// The paths of providers are those of the providers that have one, in their order. The path of a
/// provider is the text that it has under that key.
pub proof fn law_provider_paths_are_listed(
    providers: Seq<(ConfigView, ConfigView)>,
    provider: ConfigView,
    inner: Seq<(ConfigView, ConfigView)>,
)
    ensures
        paths_of(providers) == providers.filter(
            |provider: (ConfigView, ConfigView)| provider_path(provider.1) is Some,
        ).map_values(|provider: (ConfigView, ConfigView)| provider_path(provider.1)->0),
        bare(provider) == ConfigView::Table(inner) ==> provider_path(provider) == text_entry(inner, "path"@),
        !(bare(provider) is Table) ==> provider_path(provider) is None,
    decreases providers.len(),
{
    reveal(Seq::filter);
    let has = |provider: (ConfigView, ConfigView)| provider_path(provider.1) is Some;
    let path = |provider: (ConfigView, ConfigView)| provider_path(provider.1)->0;
    if providers.len() == 0 {
        assert(paths_of(providers) =~= providers.filter(has).map_values(path));
    } else {
        let front = providers.drop_last();
        law_provider_paths_are_listed(front, provider, inner);
        if has(providers.last()) {
            assert(front.filter(has).push(providers.last()).map_values(path) =~= front.filter(has).map_values(
                path,
            ).push(path(providers.last())));
        }
    }
}

/// Moving the files of providers changes nothing of a configuration but the paths: a provider with a
/// path gets the replacement that stands for it in the list, if there is one, and keeps everything
/// else; every other provider stays as it is.
pub proof fn law_moving_files_changes_paths_only(
    config: Seq<(ConfigView, ConfigView)>,
    providers: Seq<(ConfigView, ConfigView)>,
    replacements: Seq<Option<String>>,
    i: int,
    key: Seq<char>,
)
    requires
        table_entry(config, "proxy-providers"@) == Some(providers),
        0 <= i < providers.len(),
    ensures
        ({
            let after = relocated_config(config, replacements);
            let moved = table_entry(after, "proxy-providers"@)->0;
            let turn = providers.take(i).filter(
                |provider: (ConfigView, ConfigView)| provider_path(provider.1) is Some,
            ).len() as int;
            &&& after.len() == config.len()
            &&& key != "proxy-providers"@ ==> entry(after, key) == entry(config, key)
            &&& table_entry(after, "proxy-providers"@) is Some && moved.len() == providers.len()
            &&& moved[i].0 == providers[i].0
            &&& provider_path(providers[i].1) is None ==> moved[i] == providers[i]
            &&& provider_path(providers[i].1) is Some && replacements[turn] is None ==> moved[i] == providers[i]
            &&& provider_path(providers[i].1) is Some && replacements[turn] is Some ==> {
                &&& provider_path(moved[i].1) == Some(replacements[turn]->0@)
                &&& key != "path"@ ==> entry(bare(moved[i].1)->Table_0, key) == entry(
                    bare(providers[i].1)->Table_0,
                    key,
                )
            }
        }),
{
    let after = relocated_config(config, replacements);
    let list = relocated_first(providers, replacements, providers.len() as int);
    let at = entry_at(config, "proxy-providers"@);
    lemma_entry_at(config, "proxy-providers"@);
    lemma_inside(config[at].1, ConfigView::Table(list));
    lemma_entry_at(after, "proxy-providers"@);
    let found = entry_at(after, "proxy-providers"@);
    assert(after[at].0 == ConfigView::Text("proxy-providers"@));
    if found < at {
        assert(after[found] == config[found]);
    }
    assert(found == at);
    assert(table_entry(after, "proxy-providers"@) == Some(list));
    if key != "proxy-providers"@ {
        lemma_entry_at(config, key);
        lemma_entry_at(after, key);
        let before_at = entry_at(config, key);
        let after_at = entry_at(after, key);
        assert(forall|k: int| 0 <= k < config.len() ==> (#[trigger] after[k]).0 == config[k].0);
        if before_at < after_at {
            assert(after[before_at].0 == ConfigView::Text(key));
        }
        if after_at < before_at {
            assert(config[after_at].0 == ConfigView::Text(key));
        }
        if after_at < after.len() {
            assert(after_at != at);
        }
    }
    lemma_path_count_is_filter(providers.take(i));
    let provider = providers[i].1;
    let turn = path_count(providers.take(i));
    assert(list[i].1 == relocated(providers, i, replacements));
    if provider_path(provider) is Some && replacements[turn] is Some {
        let path = replacements[turn]->0@;
        let inner = bare(provider)->Table_0;
        let changed = with_entry(inner, "path"@, ConfigView::Text(path));
        lemma_with_entry(inner, "path"@, ConfigView::Text(path), key);
        lemma_inside(provider, ConfigView::Table(changed));
        assert(with_path(provider, path) == with_bare(provider, ConfigView::Table(changed)));
        assert(bare(list[i].1) == ConfigView::Table(changed));
        assert(entry(changed, "path"@) == Some(ConfigView::Text(path)));
        assert(bare(ConfigView::Text(path)) == ConfigView::Text(path));
    }
}

/// A configuration without providers stays as it is.
pub proof fn law_without_providers_nothing_moves(config: Seq<(ConfigView, ConfigView)>, replacements: Seq<Option<String>>)
    requires
        table_entry(config, "proxy-providers"@) is None,
    ensures
        relocated_config(config, replacements) == config,
{
}

proof fn lemma_print_at(prints: Seq<PrintView>, name: Seq<char>)
    ensures
        0 <= print_at(prints, name) <= prints.len(),
        print_at(prints, name) < prints.len() ==> prints[print_at(prints, name)].name == name,
        forall|q: int| 0 <= q < print_at(prints, name) ==> (#[trigger] prints[q]).name != name,
    decreases prints.len(),
{
    if prints.len() > 0 && prints[0].name != name {
        let rest = prints.drop_first();
        lemma_print_at(rest, name);
        assert forall|q: int| 0 <= q < print_at(prints, name) implies (#[trigger] prints[q]).name != name by {
            if q > 0 {
                assert(rest[q - 1] == prints[q]);
            }
        }
    }
}

proof fn lemma_with_print(prints: Seq<PrintView>, print: PrintView, name: Seq<char>)
    ensures
        print_of(with_print(prints, print), name) == if print.name == name {
            Some(print)
        } else {
            print_of(prints, name)
        },
{
    let after = with_print(prints, print);
    let at = print_at(prints, print.name);
    lemma_print_at(prints, print.name);
    lemma_print_at(prints, name);
    if print.name == name {
        assert forall|q: int| 0 <= q < at implies (#[trigger] after[q]).name != name by {
            assert(prints[q].name != name);
        }
        lemma_print_place(after, name, at);
    } else {
        let own = print_at(prints, name);
        if own < prints.len() {
            assert(own != at);
            assert(after[own] == prints[own]);
            assert forall|q: int| 0 <= q < own implies (#[trigger] after[q]).name != name by {
                assert(prints[q].name != name);
            }
            lemma_print_place(after, name, own);
        } else {
            assert forall|q: int| 0 <= q < after.len() implies (#[trigger] after[q]).name != name by {
                if q < prints.len() {
                    assert(prints[q].name != name);
                }
            }
            lemma_print_place(after, name, after.len() as int);
        }
    }
}

/// Where fingerprints are put together, the last one that is added under a name is the one that is
/// found under it; under every other name the former one is found.
pub proof fn law_added_prints_prevail(prints: Seq<PrintView>, more: Seq<PrintView>, name: Seq<char>, k: int)
    ensures
        0 <= k < more.len() && more[k].name == name && (forall|q: int|
            k < q < more.len() ==> (#[trigger] more[q]).name != name) ==> print_of(with_prints(prints, more), name)
            == Some(more[k]),
        (forall|q: int| 0 <= q < more.len() ==> (#[trigger] more[q]).name != name) ==> print_of(
            with_prints(prints, more),
            name,
        ) == print_of(prints, name),
    decreases more.len(),
{
    if more.len() > 0 {
        let front = more.drop_last();
        let before = with_prints(prints, front);
        lemma_with_print(before, more.last(), name);
        law_added_prints_prevail(prints, front, name, k);
        if 0 <= k < more.len() && more[k].name == name && (forall|q: int|
            k < q < more.len() ==> (#[trigger] more[q]).name != name) {
            if k < front.len() {
                assert(more[more.len() - 1].name != name);
                assert forall|q: int| k < q < front.len() implies (#[trigger] front[q]).name != name by {
                    assert(more[q].name != name);
                }
                assert(front[k] == more[k]);
            }
        }
        if forall|q: int| 0 <= q < more.len() ==> (#[trigger] more[q]).name != name {
            assert(more[more.len() - 1].name != name);
            assert forall|q: int| 0 <= q < front.len() implies (#[trigger] front[q]).name != name by {
                assert(more[q].name != name);
            }
        }
    }
}

/// The proxies of a provider's file are known by their fingerprints, and prevail over those of earlier
/// files. A file that is no configuration, or whose proxies cannot be hashed, changes nothing.
pub proof fn law_provider_files_add_their_proxies(
    sources: Seq<Seq<char>>,
    source: Seq<char>,
    config: Seq<(ConfigView, ConfigView)>,
    name: Seq<char>,
    k: int,
)
    ensures
        ({
            let before = provider_prints(sources);
            let after = provider_prints(sources.push(source));
            let view = parsed_config(source);
            let prints = config_prints(config);
            &&& view is None ==> after == before
            &&& view is Some && !(bare(view->0) is Table) ==> after == before
            &&& view is Some && bare(view->0) == ConfigView::Table(config) && prints is Err ==> after == before
            &&& view is Some && bare(view->0) == ConfigView::Table(config) && prints is Ok && 0 <= k
                < prints->Ok_0.len() && prints->Ok_0[k].name == name && (forall|q: int|
                k < q < prints->Ok_0.len() ==> (#[trigger] prints->Ok_0[q]).name != name) ==> print_of(after, name)
                == Some(prints->Ok_0[k])
            &&& view is Some && bare(view->0) == ConfigView::Table(config) && prints is Ok && (forall|q: int|
                0 <= q < prints->Ok_0.len() ==> (#[trigger] prints->Ok_0[q]).name != name) ==> print_of(after, name)
                == print_of(before, name)
        }),
{
    let all = sources.push(source);
    assert(all.drop_last() =~= sources);
    let before = provider_prints(sources);
    if config_prints(config) is Ok {
        law_added_prints_prevail(before, config_prints(config)->Ok_0, name, k);
    }
}

/// A prepared profile has the hash of its configuration. A name that no file of a provider knows has
/// the fingerprint of the configuration's own proxy.
pub proof fn law_prepared_profiles_know_their_proxies(
    profile: PreparedView,
    profile_uid: Seq<char>,
    profile_name: Seq<char>,
    config: Seq<(ConfigView, ConfigView)>,
    sources: Seq<Seq<char>>,
    name: Seq<char>,
    k: int,
)
    requires
        prepared(profile, profile_uid, profile_name, config, sources),
    ensures
        profile.profile_uid == profile_uid && profile.profile_name == profile_name && profile.config == config,
        json_of(config) is Ok && profile.source_hash == hash_text(json_of(config)->Ok_0),
        config_prints(config) is Ok,
        ({
            let files = provider_prints(sources);
            &&& (forall|q: int| 0 <= q < files.len() ==> (#[trigger] files[q]).name != name) ==> print_of(
                profile.direct_fingerprints,
                name,
            ) == print_of(config_prints(config)->Ok_0, name)
            &&& 0 <= k < files.len() && files[k].name == name && (forall|q: int|
                k < q < files.len() ==> (#[trigger] files[q]).name != name) ==> print_of(
                profile.direct_fingerprints,
                name,
            ) == Some(files[k])
        }),
{
    law_added_prints_prevail(config_prints(config)->Ok_0, provider_prints(sources), name, k);
}

/// A wish to change a node changes that node alone: the state as a decision does, then the reminder as
/// an answer does. What is not asked for stays, and an empty wish changes nothing.
pub proof fn law_wishes_change_what_they_name(store: StoreView, request: NodeUpdateRequest, now: i64, i: int)
    requires
        0 <= i < store.nodes.len(),
    ensures
        ({
            let after = store.after_update(request, now);
            let own = store.nodes[i].node.node_id == request.node_id@;
            &&& after.nodes.len() == store.nodes.len()
            &&& after.measurements == store.measurements && after.settings == store.settings && after.profiles
                == store.profiles
            &&& !own ==> after.nodes[i] == store.nodes[i]
            &&& request.state is None && request.reminder_action is None ==> after == store
            &&& request.state is None ==> after.changes == store.changes
            &&& request.state is Some && request.reminder_action is None ==> after == store.after_decision(
                request.node_id@,
                request.state->0,
                now,
            )
            &&& own && request.reminder_action is Some ==> {
                let decided = if request.state is Some {
                    store.after_decision(request.node_id@, request.state->0, now).nodes[i]
                } else {
                    store.nodes[i]
                };
                after.nodes[i] == reminder_change(request.reminder_action->0, now as int).on(decided)
            }
        }),
{
}

/// A scan that finds a profile notes its hash and merges its nodes, one that fails keeps the nodes and
/// notes the error, and one that does not find the profile retires its nodes. No scan changes results
/// or settings.
pub proof fn law_scan_outcomes_are_noted(
    store: StoreView,
    profile_uid: Seq<char>,
    outcome: ScanView,
    settings: SettingsView,
    now: i64,
    i: int,
)
    requires
        0 <= i < store.nodes.len(),
    ensures
        ({
            let after = store.after_outcome(profile_uid, outcome, settings, now);
            let profile = profile_of(after.profiles, profile_uid);
            match outcome {
                ScanView::Missing => {
                    &&& after.measurements == store.measurements
                    &&& store.nodes[i].active && store.nodes[i].node.profile_uid == profile_uid
                        ==> !after.nodes[i].active && after.nodes[i].node.state == ParticipationState::Removed
                    &&& store.nodes[i].node.profile_uid != profile_uid ==> after.nodes[i] == store.nodes[i]
                },
                ScanView::Failed { profile_name, error } => {
                    &&& after.nodes == store.nodes && after.measurements == store.measurements
                    &&& profile is Some && profile->0.scan_error == Some(error) && profile->0.profile_name
                        == profile_name && profile->0.last_scanned_at == Some(now)
                    &&& profile_of(store.profiles, profile_uid) is Some ==> profile->0.source_hash
                        == profile_of(store.profiles, profile_uid)->0.source_hash
                },
                ScanView::Found(discovery) => {
                    let merge = store.merge_of(profile_uid, discovery.profile_name, settings, now);
                    &&& profile is Some && profile->0.scan_error is None && profile->0.profile_name
                        == discovery.profile_name && profile->0.last_scanned_at == Some(now)
                        && profile->0.source_hash == Some(discovery.source_hash)
                    &&& after.nodes == store.reconciled(merge, discovery.nodes).nodes
                    &&& after.measurements == store.reconciled(merge, discovery.nodes).measurements
                },
            }
        }),
{
    match outcome {
        ScanView::Missing => {
            law_lost_profiles_retire_their_nodes(store, profile_uid, profile_uid, now, i);
        },
        ScanView::Failed { profile_name, error } => {
            law_scans_are_noted(store, profile_uid, profile_name, None, now, Some(error), profile_uid);
        },
        ScanView::Found(discovery) => {
            let merge = store.merge_of(profile_uid, discovery.profile_name, settings, now);
            law_scans_are_noted(
                store.reconciled(merge, discovery.nodes),
                profile_uid,
                discovery.profile_name,
                Some(discovery.source_hash),
                now,
                None,
                profile_uid,
            );
        },
    }
}

/// A node whose due tests could not be started is passed and counted; only a node that is due and that
/// the tables do not know stops the round, and then nothing changes.
pub proof fn law_unstarted_nodes_are_passed(
    cycle: CycleView,
    tables: StoreView,
    cycle_after: CycleView,
    tables_after: StoreView,
    reason: Seq<char>,
    failure: Option<BenchmarkError>,
)
    requires
        unstarted(cycle, tables, cycle_after, tables_after, reason, failure),
    ensures
        ({
            let node = cycle.groups[cycle.group].nodes[cycle.node];
            let due = node.next_download_at <= cycle.now || node.next_upload_at <= cycle.now;
            let known = exists|i: int| 0 <= i < tables.nodes.len() && (#[trigger] tables.nodes[i]).node.node_id
                == node.node_id;
            &&& failure is Some <==> due && !known
            &&& failure is Some ==> failure == Some(BenchmarkError::ForeignNode) && cycle_after == cycle
                && tables_after == tables
            &&& failure is None ==> cycle_after.completed == cycle.completed + 1 && cycle_after.node == cycle.node
                + 1 && tables_after == tables.after_false_starts(node, cycle.now, reason)
            &&& first_phase(ScheduledWorker::Latency) == "preparing"@ && first_phase(ScheduledWorker::Speed)
                == "checkingNetwork"@
        }),
{
    let node = cycle.groups[cycle.group].nodes[cycle.node];
    assert(knows_node(tables.nodes, node.node_id) == exists|i: int|
        0 <= i < tables.nodes.len() && (#[trigger] tables.nodes[i]).node.node_id == node.node_id);
}

/// While a visit waits, rests or measures the latency, the status names its profile and its node; the
/// speed tests themselves leave the status as it is.
pub proof fn law_visits_are_shown(
    status: TaskView,
    stage: VisitStage,
    worker: ScheduledWorker,
    node: NodeView,
    completed: usize,
    total: usize,
)
    ensures
        ({
            let shown = shown_at(status, stage, worker, node, completed, total);
            let step = step_at(stage);
            &&& step == VisitStep::AwaitTurn || step == VisitStep::Rest || step == VisitStep::TestLatency ==> {
                &&& shown.running && shown.profile_name == Some(node.profile_name) && shown.node_name == Some(
                    node.node_name,
                )
                &&& shown.completed == completed && shown.total == total
            }
            &&& step == VisitStep::AwaitTurn ==> shown.phase == Some("waitingForOtherQueue"@)
            &&& step == VisitStep::Rest ==> shown.phase == Some("cooldown"@)
            &&& step == VisitStep::TestLatency ==> shown.phase == Some("latency"@)
            &&& step == VisitStep::TestDownload || step == VisitStep::TestUpload || step == VisitStep::Leave
                ==> shown == status
        }),
{
}

/// A delay test is planned exactly where its address can be read and names a host; otherwise the
/// refusal says which of both is missing.
pub proof fn law_delays_need_a_host(
    result: Result<DelayPlan, DelayRefusal>,
    url: Seq<char>,
    reply: Result<UrlView, Seq<char>>,
    proxy_port: Option<u16>,
)
    requires
        planned_delay(result, url, reply, proxy_port),
    ensures
        result is Ok <==> reply is Ok && reply->Ok_0.1 is Some,
        result is Ok ==> result->Ok_0@.host == reply->Ok_0.1->0 && result->Ok_0@.https == (reply->Ok_0.0
            == "https"@),
        reply is Err ==> result is Err && result->Err_0 is Unparsable && result->Err_0->Unparsable_reason@
            == reply->Err_0,
        reply is Ok && reply->Ok_0.1 is None ==> result is Err && result->Err_0 is NoHost,
{
}

/// A tunnel is open exactly where the code 200 stands somewhere in the reply, digit by digit.
pub proof fn law_tunnels_open_with_the_code(before: Seq<u8>, after: Seq<u8>, reply: Seq<u8>)
    ensures
        opens_tunnel(before + seq!['2' as u8, '0' as u8, '0' as u8] + after),
        opens_tunnel(reply) ==> exists|i: int|
            0 <= i <= reply.len() - 3 && #[trigger] reply.subrange(i, i + 3) == seq!['2' as u8, '0' as u8, '0' as u8],
{
    let whole = before + seq!['2' as u8, '0' as u8, '0' as u8] + after;
    let n = before.len() as int;
    assert(whole[n] == 50 && whole[n + 1] == 48 && whole[n + 2] == 48);
    if opens_tunnel(reply) {
        let i = choose|i: int|
            0 <= i && i + 2 < reply.len() && #[trigger] reply[i] == 50 && reply[i + 1] == 48 && reply[i + 2] == 48;
        assert(reply.subrange(i, i + 3) =~= seq!['2' as u8, '0' as u8, '0' as u8]);
    }
}

/// A look at the ranking rests on the active nodes of the selected profiles and on exactly those of
/// their results that are not older than seven days; the long-term one rests on all since the
/// beginning of time.
pub proof fn law_looks_rest_on_recent_results(
    data: SnapshotData,
    store: StoreView,
    window: BenchmarkWindow,
    now: i64,
    record: RecordView,
)
    requires
        is_data_of(data, store, window, now),
        now - 604_800 >= i64::MIN,
    ensures
        data.window == window && data.now == now && data.settings@ == store.current_settings(),
        node_views(data.nodes@) == store.selected_active(),
        ({
            let from: int = if window == BenchmarkWindow::LongTerm {
                0
            } else {
                now - 604_800
            };
            measurement_records(data.measurements@).contains(record) <==> {
                &&& store.measurements.contains(record) && record.created_at >= from
                &&& exists|k: int|
                    0 <= k < store.selected_active().len() && (#[trigger] store.selected_active()[k]).node_id
                        == record.node_id
            }
        }),
{
    let nodes = store.selected_active();
    let ids = nodes.map_values(|node: NodeView| node.node_id);
    let from: int = if window == BenchmarkWindow::LongTerm {
        0
    } else {
        now - 604_800
    };
    law_results_are_read_exactly(store, ids, from as i64, record, 0, 0);
    if ids.contains(record.node_id) {
        let k = choose|k: int| 0 <= k < ids.len() && ids[k] == record.node_id;
        assert(nodes[k].node_id == record.node_id);
    }
    if exists|k: int| 0 <= k < nodes.len() && (#[trigger] nodes[k]).node_id == record.node_id {
        let k = choose|k: int| 0 <= k < nodes.len() && (#[trigger] nodes[k]).node_id == record.node_id;
        assert(ids[k] == record.node_id);
    }
}

/// The columns that are added to a table are those that it lacks, in their order.
pub proof fn law_lacking_columns_are_added(wanted: Seq<Seq<char>>, present: Seq<Seq<char>>)
    ensures
        lacking(wanted, present) == wanted.filter(|column: Seq<char>| !present.contains(column)),
        later_columns(GrownTable::Measurements) == seq!["rank_eligible"@],
        later_columns(GrownTable::Changes) == seq!["relevant"@],
        later_columns(GrownTable::Nodes).len() == 4,
        later_columns(GrownTable::Nodes).contains("next_download_at"@),
        later_columns(GrownTable::Nodes).contains("next_upload_at"@),
        later_columns(GrownTable::Nodes).contains("download_bootstrap_stage"@),
        later_columns(GrownTable::Nodes).contains("upload_bootstrap_stage"@),
    decreases wanted.len(),
{
    reveal(Seq::filter);
    if wanted.len() > 0 {
        law_lacking_columns_are_added(wanted.drop_last(), present);
    }
    let nodes = later_columns(GrownTable::Nodes);
    assert(nodes[0] == "download_bootstrap_stage"@);
    assert(nodes[1] == "upload_bootstrap_stage"@);
    assert(nodes[2] == "next_download_at"@);
    assert(nodes[3] == "next_upload_at"@);
}

/// A refused address is reported with the field that it stands in, as one that cannot be read or one
/// of another scheme.
pub proof fn law_refusals_name_the_field(error: BenchmarkError, field: UrlField, refusal: UrlRefusal)
    requires
        refuses(error, field, refusal),
    ensures
        match refusal {
            UrlRefusal::Invalid { reason } => error is InvalidUrl && error->InvalidUrl_field == field
                && error->InvalidUrl_reason@ == reason,
            UrlRefusal::Scheme => error is UnsupportedScheme && error->UnsupportedScheme_field == field,
        },
{
}

} // verus!
