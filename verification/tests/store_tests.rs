use node_benchmark::errors::BenchmarkError;
use node_benchmark::floats::FloatBits;
use node_benchmark::keywords::default_state_for_name;
use node_benchmark::models::{
    BenchmarkChangeEvent, DiscoveredNode, MeasurementKind, MeasurementRecord, ParticipationState, ReminderAction,
};
use node_benchmark::settings::BenchmarkSettings;
use node_benchmark::store::{BenchmarkStore, ProfileRecord, MISSING_PROFILE_ERROR};
use node_benchmark::tables::{missing_columns, ChangeRow, GrownTable, MeasurementRow, NodeRow, StoredTables};

fn empty_tables() -> StoredTables {
    StoredTables {
        settings: None,
        profiles: Vec::new(),
        nodes: Vec::new(),
        measurements: Vec::new(),
        changes: Vec::new(),
        last_change_id: 0,
    }
}

fn open_empty() -> BenchmarkStore {
    BenchmarkStore::open(empty_tables()).expect("测试数据库应可创建")
}

fn discovered(node_id: &str, node_name: &str) -> DiscoveredNode {
    DiscoveredNode {
        node_id: node_id.to_owned(),
        profile_uid: "profile-a".to_owned(),
        profile_name: "订阅A".to_owned(),
        node_name: node_name.to_owned(),
        node_type: "VLESS".to_owned(),
        fingerprint: format!("fingerprint-{node_id}"),
    }
}

fn selected() -> BenchmarkSettings {
    BenchmarkSettings {
        selected_profile_uids: vec!["profile-a".to_owned()],
        ..BenchmarkSettings::default()
    }
}

fn ids(list: &[&str]) -> Vec<String> {
    list.iter().map(|id| (*id).to_owned()).collect()
}

fn record(node_id: &str, kind: MeasurementKind, created_at: i64) -> MeasurementRecord {
    MeasurementRecord {
        node_id: node_id.to_owned(),
        kind,
        success: true,
        value: Some(FloatBits { bits: 50.0f64.to_bits() }),
        bytes_down: 100,
        bytes_up: 10,
        duration_ms: 5,
        trigger: "scheduled".to_owned(),
        rank_eligible: true,
        error: None,
        created_at,
    }
}

/// Two nodes of one profile that the user confirmed as participants at second 100.
fn confirmed_pair() -> BenchmarkStore {
    let mut store = open_empty();
    store.reconcile_nodes(
        "profile-a",
        "订阅A",
        &[discovered("a", "香港 01"), discovered("b", "香港 02")],
        &selected(),
        100,
    );
    store
        .confirm_participating_nodes(&ids(&["profile-a"]), &ids(&["a", "b"]), 100)
        .expect("both nodes can be confirmed");
    store
}

#[test]
fn keyword_filter_prefers_exclusion_and_ignores_case_by_default() {
    let settings = BenchmarkSettings {
        include_keywords: "香港|日本".to_owned(),
        exclude_keywords: "倍率".to_owned(),
        ..BenchmarkSettings::default()
    };

    assert_eq!(
        default_state_for_name("香港 01", "机场A", &settings),
        ParticipationState::Participating
    );
    assert_eq!(
        default_state_for_name("香港 2倍率", "机场A", &settings),
        ParticipationState::Excluded
    );
    assert_eq!(
        default_state_for_name("Singapore", "机场A", &settings),
        ParticipationState::Excluded
    );
}

#[test]
fn new_matching_node_waits_for_confirmation_before_it_can_be_due() {
    let mut store = open_empty();
    let settings = BenchmarkSettings {
        selected_profile_uids: vec!["profile-a".to_owned()],
        include_keywords: "香港".to_owned(),
        ..BenchmarkSettings::default()
    };
    let node = DiscoveredNode {
        node_id: "node-a".to_owned(),
        profile_uid: "profile-a".to_owned(),
        profile_name: "订阅A".to_owned(),
        node_name: "香港 01".to_owned(),
        node_type: "VLESS".to_owned(),
        fingerprint: "fingerprint-a".to_owned(),
    };

    store.reconcile_nodes("profile-a", "订阅A", &[node], &settings, 100);
    let stored = store.active_nodes();
    assert_eq!(stored[0].state, ParticipationState::Changed);
    assert!(!stored[0].manual_override);
    assert!(!store.node_selection_confirmed(&settings.selected_profile_uids));
    assert!(store.due_latency_nodes(100).is_empty());
    assert!(store.due_speed_nodes(100).is_empty());

    store
        .confirm_participating_nodes(&settings.selected_profile_uids, &["node-a".to_owned()], 100)
        .expect("人工确认应成功");
    assert!(store.node_selection_confirmed(&settings.selected_profile_uids));
    assert_eq!(store.due_latency_nodes(100).len(), 1);
    assert_eq!(store.due_speed_nodes(100).len(), 1);
}

#[test]
fn clearing_measurements_starts_a_fresh_benchmark_cycle() {
    let mut store = open_empty();
    let settings = BenchmarkSettings {
        selected_profile_uids: vec!["profile-a".to_owned()],
        ..BenchmarkSettings::default()
    };
    let node = DiscoveredNode {
        node_id: "node-a".to_owned(),
        profile_uid: "profile-a".to_owned(),
        profile_name: "订阅A".to_owned(),
        node_name: "香港 01".to_owned(),
        node_type: "VLESS".to_owned(),
        fingerprint: "fingerprint-a".to_owned(),
    };
    store.reconcile_nodes("profile-a", "订阅A", &[node], &settings, 100);
    store
        .confirm_participating_nodes(&settings.selected_profile_uids, &["node-a".to_owned()], 100)
        .expect("节点应可确认参赛");
    store
        .insert_measurement(&MeasurementRecord {
            node_id: "node-a".to_owned(),
            kind: MeasurementKind::Download,
            success: true,
            value: Some(FloatBits { bits: 1024.0f64.to_bits() }),
            bytes_down: 4096,
            bytes_up: 0,
            duration_ms: 1000,
            trigger: "scheduled".to_owned(),
            rank_eligible: true,
            error: None,
            created_at: 150,
        })
        .expect("测试记录应可写入");

    assert_eq!(store.clear_measurements(200), 1);
    assert!(store
        .measurements_for_nodes_since(&["node-a".to_owned()], 0)
        .is_empty());
    assert_eq!(store.actual_traffic_since(0).expect("应可读取清理后的流量"), (0, 0));
    let stored = store.active_nodes();
    assert_eq!(stored[0].bootstrap_stage, 0);
    assert_eq!(stored[0].download_bootstrap_stage, 0);
    assert_eq!(stored[0].upload_bootstrap_stage, 0);
    assert_eq!(stored[0].next_latency_at, 200);
    assert_eq!(stored[0].next_download_at, 200);
    assert_eq!(stored[0].next_upload_at, 200);
}

#[test]
fn irrelevant_unselected_node_change_is_hidden() {
    let mut store = open_empty();
    let settings = BenchmarkSettings {
        selected_profile_uids: vec!["profile-a".to_owned()],
        include_keywords: "香港".to_owned(),
        ..BenchmarkSettings::default()
    };
    let node = DiscoveredNode {
        node_id: "node-meta".to_owned(),
        profile_uid: "profile-a".to_owned(),
        profile_name: "订阅A".to_owned(),
        node_name: "剩余流量 100 GB".to_owned(),
        node_type: "VLESS".to_owned(),
        fingerprint: "fingerprint-meta".to_owned(),
    };

    store.reconcile_nodes("profile-a", "订阅A", &[node], &settings, 100);

    assert!(store.recent_changes(50, &settings).is_empty());
}

#[test]
fn configuration_change_preserves_manual_exclusion() {
    let mut store = open_empty();
    let settings = BenchmarkSettings {
        selected_profile_uids: vec!["profile-a".to_owned()],
        include_keywords: "香港".to_owned(),
        ..BenchmarkSettings::default()
    };
    let first = DiscoveredNode {
        node_id: "node-a".to_owned(),
        profile_uid: "profile-a".to_owned(),
        profile_name: "订阅A".to_owned(),
        node_name: "香港 01".to_owned(),
        node_type: "VLESS".to_owned(),
        fingerprint: "fingerprint-a".to_owned(),
    };
    store.reconcile_nodes("profile-a", "订阅A", &[first], &settings, 100);
    store
        .confirm_participating_nodes(&settings.selected_profile_uids, &[], 100)
        .expect("未勾选节点应可确认为排除");
    let relevant_before = store.recent_changes(50, &settings).len();
    let changed = DiscoveredNode {
        node_id: "node-b".to_owned(),
        profile_uid: "profile-a".to_owned(),
        profile_name: "订阅A".to_owned(),
        node_name: "香港 01".to_owned(),
        node_type: "VLESS".to_owned(),
        fingerprint: "fingerprint-b".to_owned(),
    };

    store.reconcile_nodes("profile-a", "订阅A", &[changed], &settings, 200);

    let active = store.active_nodes();
    assert_eq!(active.len(), 1);
    assert_eq!(active[0].state, ParticipationState::Excluded);
    assert!(active[0].manual_override);
    assert_eq!(store.recent_changes(50, &settings).len(), relevant_before);
}

#[test]
fn keywords_can_be_case_sensitive() {
    let relaxed = BenchmarkSettings {
        include_keywords: "hk;JP".to_owned(),
        ..BenchmarkSettings::default()
    };
    assert_eq!(
        default_state_for_name("HK 01", "机场A", &relaxed),
        ParticipationState::Participating
    );
    let strict = BenchmarkSettings {
        include_keywords: "hk;JP".to_owned(),
        case_sensitive: true,
        ..BenchmarkSettings::default()
    };
    assert_eq!(
        default_state_for_name("HK 01", "机场A", &strict),
        ParticipationState::Excluded
    );
    assert_eq!(
        default_state_for_name("jp 01", "JP 机场", &strict),
        ParticipationState::Participating
    );
}

#[test]
fn lowering_follows_the_whole_alphabet() {
    let settings = BenchmarkSettings {
        exclude_keywords: "ÄÖ".to_owned(),
        ..BenchmarkSettings::default()
    };
    assert_eq!(
        default_state_for_name("knoten äö", "A", &settings),
        ParticipationState::Excluded
    );
}

#[test]
fn renamed_and_removed_nodes_are_reported() {
    let mut store = open_empty();
    let settings = selected();
    store.reconcile_nodes(
        "profile-a",
        "订阅A",
        &[discovered("a", "香港 01"), discovered("b", "香港 02")],
        &settings,
        100,
    );
    store.reconcile_nodes("profile-a", "订阅A", &[discovered("a", "香港 1号")], &settings, 200);
    let changes: Vec<(String, Option<String>)> = store
        .recent_changes(50, &settings)
        .into_iter()
        .map(|change| (change.change_type, change.node_name))
        .collect();
    assert_eq!(
        changes,
        vec![
            ("removed".to_owned(), Some("香港 02".to_owned())),
            ("renamed".to_owned(), Some("香港 1号".to_owned())),
            ("added".to_owned(), Some("香港 02".to_owned())),
            ("added".to_owned(), Some("香港 01".to_owned())),
        ]
    );
    let active = store.active_nodes();
    assert_eq!(active.len(), 1);
    assert_eq!(active[0].node_name, "香港 1号");
    assert_eq!(active[0].first_seen_at, 100);
    assert_eq!(active[0].last_seen_at, 200);
}

#[test]
fn changed_configuration_waits_for_a_new_decision() {
    let mut store = confirmed_pair();
    store.reconcile_nodes(
        "profile-a",
        "订阅A",
        &[discovered("c", "香港 01"), discovered("b", "香港 02")],
        &selected(),
        200,
    );
    let changed = store
        .node_by_profile_and_name("profile-a", "香港 01")
        .expect("the node is stored");
    assert_eq!(changed.node_id, "c");
    assert_eq!(changed.state, ParticipationState::Changed);
    assert!(!store.node_selection_confirmed(&ids(&["profile-a"])));
    assert_eq!(store.recent_changes(50, &selected())[0].change_type, "configurationChanged");
}

#[test]
fn missing_profile_retires_its_nodes_once() {
    let mut store = confirmed_pair();
    store.save_profile_scan("profile-a", "订阅A", Some("hash"), 150, None);
    store.mark_profile_missing("profile-a", "profile-a", 200);
    assert!(store.active_nodes().is_empty());
    assert_eq!(store.profiles[0].scan_error.as_deref(), Some(MISSING_PROFILE_ERROR));
    assert_eq!(store.profiles[0].source_hash.as_deref(), Some("hash"));
    let reported = store.changes.len();
    assert_eq!(store.changes[reported - 1].event.change_type, "profileRemoved");
    assert_eq!(store.changes[reported - 1].event.profile_name, "订阅A");
    store.mark_profile_missing("profile-a", "profile-a", 300);
    assert_eq!(store.changes.len(), reported);
    assert_eq!(store.profiles[0].last_scanned_at, Some(300));
}

#[test]
fn new_profile_name_is_reported() {
    let mut store = open_empty();
    store.save_profile_scan("profile-a", "订阅A", Some("hash"), 100, None);
    store.save_profile_scan("profile-a", "订阅B", None, 200, Some("读取失败"));
    assert_eq!(store.profiles.len(), 1);
    assert_eq!(store.profiles[0].source_hash.as_deref(), Some("hash"));
    assert_eq!(store.profiles[0].scan_error.as_deref(), Some("读取失败"));
    assert_eq!(store.changes.len(), 1);
    assert_eq!(store.changes[0].event.change_type, "profileRenamed");
    assert_eq!(store.changes[0].event.id, 1);
}

#[test]
fn decisions_need_an_active_node() {
    let mut store = confirmed_pair();
    assert!(matches!(
        store.update_node_state("x", ParticipationState::Observe, 200),
        Err(BenchmarkError::UnknownNode)
    ));
    store
        .update_node_state("a", ParticipationState::Observe, 200)
        .expect("the node is active");
    let node = store
        .node_by_profile_and_name("profile-a", "香港 01")
        .expect("the node is stored");
    assert_eq!(node.state, ParticipationState::Observe);
    assert_eq!(node.next_latency_at, 200);
    assert_eq!(node.next_download_at, 100);
    assert_eq!(store.due_speed_nodes(500).len(), 1);
    assert_eq!(store.due_latency_nodes(500).len(), 2);
}

#[test]
fn excluding_a_node_hides_its_changes() {
    let mut store = confirmed_pair();
    assert_eq!(store.recent_changes(50, &selected()).len(), 2);
    store
        .update_node_state("a", ParticipationState::Excluded, 200)
        .expect("the node is active");
    let left = store.recent_changes(50, &selected());
    assert_eq!(left.len(), 1);
    assert_eq!(left[0].node_name.as_deref(), Some("香港 02"));
}

#[test]
fn refused_confirmations_change_nothing() {
    let mut store = confirmed_pair();
    assert!(matches!(
        store.confirm_participating_nodes(&[], &ids(&["a"]), 300),
        Err(BenchmarkError::NoProfileSelected)
    ));
    assert!(matches!(
        store.confirm_participating_nodes(&ids(&["profile-x"]), &ids(&["a"]), 300),
        Err(BenchmarkError::NoCandidate)
    ));
    assert!(matches!(
        store.confirm_participating_nodes(&ids(&["profile-a"]), &ids(&["a", "gone"]), 300),
        Err(BenchmarkError::CandidatesChanged)
    ));
    assert_eq!(store.active_nodes()[0].next_latency_at, 100);
}

#[test]
fn reminders_are_snoozed_ignored_and_reset() {
    let mut store = confirmed_pair();
    store.update_reminder("a", ReminderAction::SnoozeSevenDays, 1_000);
    assert_eq!(store.nodes[0].node.snoozed_until, Some(605_800));
    assert!(!store.nodes[0].node.ignore_reminder);
    store.update_reminder("a", ReminderAction::Ignore, 1_000);
    assert_eq!(store.nodes[0].node.snoozed_until, None);
    assert!(store.nodes[0].node.ignore_reminder);
    store.update_reminder("a", ReminderAction::Reset, 1_000);
    assert!(!store.nodes[0].node.ignore_reminder);
}

#[test]
fn plans_and_delays_keep_the_common_schedule_in_step() {
    let mut store = confirmed_pair();
    store
        .schedule_next_speed_direction("a", MeasurementKind::Download, 1, 3_700)
        .expect("downloads have a schedule");
    let node = &store.nodes[0].node;
    assert_eq!((node.download_bootstrap_stage, node.bootstrap_stage), (1, 0));
    assert_eq!((node.next_download_at, node.next_speed_at), (3_700, 100));
    store
        .defer_speed_direction("a", MeasurementKind::Upload, 5_000)
        .expect("uploads have a schedule");
    let node = &store.nodes[0].node;
    assert_eq!((node.next_upload_at, node.next_speed_at), (5_000, 3_700));
    store
        .defer_speed_direction("a", MeasurementKind::Upload, 4_000)
        .expect("uploads have a schedule");
    assert_eq!(store.nodes[0].node.next_upload_at, 5_000);
    store.schedule_next_latency("a", 50);
    assert_eq!(store.nodes[0].node.next_latency_at, 50);
    store.defer_latency("a", 10);
    assert_eq!(store.nodes[0].node.next_latency_at, 50);
    assert!(matches!(
        store.schedule_next_speed_direction("a", MeasurementKind::Latency, 1, 1),
        Err(BenchmarkError::LatencyInSpeedSchedule)
    ));
    assert!(matches!(
        store.defer_speed_direction("a", MeasurementKind::Latency, 1),
        Err(BenchmarkError::LatencyInSpeedSchedule)
    ));
}

#[test]
fn forced_nodes_are_due_at_once() {
    let mut store = confirmed_pair();
    store.schedule_next_latency("a", 10_000);
    store.schedule_next_latency("b", 10_000);
    store.force_due(&ids(&["a"]), 500);
    assert_eq!(store.nodes[0].node.next_latency_at, 500);
    assert_eq!(store.nodes[0].node.next_upload_at, 500);
    assert_eq!(store.nodes[1].node.next_latency_at, 10_000);
}

#[test]
fn results_of_unknown_nodes_are_refused() {
    let mut store = confirmed_pair();
    assert!(matches!(
        store.insert_measurement(&record("x", MeasurementKind::Latency, 1)),
        Err(BenchmarkError::ForeignNode)
    ));
    assert!(store.measurements.is_empty());
}

#[test]
fn stored_results_have_limited_counts_and_real_values() {
    let mut store = confirmed_pair();
    let mut odd = record("a", MeasurementKind::Download, 1);
    odd.bytes_down = u64::MAX;
    odd.value = Some(FloatBits { bits: f64::NAN.to_bits() });
    store.insert_measurement(&odd).expect("the node is known");
    assert_eq!(store.measurements[0].bytes_down, i64::MAX as u64);
    assert!(store.measurements[0].value.is_none());
    store
        .insert_measurement(&record("a", MeasurementKind::Download, 2))
        .expect("the node is known");
    assert!(matches!(
        store.actual_traffic_since(0),
        Err(BenchmarkError::TrafficOverflow)
    ));
    assert!(matches!(
        store.actual_traffic_by_profile_since(0),
        Err(BenchmarkError::TrafficOverflow)
    ));
    assert_eq!(store.actual_traffic_since(2).expect("the sum fits"), (100, 10));
}

#[test]
fn results_come_oldest_first() {
    let mut store = confirmed_pair();
    for (id, at) in [("a", 30), ("b", 10), ("a", 20)] {
        store
            .insert_measurement(&record(id, MeasurementKind::Latency, at))
            .expect("the node is known");
    }
    let times: Vec<i64> = store
        .measurements_for_nodes_since(&ids(&["a", "b"]), 15)
        .iter()
        .map(|result| result.created_at)
        .collect();
    assert_eq!(times, vec![20, 30]);
    assert!(store.measurements_for_nodes_since(&[], 0).is_empty());
    assert_eq!(
        store.actual_traffic_by_profile_since(15).expect("the sums fit"),
        vec![("profile-a".to_owned(), "订阅A".to_owned(), 200, 20)]
    );
}

#[test]
fn due_nodes_come_longest_waiting_first() {
    let mut store = confirmed_pair();
    store.schedule_next_latency("a", 90);
    store.schedule_next_latency("b", 80);
    let names: Vec<String> = store.due_latency_nodes(100).into_iter().map(|node| node.node_id).collect();
    assert_eq!(names, ids(&["b", "a"]));
    assert_eq!(store.due_latency_nodes(85).len(), 1);
}

#[test]
fn profile_summaries_tell_lost_profiles() {
    let mut store = confirmed_pair();
    store.save_profile_scan("profile-a", "订阅A", Some("hash"), 150, None);
    let settings = BenchmarkSettings {
        selected_profile_uids: ids(&["profile-a", "profile-lost"]),
        ..BenchmarkSettings::default()
    };
    let summaries = store.profile_summaries(
        &[
            ("profile-b".to_owned(), "订阅B".to_owned()),
            ("profile-a".to_owned(), "订阅A".to_owned()),
        ],
        &settings,
    );
    assert_eq!(summaries.len(), 3);
    let of = |uid: &str| summaries.iter().find(|summary| summary.uid == uid).expect("listed");
    assert!(of("profile-a").available && of("profile-a").selected);
    assert_eq!(of("profile-a").node_count, 2);
    assert_eq!(of("profile-a").last_scanned_at, Some(150));
    assert!(of("profile-b").available && !of("profile-b").selected);
    assert!(!of("profile-lost").available && of("profile-lost").selected);
}

#[test]
fn reopened_tables_are_the_stored_ones() {
    let mut store = confirmed_pair();
    store
        .insert_measurement(&record("a", MeasurementKind::Upload, 7))
        .expect("the node is known");
    store.save_profile_scan("profile-a", "订阅A", Some("hash"), 150, None);
    let rows = StoredTables {
        settings: Some(selected()),
        profiles: vec![ProfileRecord {
            profile_uid: "profile-a".to_owned(),
            profile_name: "订阅A".to_owned(),
            source_hash: Some("hash".to_owned()),
            last_scanned_at: Some(150),
            scan_error: None,
        }],
        nodes: store.nodes.iter().map(NodeRow::of).collect(),
        measurements: store.measurements.iter().map(MeasurementRow::of).collect(),
        changes: store
            .changes
            .iter()
            .map(|change| ChangeRow {
                event: change.event.clone(),
                relevant: Some(change.relevant),
            })
            .collect(),
        last_change_id: store.last_change_id,
    };
    let back = BenchmarkStore::open(rows).expect("the rows are sound");
    assert_eq!(format!("{:?}", back.nodes), format!("{:?}", store.nodes));
    assert_eq!(format!("{:?}", back.measurements), format!("{:?}", store.measurements));
    assert_eq!(format!("{:?}", back.changes), format!("{:?}", store.changes));
    assert_eq!(format!("{:?}", back.profiles), format!("{:?}", store.profiles));
}

fn first_layout_node(state: &str) -> NodeRow {
    NodeRow {
        node_id: "a".to_owned(),
        profile_uid: "profile-a".to_owned(),
        profile_name: "订阅A".to_owned(),
        node_name: "香港 01".to_owned(),
        node_type: "VLESS".to_owned(),
        fingerprint: "f".to_owned(),
        state: state.to_owned(),
        manual_override: true,
        active: true,
        first_seen_at: 1,
        last_seen_at: 2,
        bootstrap_stage: 2,
        next_latency_at: 30,
        next_speed_at: 40,
        download_bootstrap_stage: None,
        upload_bootstrap_stage: None,
        next_download_at: None,
        next_upload_at: None,
        snoozed_until: None,
        ignore_reminder: false,
    }
}

fn first_layout_change(id: i64, node_name: Option<&str>) -> ChangeRow {
    ChangeRow {
        event: BenchmarkChangeEvent {
            id,
            profile_uid: "profile-a".to_owned(),
            profile_name: "订阅A".to_owned(),
            node_name: node_name.map(str::to_owned),
            change_type: "added".to_owned(),
            created_at: 5,
        },
        relevant: None,
    }
}

#[test]
fn rows_of_the_first_layout_are_completed() {
    let mut tables = empty_tables();
    tables.nodes.push(first_layout_node("excluded"));
    tables.measurements.push(MeasurementRow {
        node_id: "a".to_owned(),
        kind: "upload".to_owned(),
        success: true,
        value: None,
        bytes_down: -5,
        bytes_up: 6,
        duration_ms: 7,
        trigger: "manual".to_owned(),
        rank_eligible: None,
        error: None,
        created_at: 8,
    });
    tables.changes.push(first_layout_change(1, Some("香港 01")));
    tables.changes.push(first_layout_change(2, Some("香港 02")));
    tables.changes.push(first_layout_change(4, None));
    tables.last_change_id = 4;
    let store = BenchmarkStore::open(tables).expect("the rows are sound");
    let node = &store.nodes[0].node;
    assert_eq!((node.download_bootstrap_stage, node.upload_bootstrap_stage), (2, 2));
    assert_eq!((node.next_download_at, node.next_upload_at), (40, 40));
    assert_eq!(node.state, ParticipationState::Excluded);
    assert!(store.measurements[0].rank_eligible);
    assert_eq!(store.measurements[0].kind, MeasurementKind::Upload);
    assert_eq!((store.measurements[0].bytes_down, store.measurements[0].bytes_up), (0, 6));
    let relevant: Vec<bool> = store.changes.iter().map(|change| change.relevant).collect();
    assert_eq!(relevant, vec![false, true, true]);
}

#[test]
fn rows_that_repeat_a_key_are_refused() {
    let mut nodes = empty_tables();
    nodes.nodes.push(first_layout_node("observe"));
    nodes.nodes.push(first_layout_node("observe"));
    assert!(BenchmarkStore::open(nodes).is_none());

    let mut changes = empty_tables();
    changes.changes.push(first_layout_change(2, None));
    changes.changes.push(first_layout_change(2, Some("香港 01")));
    assert!(BenchmarkStore::open(changes).is_none());
}

#[test]
fn all_other_rows_are_opened() {
    let mut tables = empty_tables();
    tables.changes.push(first_layout_change(7, None));
    tables.changes.push(first_layout_change(3, Some("香港 01")));
    tables.last_change_id = 5;
    tables.measurements.push(MeasurementRow::of(&record("x", MeasurementKind::Latency, 1)));

    let mut store = BenchmarkStore::open(tables).expect("no key occurs twice");

    let numbers: Vec<i64> = store.changes.iter().map(|change| change.event.id).collect();
    assert_eq!(numbers, vec![3, 7]);
    assert_eq!(store.actual_traffic_since(0).ok(), Some((100, 10)));
    store.reconcile_nodes("profile-a", "订阅A", &[discovered("a", "香港 01")], &selected(), 9);
    assert_eq!(store.changes[2].event.id, 8);
    assert_eq!(store.last_change_id, 8);
}

#[test]
fn missing_columns_are_found() {
    assert_eq!(
        missing_columns(GrownTable::Nodes, &ids(&["node_id", "upload_bootstrap_stage", "next_upload_at"])),
        ids(&["download_bootstrap_stage", "next_download_at"])
    );
    assert_eq!(missing_columns(GrownTable::Measurements, &[]), ids(&["rank_eligible"]));
    assert!(missing_columns(GrownTable::Changes, &ids(&["relevant"])).is_empty());
}

#[test]
fn state_and_kind_texts_round_trip() {
    for state in [
        ParticipationState::Participating,
        ParticipationState::Observe,
        ParticipationState::Excluded,
        ParticipationState::Changed,
        ParticipationState::Removed,
    ] {
        assert_eq!(ParticipationState::from_db(state.as_str()), state);
    }
    for kind in [MeasurementKind::Latency, MeasurementKind::Download, MeasurementKind::Upload] {
        assert_eq!(MeasurementKind::from_db(kind.as_str()), kind);
    }
    assert_eq!(ParticipationState::from_db("?"), ParticipationState::Removed);
    assert_eq!(MeasurementKind::from_db("?"), MeasurementKind::Latency);
}

#[test]
fn error_messages_are_the_words_of_the_interface() {
    assert_eq!(BenchmarkError::UnknownNode.message(), "找不到需要更新的节点");
    assert_eq!(BenchmarkError::NoProfileSelected.message(), "请先选择至少一个订阅");
    assert_eq!(
        BenchmarkError::NoCurrentProfile.message(),
        "当前没有选中的订阅，无法建立独立测速配置"
    );
}

#[test]
fn a_repeated_scan_reports_nothing() {
    let mut store = confirmed_pair();
    let found = [discovered("b", "香港 02"), discovered("c", "香港 03")];
    store.reconcile_nodes("profile-a", "订阅A", &found, &selected(), 200);
    let reported = store.changes.len();
    assert_eq!(reported, 4);
    assert_eq!(store.changes[2].event.change_type, "added");
    assert_eq!(store.changes[3].event.change_type, "removed");
    let filtered = BenchmarkSettings {
        exclude_keywords: "香港".to_owned(),
        ..selected()
    };

    store.reconcile_nodes("profile-a", "订阅A", &found, &filtered, 300);

    assert_eq!(store.changes.len(), reported);
    let mut members: Vec<String> = store.active_nodes().into_iter().map(|node| node.node_id).collect();
    members.sort();
    assert_eq!(members, ids(&["b", "c"]));
    assert!(store.active_nodes().iter().all(|node| node.last_seen_at == 300));
}

#[test]
fn checked_settings_are_read_back() {
    let wished = BenchmarkSettings {
        latency_url: " https://example.com/204 ".to_owned(),
        selected_profile_uids: ids(&["b", "a", "b"]),
        speed_interval_hours: 500,
        ..BenchmarkSettings::default()
    };
    let checked = wished.normalized().expect("the addresses can be used");
    let mut store = open_empty();

    store.save_settings(&checked);

    let loaded = store.load_settings().expect("checked settings stay usable");
    assert_eq!(loaded.latency_url, "https://example.com/204");
    assert_eq!(loaded.selected_profile_uids, ids(&["a", "b"]));
    assert_eq!(loaded.speed_interval_hours, 168);
}

#[test]
fn stored_results_are_read_back_and_count_for_their_day() {
    let mut store = confirmed_pair();
    let mut failed = record("a", MeasurementKind::Download, 500);
    failed.success = false;
    failed.value = None;
    failed.bytes_down = 4_096;
    failed.bytes_up = 0;
    failed.error = Some("测速请求超时".to_owned());
    store
        .insert_measurement(&record("b", MeasurementKind::Latency, 400))
        .expect("the node is known");
    store.insert_measurement(&failed).expect("the node is known");

    let read = store.measurements_for_nodes_since(&ids(&["a"]), 500);
    assert_eq!(read.len(), 1);
    assert_eq!(read[0].bytes_down, 4_096);
    assert_eq!(read[0].error.as_deref(), Some("测速请求超时"));
    assert!(store.measurements_for_nodes_since(&ids(&["a"]), 501).is_empty());
    assert_eq!(store.actual_traffic_since(400).ok(), Some((4_196, 10)));
    assert_eq!(store.actual_traffic_since(500).ok(), Some((4_096, 0)));
    assert_eq!(store.actual_traffic_since(501).ok(), Some((0, 0)));
}
