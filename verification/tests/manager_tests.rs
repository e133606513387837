use node_benchmark::errors::BenchmarkError;
use node_benchmark::floats::FloatBits;
use node_benchmark::manager::BenchmarkManager;
use node_benchmark::manual::{ManualRun, ManualStep};
use node_benchmark::models::{
    BenchmarkSaveRequest, BenchmarkWindow, DiscoveredNode, ManualBatchRequest, ManualSpeedMode, MeasurementKind,
    MeasurementRecord, NodeUpdateRequest, ParticipationState, ReminderAction, SpeedTestResult,
};
use node_benchmark::outcomes::SpeedTestError;
use node_benchmark::profile::{build_isolated_config, prepare_profile, PreparedProfile};
use node_benchmark::rankings::{MetricFigures, NodeFigures, RankingFigures, ReferenceFigures};
use node_benchmark::scan::{ProfileDiscovery, ScanOutcome};
use node_benchmark::settings::BenchmarkSettings;
use node_benchmark::speed::{DownloadSpeedTestResult, SpeedTestOptions};
use node_benchmark::store::BenchmarkStore;

fn discovered(id: &str, name: &str) -> DiscoveredNode {
    DiscoveredNode {
        node_id: id.to_owned(),
        profile_uid: "p".to_owned(),
        profile_name: "订阅".to_owned(),
        node_name: name.to_owned(),
        node_type: "VLESS".to_owned(),
        fingerprint: id.to_owned(),
    }
}

fn settings() -> BenchmarkSettings {
    BenchmarkSettings {
        selected_profile_uids: vec!["p".to_owned()],
        ..BenchmarkSettings::default()
    }
}

fn request() -> BenchmarkSaveRequest {
    BenchmarkSaveRequest {
        settings: settings(),
        participating_node_ids: vec!["a".to_owned()],
    }
}

fn manager() -> BenchmarkManager {
    let mut manager = BenchmarkManager::new(BenchmarkStore::new());
    manager.save_settings(&settings());
    manager.store.record_scan(
        "p",
        &ScanOutcome::Found(ProfileDiscovery {
            profile_name: "订阅".to_owned(),
            source_hash: "hash".to_owned(),
            nodes: vec![discovered("a", "A"), discovered("b", "B")],
        }),
        &settings(),
        100,
    );
    manager.finish_scan(100);
    manager
}

fn bits(value: f64) -> FloatBits {
    FloatBits { bits: value.to_bits() }
}

fn figures(count: usize) -> RankingFigures {
    let metric = MetricFigures {
        median: bits(50.0),
        average: bits(50.0),
        p95: bits(60.0),
    };
    let node = NodeFigures {
        latency: metric,
        download: metric,
        upload: metric,
        stability: bits(100.0),
        jitter: bits(10.0),
    };
    RankingFigures {
        shown: vec![node; count],
        day: vec![node; count],
        reference: ReferenceFigures {
            reference: bits(50.0),
            near: bits(130.0),
            double: bits(100.0),
        },
    }
}

#[test]
fn previews_are_sorted_by_profile_and_name() {
    let mut other = discovered("c", "Z");
    other.profile_name = "A 订阅".to_owned();
    let preview = BenchmarkManager::preview_nodes(
        settings(),
        &vec![discovered("b", "B"), discovered("a", "A"), other],
    );
    let ids: Vec<&str> = preview.nodes.iter().map(|node| node.node_id.as_str()).collect();
    assert_eq!(ids, vec!["c", "a", "b"]);
}

#[test]
fn the_ranking_starts_after_a_confirmed_selection() {
    let mut empty = BenchmarkManager::new(BenchmarkStore::new());
    assert!(matches!(empty.start_scheduled(), Err(BenchmarkError::SelectionMissing)));
    let mut manager = manager();
    assert!(matches!(manager.start_scheduled(), Err(BenchmarkError::SelectionOutdated)));
    manager.confirm_selection(&request(), 200).expect("a is a candidate");
    manager.start_scheduled().expect("a takes part");
    assert!(manager.store.load_settings().expect("sound").enabled);
    manager.pause_scheduled().expect("sound");
    assert!(!manager.store.load_settings().expect("sound").enabled);
    manager
        .update_node(
            &NodeUpdateRequest {
                node_id: "a".to_owned(),
                state: Some(ParticipationState::Observe),
                reminder_action: None,
            },
            300,
        )
        .expect("a is active");
    assert!(matches!(manager.start_scheduled(), Err(BenchmarkError::NoParticipantStored)));
}

#[test]
fn foreign_participants_are_refused() {
    let mut manager = manager();
    let mut wish = request();
    wish.participating_node_ids.push("x".to_owned());
    assert!(matches!(
        manager.confirm_selection(&wish, 200),
        Err(BenchmarkError::CandidatesChanged)
    ));
}

#[test]
fn reserved_states_are_refused() {
    let mut manager = manager();
    for state in [ParticipationState::Changed, ParticipationState::Removed] {
        assert!(matches!(
            manager.update_node(
                &NodeUpdateRequest {
                    node_id: "a".to_owned(),
                    state: Some(state),
                    reminder_action: Some(ReminderAction::Ignore),
                },
                200
            ),
            Err(BenchmarkError::ReservedState)
        ));
    }
    assert!(!manager.store.nodes[0].node.ignore_reminder);
    manager
        .update_node(
            &NodeUpdateRequest {
                node_id: "a".to_owned(),
                state: None,
                reminder_action: Some(ReminderAction::SnoozeSevenDays),
            },
            200,
        )
        .expect("allowed");
    assert_eq!(manager.store.nodes[0].node.snoozed_until, Some(605_000));
}

#[test]
fn retests_need_a_node() {
    let mut manager = manager();
    assert!(matches!(
        manager.retest_nodes(&Vec::new(), 1),
        Err(BenchmarkError::NoNodeNamed)
    ));
    manager.retest_nodes(&vec!["b".to_owned()], 77).expect("named");
    assert_eq!(manager.store.nodes[1].node.next_latency_at, 77);
}

#[test]
fn scans_are_due_every_half_hour_while_the_ranking_runs() {
    let mut manager = manager();
    assert!(manager.store.due_scan(100, 9_000).expect("sound").is_none());
    manager.confirm_selection(&request(), 200).expect("a is a candidate");
    manager.start_scheduled().expect("a takes part");
    assert!(manager.store.due_scan(100, 1_899).expect("sound").is_none());
    assert!(manager.store.due_scan(100, 1_900).expect("sound").is_some());
}

#[test]
fn failed_and_missing_scans_are_noted() {
    let mut manager = manager();
    manager.store.record_scan(
        "p",
        &ScanOutcome::Failed {
            profile_name: "订阅".to_owned(),
            error: "坏了".to_owned(),
        },
        &settings(),
        200,
    );
    assert_eq!(manager.store.profiles[0].scan_error.as_deref(), Some("坏了"));
    assert_eq!(manager.store.active_nodes().len(), 2);
    manager.store.record_scan("p", &ScanOutcome::Missing, &settings(), 300);
    assert!(manager.store.active_nodes().is_empty());
    assert!(manager.store.has_room_for(1_000));
}

#[test]
fn the_history_is_cleared_at_rest_only() {
    let mut manager = manager();
    manager.confirm_selection(&request(), 200).expect("a is a candidate");
    manager.start_scheduled().expect("a takes part");
    assert!(matches!(manager.may_clear_history(false), Err(BenchmarkError::StillEnabled)));
    assert!(matches!(manager.clear_history(300), Err(BenchmarkError::EnabledAgain)));
    manager.pause_scheduled().expect("sound");
    manager
        .start_manual_batch("job", &batch(), Some("p".to_owned()))
        .expect("there are nodes");
    assert!(matches!(
        manager.clear_history(300),
        Err(BenchmarkError::ManualBatchRunning)
    ));
    manager.manual_jobs.finish_manual_batch("job", None, true);
    manager
        .store
        .insert_measurement(&MeasurementRecord {
            node_id: "a".to_owned(),
            kind: MeasurementKind::Latency,
            success: true,
            value: Some(bits(1.0)),
            bytes_down: 1,
            bytes_up: 1,
            duration_ms: 1,
            trigger: "scheduled".to_owned(),
            rank_eligible: true,
            error: None,
            created_at: 250,
        })
        .expect("known");
    assert_eq!(manager.clear_history(300).expect("at rest"), 1);
    assert_eq!(manager.store.nodes[0].node.next_latency_at, 300);
}

#[test]
fn a_look_shows_the_selected_nodes() {
    let mut manager = manager();
    manager.confirm_selection(&request(), 200).expect("a is a candidate");
    manager
        .store
        .record_latency("a", Ok(50), true, 60, &settings(), 1_000)
        .expect("known");
    let data = manager
        .snapshot_data(BenchmarkWindow::OneDay, 2_000)
        .expect("sound");
    assert_eq!(data.nodes.len(), 2);
    assert_eq!(data.measurements.len(), 1);
    let snapshot = manager
        .snapshot(
            data,
            &figures(2),
            &[("p".to_owned(), "订阅".to_owned())],
            0,
            3_600,
        )
        .expect("the sums fit");
    assert!(snapshot.selection_confirmed);
    assert_eq!(snapshot.nodes.len(), 2);
    assert_eq!(snapshot.nodes[0].node_id, "a");
    assert_eq!(snapshot.nodes[0].latency.rank, Some(1));
    assert_eq!(snapshot.champions.latency.as_ref().map(|best| best.node_id.as_str()), Some("a"));
    assert!(snapshot.champions.download.is_none());
    assert_eq!(snapshot.traffic.actual_download_bytes, 16_384);
    assert_eq!(snapshot.profiles[0].node_count, 2);
    assert_eq!(snapshot.changes.len(), 1);
    assert_eq!(snapshot.generated_at, 2_000);
    let data = manager
        .snapshot_data(BenchmarkWindow::LongTerm, 2_000)
        .expect("sound");
    assert_eq!(data.measurements.len(), 1);
}

fn batch() -> ManualBatchRequest {
    ManualBatchRequest {
        profile_uid: None,
        node_names: vec!["HK".to_owned(), "gone".to_owned(), "JP".to_owned()],
        mode: ManualSpeedMode::Download,
        options: SpeedTestOptions {
            url: settings().download_url,
            duration_ms: Some(12_000),
            max_bytes: Some(1_073_741_824),
            connect_timeout_ms: None,
            read_idle_timeout_ms: None,
        },
        include_in_ranking: true,
    }
}

fn prepared() -> PreparedProfile {
    let source = serde_yaml_ng::from_str(
        "proxies:\n  - { name: HK, type: ss, server: a }\n  - { name: JP, type: ss, server: b }",
    )
    .expect("readable");
    let config = build_isolated_config(&source, 1).expect("there are proxies");
    prepare_profile("p", "订阅", config, &[]).expect("writable")
}

fn result() -> SpeedTestResult {
    SpeedTestResult::Download(DownloadSpeedTestResult {
        final_url: "u".to_owned(),
        status_code: 200,
        content_type: None,
        content_length: None,
        bytes_read: 5_000,
        elapsed_ms: 1_000,
        average_bytes_per_second: 5_000,
    })
}

fn begin(manager: &mut BenchmarkManager) -> ManualRun {
    let (snapshot, uid) = manager
        .start_manual_batch("job", &batch(), Some("p".to_owned()))
        .expect("there are nodes");
    assert!(snapshot.rows.iter().all(|row| row.status == "queued"));
    ManualRun::begin(
        &mut manager.store,
        snapshot.job_id,
        uid,
        batch(),
        &prepared(),
        &[("HK".to_owned(), "Ss".to_owned()), ("JP".to_owned(), "Ss".to_owned())],
        500,
    )
    .expect("sound")
}

fn statuses(manager: &BenchmarkManager) -> Vec<String> {
    manager
        .manual_batch("job")
        .expect("known")
        .rows
        .into_iter()
        .map(|row| row.status)
        .collect()
}

#[test]
fn batches_need_nodes_and_a_profile() {
    let mut manager = BenchmarkManager::new(BenchmarkStore::new());
    let mut none = batch();
    none.node_names.clear();
    assert!(matches!(
        manager.start_manual_batch("j", &none, Some("p".to_owned())),
        Err(BenchmarkError::EmptyBatch)
    ));
    assert!(matches!(
        manager.start_manual_batch("j", &batch(), None),
        Err(BenchmarkError::NoCurrentProfile)
    ));
    let mut own = batch();
    own.profile_uid = Some("q".to_owned());
    let (_, uid) = manager
        .start_manual_batch("j", &own, Some("p".to_owned()))
        .expect("there are nodes");
    assert_eq!(uid, "q");
    assert!(matches!(manager.manual_batch("x"), Err(BenchmarkError::UnknownBatch)));
    assert!(manager.cancel_manual_batch("j").is_ok());
    manager.manual_jobs.finish_manual_batch("j", None, false);
    assert!(matches!(
        manager.cancel_manual_batch("j"),
        Err(BenchmarkError::UnknownBatchToCancel)
    ));
    assert!(matches!(
        manager.cancel_manual_batch("x"),
        Err(BenchmarkError::UnknownBatchToCancel)
    ));
}

#[test]
fn batches_go_from_node_to_node() {
    let mut manager = manager();
    let mut run = begin(&mut manager);
    assert!(run.alike);
    assert_eq!(manager.store.active_nodes().len(), 2);
    match run
        .advance(&mut manager.manual_jobs, &manager.store, 0, false)
        .expect("sound")
    {
        ManualStep::Test { node_name } => assert_eq!(node_name, "HK"),
        other => panic!("unexpected step {other:?}"),
    }
    assert_eq!(statuses(&manager), vec!["testing", "queued", "queued"]);
    run.record_success(&mut manager.manual_jobs, &mut manager.store, result(), 600);
    assert_eq!(manager.store.measurements[0].trigger, "manual");
    assert!(!manager.store.measurements[0].rank_eligible);
    assert!(matches!(
        run.advance(&mut manager.manual_jobs, &manager.store, 0, false),
        Ok(ManualStep::Skipped)
    ));
    assert!(matches!(
        run.advance(&mut manager.manual_jobs, &manager.store, 0, false),
        Ok(ManualStep::Test { .. })
    ));
    let node = run.stored_node(&manager.store).expect("JP is stored");
    run.record_failure(
        &mut manager.manual_jobs,
        &mut manager.store,
        Some(&node),
        &SpeedTestError::Refused("拒绝".to_owned()),
        false,
        8,
        700,
    )
    .expect("known");
    assert_eq!(manager.store.measurements[1].trigger, "environment");
    assert_eq!(manager.store.measurements[1].duration_ms, 8);
    assert!(matches!(
        run.advance(&mut manager.manual_jobs, &manager.store, 0, false),
        Ok(ManualStep::Finished)
    ));
    assert_eq!(statuses(&manager), vec!["success", "failed", "failed"]);
    let rows = manager.manual_batch("job").expect("known").rows;
    assert!(matches!(rows[0].result, Some(SpeedTestResult::Download(_))));
    assert_eq!(rows[1].error.as_deref(), Some("独立配置中找不到该节点"));
    assert_eq!(rows[2].error.as_deref(), Some("测试环境异常，不计入节点结果：拒绝"));

    manager.manual_jobs.finish_manual_batch("job", None, false);

    let ended = manager.manual_batch("job").expect("known");
    assert!(!ended.running);
    assert_eq!(statuses(&manager), vec!["success", "failed", "failed"]);
    assert!(ended.rows.iter().all(|row| row.result.is_some() == (row.status == "success")));
}

#[test]
fn confirmed_participants_count_in_manual_batches() {
    let mut manager = manager();
    let mut run = begin(&mut manager);
    let node_id = run.stored_node(&manager.store).expect("HK is stored").node_id;
    manager
        .update_node(
            &NodeUpdateRequest {
                node_id,
                state: Some(ParticipationState::Participating),
                reminder_action: None,
            },
            550,
        )
        .expect("active");
    run.advance(&mut manager.manual_jobs, &manager.store, 0, false)
        .expect("sound");
    run.record_success(&mut manager.manual_jobs, &mut manager.store, result(), 600);
    assert!(manager.store.measurements[0].rank_eligible);
}

#[test]
fn batches_stop_at_the_limit_of_the_day() {
    let mut manager = manager();
    let mut tight = settings();
    tight.download_daily_limit_bytes = 1_000;
    manager.save_settings(&tight);
    let mut run = begin(&mut manager);
    assert!(matches!(
        run.advance(&mut manager.manual_jobs, &manager.store, 0, false),
        Ok(ManualStep::Skipped)
    ));
    assert_eq!(
        manager.manual_batch("job").expect("known").rows[0].error.as_deref(),
        Some("今日对应方向的测试流量上限已达到")
    );
}

#[test]
fn ended_batches_leave_nothing_open() {
    let mut manager = manager();
    let mut run = begin(&mut manager);
    run.advance(&mut manager.manual_jobs, &manager.store, 0, false)
        .expect("sound");
    run.selection_failed(&mut manager.manual_jobs, "拒绝");
    assert_eq!(
        manager.manual_batch("job").expect("known").rows[0].error.as_deref(),
        Some("临时内核无法选中节点：拒绝")
    );
    manager.manual_jobs.finish_manual_batch("job", Some("内核退出"), false);
    assert_eq!(statuses(&manager), vec!["failed", "failed", "failed"]);
    let rows = manager.manual_batch("job").expect("known").rows;
    assert_eq!(rows[0].error.as_deref(), Some("临时内核无法选中节点：拒绝"));
    assert_eq!(rows[2].error.as_deref(), Some("内核退出"));
    let mut second = BenchmarkManager::new(BenchmarkStore::new());
    second
        .start_manual_batch("job", &batch(), Some("p".to_owned()))
        .expect("there are nodes");
    second.manual_jobs.finish_manual_batch("job", None, true);
    assert_eq!(statuses(&second), vec!["cancelled", "cancelled", "cancelled"]);
    assert!(!second.manual_jobs.any_running());
}
