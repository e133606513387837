use node_benchmark::cycle::{
    fail_cycle, find_due, finish_cycle, open_cycle, Cycle, CycleStart, CycleStep, PreparationStep,
};
use node_benchmark::errors::BenchmarkError;
use node_benchmark::models::{
    DiscoveredNode, ManualBatchRequest, ManualSpeedMode, MeasurementKind, SpeedTestResult,
};
use node_benchmark::outcomes::{SpeedPlan, SpeedTestError};
use node_benchmark::schedule::{
    manual_matches_ranking, network_is_busy, next_speed_schedule, plan_groups, probe_options, rotate_for_round,
    seconds_until_local_day_end, speed_options, speed_trigger, MEASUREMENT_COOLDOWN,
};
use node_benchmark::settings::BenchmarkSettings;
use node_benchmark::speed::{DownloadSpeedTestResult, SpeedTestFailure, SpeedTestOptions, UploadSpeedTestResult};
use node_benchmark::status::{BenchmarkTaskStatus, ScheduledWorker};
use node_benchmark::store::BenchmarkStore;
use node_benchmark::visit::{NodeVisit, VisitStep};

fn discovered(profile: &str, id: &str) -> DiscoveredNode {
    DiscoveredNode {
        node_id: id.to_owned(),
        profile_uid: profile.to_owned(),
        profile_name: format!("订阅 {profile}"),
        node_name: format!("节点 {id}"),
        node_type: "VLESS".to_owned(),
        fingerprint: id.to_owned(),
    }
}

fn settings() -> BenchmarkSettings {
    BenchmarkSettings {
        enabled: true,
        selected_profile_uids: vec!["p".to_owned(), "q".to_owned()],
        ..BenchmarkSettings::default()
    }
}

/// Two participants of one profile and one of another, due from second 100 on.
fn due_store() -> BenchmarkStore {
    let mut store = BenchmarkStore::new();
    store.save_settings(&settings());
    store.reconcile_nodes(
        "p",
        "订阅 p",
        &[discovered("p", "p1"), discovered("p", "p2")],
        &settings(),
        100,
    );
    store.reconcile_nodes("q", "订阅 q", &[discovered("q", "q1")], &settings(), 100);
    store
        .confirm_participating_nodes(
            &["p".to_owned(), "q".to_owned()],
            &["p1".to_owned(), "p2".to_owned(), "q1".to_owned()],
            100,
        )
        .expect("all can be confirmed");
    store
}

fn begin(store: &mut BenchmarkStore, status: &mut BenchmarkTaskStatus, worker: ScheduledWorker, round: u64) -> Cycle {
    let pending = find_due(store, status, worker, 1_000)
        .expect("the settings are sound")
        .expect("nodes are due");
    let mut next = round;
    match open_cycle(store, pending, &mut next, false, false) {
        CycleStart::Running(cycle) => {
            assert_eq!(next, round + 1);
            cycle
        }
        CycleStart::Ended { .. } => panic!("the round should run"),
    }
}

fn download_result(speed: u64) -> SpeedTestResult {
    SpeedTestResult::Download(DownloadSpeedTestResult {
        final_url: "u".to_owned(),
        status_code: 200,
        content_type: None,
        content_length: None,
        bytes_read: 9_000,
        elapsed_ms: 3_000,
        average_bytes_per_second: speed,
    })
}

#[test]
fn bootstrap_schedule_is_immediate_then_one_and_four_hours() {
    assert_eq!(next_speed_schedule(0, 100, 12), (1, 3700));
    assert_eq!(next_speed_schedule(1, 100, 12), (2, 10_900));
    assert_eq!(next_speed_schedule(2, 100, 12), (3, 43_300));
}

#[test]
fn benchmark_round_rotates_starting_node_and_uses_two_second_cooldown() {
    let mut nodes = ["节点A", "节点B", "节点C"];
    rotate_for_round(&mut nodes, 1);

    assert_eq!(nodes, ["节点B", "节点C", "节点A"]);
    assert_eq!(MEASUREMENT_COOLDOWN, 2);
}

#[test]
fn rotation_wraps_and_spares_single_items() {
    let mut items = [1, 2, 3];
    rotate_for_round(&mut items, 5);
    assert_eq!(items, [3, 1, 2]);
    let mut one = [7];
    rotate_for_round(&mut one, 9);
    assert_eq!(one, [7]);
}

#[test]
fn triggers_name_the_series() {
    assert_eq!(speed_trigger(2), "bootstrap");
    assert_eq!(speed_trigger(3), "scheduled");
    assert_eq!(next_speed_schedule(9, 0, 2), (3, 7_200));
}

#[test]
fn the_day_ends_after_the_seconds_left() {
    assert_eq!(seconds_until_local_day_end(1_000, 400), 600);
    assert_eq!(seconds_until_local_day_end(400, 1_000), (-600i64) as u64);
    assert_eq!(seconds_until_local_day_end(i64::MAX, -5), i64::MAX as u64);
}

#[test]
fn busy_lines_are_told_by_their_sum() {
    assert!(network_is_busy(2_621_440, 2_621_440));
    assert!(!network_is_busy(2_621_440, 2_621_439));
    assert!(network_is_busy(u64::MAX, u64::MAX));
}

#[test]
fn ranking_tests_have_fixed_options() {
    let options = speed_options("u", &settings());
    assert_eq!(options.url, "u");
    assert_eq!(options.duration_ms, Some(12_000));
    assert_eq!(options.max_bytes, Some(1_073_741_824));
    assert_eq!(options.connect_timeout_ms, Some(8_000));
    let probe = probe_options("u", &settings());
    assert_eq!((probe.duration_ms, probe.max_bytes), (Some(3_000), Some(1_048_576)));
}

fn manual(url: &str, duration_ms: Option<u64>, max_bytes: Option<u64>) -> ManualBatchRequest {
    ManualBatchRequest {
        profile_uid: None,
        node_names: vec!["x".to_owned()],
        mode: ManualSpeedMode::Upload,
        options: SpeedTestOptions {
            url: url.to_owned(),
            duration_ms,
            max_bytes,
            connect_timeout_ms: None,
            read_idle_timeout_ms: None,
        },
        include_in_ranking: true,
    }
}

#[test]
fn manual_tests_count_only_when_alike() {
    let url = settings().upload_url;
    let alike = manual(&format!(" {url} "), Some(12_000), Some(1_073_741_824));
    assert!(manual_matches_ranking(&alike, &settings()));
    assert!(!manual_matches_ranking(&manual(&url, None, Some(1_073_741_824)), &settings()));
    assert!(!manual_matches_ranking(&manual(&url, Some(12_000), None), &settings()));
    assert!(!manual_matches_ranking(
        &manual("https://example.com", Some(12_000), Some(1_073_741_824)),
        &settings()
    ));
    let mut quiet = manual(&url, Some(12_000), Some(1_073_741_824));
    quiet.include_in_ranking = false;
    assert!(!manual_matches_ranking(&quiet, &settings()));
}

#[test]
fn groups_hold_every_due_node_once() {
    let store = due_store();
    let nodes = store.due_speed_nodes(100);
    let groups = plan_groups(&nodes, 1);
    let names: Vec<(String, Vec<String>)> = groups
        .iter()
        .map(|group| {
            (
                group.profile_uid.clone(),
                group.nodes.iter().map(|node| node.node_id.clone()).collect(),
            )
        })
        .collect();
    assert_eq!(
        names,
        vec![
            ("q".to_owned(), vec!["q1".to_owned()]),
            ("p".to_owned(), vec!["p1".to_owned(), "p2".to_owned()]),
        ]
    );
    let groups = plan_groups(&nodes, 0);
    assert_eq!(groups[0].profile_uid, "p");
}

#[test]
fn nothing_is_due_while_the_ranking_is_stopped() {
    let mut store = due_store();
    let mut status = BenchmarkTaskStatus::default();
    store.save_settings(&BenchmarkSettings {
        enabled: false,
        ..settings()
    });
    assert!(find_due(&store, &mut status, ScheduledWorker::Latency, 1_000)
        .expect("sound")
        .is_none());
    store.save_settings(&settings());
    assert!(find_due(&store, &mut status, ScheduledWorker::Latency, 99)
        .expect("sound")
        .is_none());
    assert!(!status.running);
    store.save_settings(&BenchmarkSettings {
        latency_url: "x".to_owned(),
        ..settings()
    });
    assert!(find_due(&store, &mut status, ScheduledWorker::Latency, 1_000).is_err());
}

#[test]
fn busy_lines_put_speed_tests_off() {
    let mut store = due_store();
    let mut status = BenchmarkTaskStatus::default();
    let pending = find_due(&store, &mut status, ScheduledWorker::Speed, 1_000)
        .expect("sound")
        .expect("due");
    assert_eq!(status.speed.phase.as_deref(), Some("checkingNetwork"));
    assert_eq!(status.total, 3);
    let mut round = 7;
    match open_cycle(&mut store, pending, &mut round, true, false) {
        CycleStart::Ended { completed, total } => assert_eq!((completed, total), (3, 3)),
        CycleStart::Running(_) => panic!("the line is busy"),
    }
    assert_eq!(round, 7);
    assert_eq!(store.nodes[0].node.next_download_at, 1_600);
    assert_eq!(store.nodes[0].node.next_upload_at, 1_600);
    assert_eq!(store.nodes[0].node.next_latency_at, 100);
}

#[test]
fn a_latency_round_visits_group_by_group() {
    let mut store = due_store();
    let mut status = BenchmarkTaskStatus::default();
    let mut cycle = begin(&mut store, &mut status, ScheduledWorker::Latency, 0);
    assert_eq!(status.phase.as_deref(), Some("preparing"));
    match cycle.advance(&mut store, false).expect("sound") {
        CycleStep::Prepare { profile_uid } => assert_eq!(profile_uid, "p"),
        other => panic!("unexpected step {other:?}"),
    }
    cycle.group_prepared(&mut status, "订阅 p");
    assert_eq!(status.latency.phase.as_deref(), Some("startingCore"));
    cycle.group_opened(vec!["节点 p2".to_owned()]);
    assert!(matches!(cycle.advance(&mut store, false).expect("sound"), CycleStep::Skipped));
    assert_eq!(store.nodes[0].node.next_latency_at, 1_600);
    match cycle.advance(&mut store, false).expect("sound") {
        CycleStep::Test { node } => assert_eq!(node.node_id, "p2"),
        other => panic!("unexpected step {other:?}"),
    }
    cycle.node_done();
    assert!(matches!(cycle.advance(&mut store, false).expect("sound"), CycleStep::Closed));
    assert!(matches!(
        cycle.advance(&mut store, false).expect("sound"),
        CycleStep::Prepare { .. }
    ));
    cycle.group_failed(&mut store, &mut status, PreparationStep::Profile, "坏了");
    assert_eq!(status.latency.last_error.as_deref(), Some("无法准备订阅延迟测试：坏了"));
    assert_eq!(status.latency.profile_name.as_deref(), Some("订阅 q"));
    assert_eq!(store.nodes[2].node.next_latency_at, 1_600);
    assert!(matches!(cycle.advance(&mut store, false).expect("sound"), CycleStep::Finished));
    assert_eq!((cycle.completed, cycle.total), (3, 3));
    finish_cycle(&mut status, ScheduledWorker::Latency, cycle.completed, cycle.total, false);
    assert!(!status.running);
    assert_eq!(status.phase.as_deref(), Some("idle"));
    assert_eq!(status.last_error.as_deref(), Some("无法准备订阅延迟测试：坏了"));
}

#[test]
fn cancelled_rounds_end_at_once() {
    let mut store = due_store();
    let mut status = BenchmarkTaskStatus::default();
    let mut cycle = begin(&mut store, &mut status, ScheduledWorker::Latency, 0);
    cycle.advance(&mut store, false).expect("sound");
    cycle.group_prepared(&mut status, "订阅 p");
    cycle.group_opened(vec!["节点 p1".to_owned(), "节点 p2".to_owned()]);
    assert!(matches!(cycle.advance(&mut store, true).expect("sound"), CycleStep::Closed));
    assert!(matches!(cycle.advance(&mut store, true).expect("sound"), CycleStep::Finished));
    assert_eq!(cycle.completed, 0);
    finish_cycle(&mut status, ScheduledWorker::Latency, 0, 3, true);
    assert_eq!(status.phase.as_deref(), Some("cancelled"));
}

#[test]
fn nodes_that_cannot_be_selected_fail_without_counting() {
    let mut store = due_store();
    let mut status = BenchmarkTaskStatus::default();
    let mut cycle = begin(&mut store, &mut status, ScheduledWorker::Speed, 0);
    cycle.advance(&mut store, false).expect("sound");
    cycle.group_prepared(&mut status, "订阅 p");
    cycle.group_opened(vec!["节点 p1".to_owned()]);
    let node = match cycle.advance(&mut store, false).expect("sound") {
        CycleStep::Test { node } => node,
        other => panic!("unexpected step {other:?}"),
    };
    cycle.selection_failed(&mut store, &node, "拒绝").expect("known");
    assert!(matches!(cycle.advance(&mut store, false).expect("sound"), CycleStep::Skipped));
    assert_eq!(store.measurements.len(), 4);
    assert_eq!(store.measurements[0].error.as_deref(), Some("临时内核无法选中节点：拒绝"));
    assert_eq!(store.measurements[1].kind, MeasurementKind::Upload);
    assert_eq!(store.measurements[2].error.as_deref(), Some("独立测速配置中找不到该节点"));
    assert!(store.measurements.iter().all(|result| !result.rank_eligible && !result.success));
    assert_eq!(store.measurements[0].trigger, "bootstrap");
    assert_eq!(store.nodes[0].node.next_download_at, 1_600);
    assert_eq!(cycle.completed, 2);
}

#[test]
fn failed_rounds_are_reported() {
    let mut status = BenchmarkTaskStatus::default();
    status.set_worker_status(ScheduledWorker::Speed, "download", None, None, 1, 2, None);
    status.set_worker_status(ScheduledWorker::Latency, "latency", Some("p"), Some("n"), 0, 1, None);
    fail_cycle(&mut status, ScheduledWorker::Latency, "磁盘已满");
    assert!(status.running && status.cancellable);
    assert_eq!(status.phase.as_deref(), Some("download"));
    assert_eq!(status.latency.phase.as_deref(), Some("failed"));
    assert_eq!(status.last_error.as_deref(), Some("磁盘已满"));
    assert_eq!((status.completed, status.total), (1, 2));
}

#[test]
fn latency_outcomes_plan_the_next_test() {
    let mut store = due_store();
    store
        .record_latency("p1", Ok(38), false, 40, &settings(), 1_000)
        .expect("known");
    assert_eq!(store.measurements[0].value.map(|value| value.bits), Some(38.0f64.to_bits()));
    assert_eq!((store.measurements[0].bytes_down, store.measurements[0].bytes_up), (16_384, 4_096));
    assert_eq!(store.nodes[0].node.next_latency_at, 1_900);
    store
        .record_latency("p2", Err("超时".to_owned()), true, 40, &settings(), 1_000)
        .expect("known");
    assert!(store.measurements[1].rank_eligible && !store.measurements[1].success);
    assert_eq!(store.measurements[1].error.as_deref(), Some("超时"));
    assert_eq!(store.nodes[1].node.next_latency_at, 1_900);
    store
        .record_latency("q1", Err("超时".to_owned()), false, 40, &settings(), 1_000)
        .expect("known");
    assert!(!store.measurements[2].rank_eligible);
    assert_eq!(store.measurements[2].trigger, "environment");
    assert_eq!((store.measurements[2].bytes_down, store.measurements[2].bytes_up), (32_768, 8_192));
    assert_eq!(
        store.measurements[2].error.as_deref(),
        Some("测试环境异常，不计入节点稳定率：超时")
    );
    assert_eq!(store.nodes[2].node.next_latency_at, 1_600);
    assert!(matches!(
        store.record_latency("x", Ok(1), true, 1, &settings(), 1_000),
        Err(BenchmarkError::ForeignNode)
    ));
}

#[test]
fn speed_plans_respect_the_day() {
    let mut store = due_store();
    let node = store.nodes[0].node.clone();
    match store
        .plan_speed_test(&node, MeasurementKind::Download, &settings(), None, 0, 90_000, 1_000)
        .expect("sound")
    {
        SpeedPlan::Test(options) => assert_eq!(options.url, settings().download_url),
        SpeedPlan::Postponed => panic!("the day has room"),
    }
    let tight = BenchmarkSettings {
        upload_daily_limit_bytes: 1_073_741_823,
        ..settings()
    };
    assert!(matches!(
        store.plan_speed_test(&node, MeasurementKind::Upload, &tight, None, 0, 90_000, 1_000),
        Ok(SpeedPlan::Postponed)
    ));
    assert_eq!(store.nodes[0].node.next_upload_at, 90_000);
    assert_eq!(store.nodes[0].node.upload_bootstrap_stage, 0);
    assert!(store.measurements.is_empty());
    assert!(matches!(
        store.plan_speed_test(&node, MeasurementKind::Download, &settings(), Some(false), 0, 90_000, 1_000),
        Ok(SpeedPlan::Postponed)
    ));
    assert_eq!(store.measurements[0].trigger, "environment");
    assert_eq!(store.nodes[0].node.next_download_at, 1_600);
    assert!(matches!(
        store.plan_speed_test(&node, MeasurementKind::Latency, &settings(), None, 0, 90_000, 1_000),
        Err(BenchmarkError::LatencyInSpeedQueue)
    ));
}

#[test]
fn speed_outcomes_move_the_series_on() {
    let mut store = due_store();
    let node = store.nodes[0].node.clone();
    store
        .record_speed_success(&node, &download_result(3_000), &settings(), 1_000)
        .expect("known");
    assert_eq!(store.measurements[0].value.map(|value| value.bits), Some(3_000.0f64.to_bits()));
    assert_eq!(store.measurements[0].bytes_down, 9_000);
    assert_eq!(store.nodes[0].node.download_bootstrap_stage, 1);
    assert_eq!(store.nodes[0].node.next_download_at, 4_600);
    let upload = SpeedTestResult::Upload(UploadSpeedTestResult {
        final_url: "u".to_owned(),
        status_code: 200,
        content_type: None,
        bytes_sent: 700,
        elapsed_ms: 2_000,
        average_bytes_per_second: 350,
    });
    store
        .record_speed_success(&node, &upload, &settings(), 1_000)
        .expect("known");
    assert_eq!((store.measurements[1].bytes_up, store.measurements[1].bytes_down), (700, 0));
    assert_eq!(store.nodes[0].node.bootstrap_stage, 1);
}

#[test]
fn failed_speed_tests_keep_their_traffic() {
    let mut store = due_store();
    let node = store.nodes[0].node.clone();
    let broken = SpeedTestError::Interrupted(SpeedTestFailure::new("断开".to_owned(), 500, 0, 2_000));
    store
        .record_speed_failure(&node, MeasurementKind::Download, &broken, true, 9, 1_000)
        .expect("known");
    assert_eq!(store.measurements[0].bytes_down, 500);
    assert_eq!(store.measurements[0].duration_ms, 2_000);
    assert!(store.measurements[0].rank_eligible);
    assert_eq!(store.nodes[0].node.next_download_at, 2_800);
    assert_eq!(store.nodes[0].node.download_bootstrap_stage, 0);
    let refused = SpeedTestError::Refused("没有地址".to_owned());
    store
        .record_speed_failure(&node, MeasurementKind::Upload, &refused, false, 9, 1_000)
        .expect("known");
    assert_eq!(store.measurements[1].duration_ms, 9);
    assert_eq!(
        store.measurements[1].error.as_deref(),
        Some("测速源或本机直连检查失败，不计入节点结果：没有地址")
    );
    assert!(!store.measurements[1].rank_eligible);
    assert_eq!(store.nodes[0].node.next_upload_at, 1_600);
}

fn steps(visit: &mut NodeVisit, status: &mut BenchmarkTaskStatus) -> Vec<VisitStep> {
    let mut made = Vec::new();
    loop {
        let step = visit.next(status, false);
        made.push(step);
        if step == VisitStep::Leave {
            return made;
        }
    }
}

#[test]
fn speed_visits_rest_around_their_tests() {
    let store = due_store();
    let mut status = BenchmarkTaskStatus::default();
    let node = store.nodes[0].node.clone();
    let mut visit = NodeVisit::new(ScheduledWorker::Speed, node.clone(), 1_000, 0, 3);
    assert_eq!(
        steps(&mut visit, &mut status),
        vec![
            VisitStep::AwaitTurn,
            VisitStep::Rest,
            VisitStep::TestLatency,
            VisitStep::TestDownload,
            VisitStep::Rest,
            VisitStep::TestUpload,
            VisitStep::Rest,
            VisitStep::Leave,
        ]
    );
    assert_eq!(status.speed.phase.as_deref(), Some("cooldown"));
    assert_eq!(status.node_name.as_deref(), Some("节点 p1"));
    let mut late = node.clone();
    late.next_download_at = 5_000;
    let mut visit = NodeVisit::new(ScheduledWorker::Speed, late, 1_000, 0, 3);
    assert_eq!(
        steps(&mut visit, &mut status)[3..],
        [VisitStep::TestUpload, VisitStep::Rest, VisitStep::Leave]
    );
    let mut visit = NodeVisit::new(ScheduledWorker::Latency, node, 1_000, 0, 3);
    assert_eq!(
        steps(&mut visit, &mut status),
        vec![
            VisitStep::AwaitTurn,
            VisitStep::Rest,
            VisitStep::TestLatency,
            VisitStep::Leave,
        ]
    );
}

#[test]
fn stopped_visits_leave() {
    let store = due_store();
    let mut status = BenchmarkTaskStatus::default();
    let mut visit = NodeVisit::new(ScheduledWorker::Speed, store.nodes[0].node.clone(), 1_000, 0, 3);
    assert_eq!(visit.next(&mut status, false), VisitStep::AwaitTurn);
    assert_eq!(status.phase.as_deref(), Some("waitingForOtherQueue"));
    assert_eq!(visit.next(&mut status, false), VisitStep::Rest);
    assert_eq!(visit.next(&mut status, true), VisitStep::Leave);
    assert_eq!(visit.next(&mut status, false), VisitStep::Leave);
}
