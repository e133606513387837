use node_benchmark::floats::FloatBits;
use node_benchmark::models::{
    BenchmarkWindow, MeasurementKind, MeasurementRecord, ParticipationState, StoredNode,
};
use node_benchmark::rankings::{
    build_rankings, collect_samples, confidence_label, MetricFigures, NodeFigures, RankingFigures, ReferenceFigures,
};
use node_benchmark::settings::BenchmarkSettings;
use node_benchmark::traffic::{
    add_safety_margin, build_traffic_summary, median_u64, planned_interval_runs, planned_speed_runs,
};

fn bits(value: f64) -> FloatBits {
    FloatBits { bits: value.to_bits() }
}

fn node(id: &str) -> StoredNode {
    StoredNode {
        node_id: id.to_owned(),
        profile_uid: "p".to_owned(),
        profile_name: "订阅".to_owned(),
        node_name: format!("节点 {id}"),
        node_type: "VLESS".to_owned(),
        fingerprint: id.to_owned(),
        state: ParticipationState::Participating,
        manual_override: true,
        first_seen_at: 0,
        last_seen_at: 0,
        bootstrap_stage: 3,
        next_latency_at: 0,
        next_speed_at: 0,
        download_bootstrap_stage: 3,
        upload_bootstrap_stage: 3,
        next_download_at: 0,
        next_upload_at: 0,
        snoozed_until: None,
        ignore_reminder: false,
    }
}

fn record(id: &str, kind: MeasurementKind, value: f64, created_at: i64) -> MeasurementRecord {
    MeasurementRecord {
        node_id: id.to_owned(),
        kind,
        success: true,
        value: Some(bits(value)),
        bytes_down: 1_000,
        bytes_up: 300,
        duration_ms: 1,
        trigger: "scheduled".to_owned(),
        rank_eligible: true,
        error: None,
        created_at,
    }
}

fn metric(value: f64) -> MetricFigures {
    MetricFigures {
        median: bits(value),
        average: bits(value),
        p95: bits(value),
    }
}

fn figures(latency: f64, download: f64, upload: f64) -> NodeFigures {
    NodeFigures {
        latency: metric(latency),
        download: metric(download),
        upload: metric(upload),
        stability: bits(100.0),
        jitter: bits(0.0),
    }
}

fn ranking(nodes: Vec<NodeFigures>) -> RankingFigures {
    RankingFigures {
        day: nodes.clone(),
        shown: nodes,
        reference: ReferenceFigures {
            reference: bits(40.0),
            near: bits(120.0),
            double: bits(80.0),
        },
    }
}

/// Twenty results of each kind for every node within the last day.
fn full_records(nodes: &[StoredNode], now: i64) -> Vec<MeasurementRecord> {
    let mut records = Vec::new();
    for node in nodes {
        for step in 0..20 {
            for kind in [MeasurementKind::Latency, MeasurementKind::Download, MeasurementKind::Upload] {
                records.push(record(&node.node_id, kind, 50.0, now - 100 - step));
            }
        }
    }
    records
}

#[test]
fn integer_median_handles_even_and_odd_samples() {
    assert_eq!(median_u64(vec![3, 1, 2]), Some(2));
    assert_eq!(median_u64(vec![4, 2, 1, 3]), Some(2));
}

#[test]
fn the_median_of_the_largest_samples_is_exact() {
    assert_eq!(median_u64(vec![u64::MAX, u64::MAX]), Some(u64::MAX));
    assert_eq!(median_u64(vec![u64::MAX, 0, u64::MAX - 2, u64::MAX]), Some(u64::MAX - 1));
    assert_eq!(median_u64(vec![u64::MAX]), Some(u64::MAX));
    assert_eq!(median_u64(Vec::new()), None);
}

#[test]
fn confidence_requires_successes_from_both_speed_directions() {
    let upload = MeasurementRecord {
        node_id: "node-a".to_owned(),
        kind: MeasurementKind::Upload,
        success: true,
        value: Some(bits(1.0)),
        bytes_down: 0,
        bytes_up: 1,
        duration_ms: 1,
        trigger: "bootstrap".to_owned(),
        rank_eligible: true,
        error: None,
        created_at: 100,
    };
    let now = 5 * 60 * 60;
    assert_eq!(confidence_label(0, &[&upload, &upload], now), "temporary");

    let download = MeasurementRecord {
        kind: MeasurementKind::Download,
        bytes_down: 1,
        bytes_up: 0,
        ..upload.clone()
    };
    assert_eq!(confidence_label(0, &[&download, &upload], now), "initial");
}

#[test]
fn confidence_grows_with_age_and_samples() {
    let down = record("a", MeasurementKind::Download, 1.0, 1);
    let up = record("a", MeasurementKind::Upload, 1.0, 1);
    let two = [&down, &down, &up, &up];
    assert_eq!(confidence_label(0, &two, 86_399), "initial");
    assert_eq!(confidence_label(0, &two, 86_400), "daily");
    let four = [&down, &down, &down, &down, &up, &up, &up, &up];
    assert_eq!(confidence_label(0, &four, 604_800), "longTerm");
    assert_eq!(confidence_label(0, &two, 604_800), "daily");
    assert_eq!(confidence_label(0, &[], 604_800), "temporary");
}

#[test]
fn medians_and_margins() {
    assert_eq!(median_u64(Vec::new()), None);
    assert_eq!(median_u64(vec![7]), Some(7));
    assert_eq!(add_safety_margin(1_005), 1_105);
    assert_eq!(add_safety_margin(u64::MAX), u64::MAX);
}

#[test]
fn interval_runs_fill_the_day() {
    assert_eq!(planned_interval_runs(0, 900, 1_000, 1_000), 0);
    assert_eq!(planned_interval_runs(0, 900, 1_000, 1_001), 1);
    assert_eq!(planned_interval_runs(0, 900, 1_000, 1_900), 1);
    assert_eq!(planned_interval_runs(0, 900, 1_000, 1_901), 2);
    assert_eq!(planned_interval_runs(1_500, 900, 1_000, 1_901), 1);
}

#[test]
fn speed_runs_follow_the_series() {
    let settings = BenchmarkSettings {
        speed_interval_hours: 2,
        ..BenchmarkSettings::default()
    };
    assert_eq!(planned_speed_runs(0, 0, &settings, 0, 14_401), 3);
    assert_eq!(planned_speed_runs(0, 0, &settings, 0, 14_400), 2);
    assert_eq!(planned_speed_runs(3, 0, &settings, 0, 14_401), 3);
    assert_eq!(planned_speed_runs(3, 20_000, &settings, 0, 14_401), 0);
}

#[test]
fn traffic_is_estimated_with_a_margin() {
    let settings = BenchmarkSettings {
        latency_interval_minutes: 15,
        speed_interval_hours: 12,
        profile_traffic_multipliers: vec![("p".to_owned(), bits(1.5))],
        ..BenchmarkSettings::default()
    };
    let nodes = vec![node("a")];
    let records = vec![
        record("a", MeasurementKind::Download, 1.0, 0),
        record("a", MeasurementKind::Upload, 1.0, 0),
    ];
    let summary = build_traffic_summary(
        &nodes,
        &records,
        &[("p".to_owned(), "订阅".to_owned(), 1_000, 300)],
        &settings,
        100,
        1_000,
    )
    .expect("the sums fit");
    // Two latency tests and one test in each direction are left.
    assert_eq!(summary.profiles.len(), 1);
    let future_down: u64 = 2 * 16_384 + 1_000;
    let future_up: u64 = 2 * 4_096 + 300;
    assert_eq!(summary.estimated_download_bytes, 1_000 + future_down + future_down / 10);
    assert_eq!(summary.estimated_upload_bytes, 300 + future_up + future_up / 10);
    assert_eq!((summary.actual_download_bytes, summary.actual_upload_bytes), (1_000, 300));
    assert_eq!(summary.profiles[0].multiplier, bits(1.5));
    assert_eq!(summary.download_limit_bytes, settings.download_daily_limit_bytes);
}

#[test]
fn unconfirmed_nodes_cost_nothing() {
    let mut waiting = node("a");
    waiting.manual_override = false;
    let summary = build_traffic_summary(&[waiting], &[], &[], &BenchmarkSettings::default(), 100, 1_000)
        .expect("the sums fit");
    assert!(summary.profiles.is_empty());
    assert_eq!(summary.estimated_download_bytes, 0);
    for state in [
        ParticipationState::Excluded,
        ParticipationState::Changed,
        ParticipationState::Removed,
    ] {
        let mut aside = node("a");
        aside.state = state;
        let summary = build_traffic_summary(&[aside], &[], &[], &BenchmarkSettings::default(), 100, 1_000)
            .expect("the sums fit");
        assert!(summary.profiles.is_empty());
    }
    let over = build_traffic_summary(
        &[],
        &[],
        &[
            ("p".to_owned(), "a".to_owned(), u64::MAX, 0),
            ("q".to_owned(), "b".to_owned(), 1, 0),
        ],
        &BenchmarkSettings::default(),
        0,
        0,
    );
    assert!(over.is_err());
}

#[test]
fn observed_nodes_cost_their_latency_tests_only() {
    let estimate = |state: ParticipationState| {
        let mut watched = node("a");
        watched.state = state;
        build_traffic_summary(&[watched], &[], &[], &BenchmarkSettings::default(), 100, 1_000)
            .expect("the sums fit")
            .estimated_download_bytes
    };
    let latency: u64 = 2 * 16_384;
    assert_eq!(estimate(ParticipationState::Observe), latency + latency / 10);
    assert!(estimate(ParticipationState::Observe) < estimate(ParticipationState::Participating));
}

#[test]
fn official_nodes_succeed_in_95_of_100_latency_tests() {
    let now = 1_000_000;
    let nodes = vec![node("a")];
    let official = |failures: usize, successes: usize, stability: f64| {
        let mut records = full_records(&nodes, now);
        for step in 20..successes as i64 {
            records.push(record("a", MeasurementKind::Latency, 50.0, now - 100 - step));
        }
        for _ in 0..failures {
            let mut failed = record("a", MeasurementKind::Latency, 50.0, now - 90);
            failed.success = false;
            failed.value = None;
            records.push(failed);
        }
        let mut numbers = figures(50.0, 50.0, 50.0);
        numbers.stability = bits(stability);
        let (rows, _, _) = build_rankings(
            &nodes,
            &records,
            BenchmarkWindow::OneDay,
            &BenchmarkSettings::default(),
            now,
            &ranking(vec![numbers]),
        );
        assert_eq!(rows[0].latency_attempts, failures + successes);
        assert_eq!(rows[0].latency_successes, successes);
        rows[0].official_eligible
    };
    assert!(official(0, 20, 100.0));
    assert!(official(1, 20, 95.0));
    assert!(!official(2, 20, 100.0));
    assert!(official(2, 38, 0.0));
    assert!(!official(2, 37, 100.0));
}

#[test]
fn samples_are_sorted_and_counted() {
    let nodes = vec![node("a")];
    let mut failed = record("a", MeasurementKind::Latency, 1.0, 60);
    failed.success = false;
    failed.value = None;
    failed.error = Some("超时".to_owned());
    let mut foreign = record("a", MeasurementKind::Latency, 1.0, 60);
    foreign.rank_eligible = false;
    let records = vec![
        record("a", MeasurementKind::Latency, 70.0, 55),
        record("a", MeasurementKind::Latency, 30.0, 56),
        record("a", MeasurementKind::Latency, 10.0, 40),
        failed,
        foreign,
    ];
    let samples = collect_samples(&nodes, &records, 50);
    assert_eq!(samples[0].latency, vec![bits(30.0), bits(70.0)]);
    assert_eq!((samples[0].latency_attempts, samples[0].latency_successes), (3, 2));
    assert!(samples[0].download.is_empty());
}

#[test]
fn ranks_follow_the_medians() {
    let now = 1_000_000;
    let nodes: Vec<StoredNode> = ["a", "b", "c", "d"].iter().map(|id| node(id)).collect();
    let records = full_records(&nodes, now);
    let (rows, champions, reminders) = build_rankings(
        &nodes,
        &records,
        BenchmarkWindow::OneDay,
        &BenchmarkSettings::default(),
        now,
        &ranking(vec![
            figures(40.0, 10.0, 10.0),
            figures(50.0, 40.0, 30.0),
            figures(60.0, 30.0, 20.0),
            figures(300.0, 20.0, 40.0),
        ]),
    );
    let of = |id: &str| rows.iter().find(|row| row.node_id == id).expect("listed");
    assert_eq!(of("a").latency.rank, Some(1));
    assert_eq!(of("d").latency.rank, Some(4));
    assert_eq!(of("b").download.rank, Some(1));
    assert_eq!(of("d").upload.rank, Some(1));
    assert_eq!(of("b").total_rank_score, Some(1 + 2 + 2));
    assert_eq!(rows[0].node_id, "b");
    assert!(rows[0].official_eligible);
    let best = champions.overall.expect("there is a winner");
    assert_eq!(best.node_id, "b");
    assert!(best.official);
    assert_eq!(best.value, bits(5.0));
    assert_eq!(champions.latency.expect("there is a winner").node_id, "a");
    assert_eq!(champions.download.expect("there is a winner").node_id, "b");
    assert_eq!(champions.upload.expect("there is a winner").node_id, "d");
    assert_eq!(reminders.len(), 1);
    assert_eq!(reminders[0].node_id, "d");
    assert_eq!((reminders[0].latency_rank, reminders[0].total_nodes), (4, 4));
    assert_eq!(reminders[0].reference_latency, bits(40.0));
    assert_eq!(reminders[0].saved_download_bytes_per_day, 2 * 1_000);
    assert_eq!(reminders[0].saved_upload_bytes_per_day, 2 * 300);
}

#[test]
fn reminders_can_be_snoozed_and_ignored() {
    let now = 1_000_000;
    let mut nodes: Vec<StoredNode> = ["a", "b", "c", "d"].iter().map(|id| node(id)).collect();
    let records = full_records(&nodes, now);
    let numbers = || {
        ranking(vec![
            figures(40.0, 10.0, 10.0),
            figures(50.0, 40.0, 30.0),
            figures(60.0, 30.0, 20.0),
            figures(300.0, 20.0, 40.0),
        ])
    };
    let count = |nodes: &[StoredNode]| {
        build_rankings(
            nodes,
            &records,
            BenchmarkWindow::LongTerm,
            &BenchmarkSettings::default(),
            now,
            &numbers(),
        )
        .2
        .len()
    };
    assert_eq!(count(&nodes), 1);
    nodes[3].snoozed_until = Some(now + 1);
    assert_eq!(count(&nodes), 0);
    nodes[3].snoozed_until = Some(now);
    assert_eq!(count(&nodes), 1);
    nodes[3].ignore_reminder = true;
    assert_eq!(count(&nodes), 0);
}

#[test]
fn reminders_are_the_same_for_every_window() {
    let now = 1_000_000;
    let nodes: Vec<StoredNode> = ["a", "b", "c", "d"].iter().map(|id| node(id)).collect();
    let records = full_records(&nodes, now);
    let settings = BenchmarkSettings::default();
    for window in [
        BenchmarkWindow::SixHours,
        BenchmarkWindow::TwelveHours,
        BenchmarkWindow::OneDay,
        BenchmarkWindow::SevenDays,
        BenchmarkWindow::LongTerm,
    ] {
        let mut numbers = ranking(vec![
            figures(40.0, 10.0, 10.0),
            figures(50.0, 40.0, 30.0),
            figures(60.0, 30.0, 20.0),
            figures(300.0, 20.0, 40.0),
        ]);
        numbers.shown = vec![
            figures(300.0, 10.0, 10.0),
            figures(60.0, 40.0, 30.0),
            figures(50.0, 30.0, 20.0),
            figures(40.0, 20.0, 40.0),
        ];
        let (_, champions, reminders) = build_rankings(&nodes, &records, window, &settings, now, &numbers);
        assert_eq!(champions.latency.expect("a node was measured").node_id, "d");
        assert_eq!(reminders.len(), 1);
        assert_eq!(reminders[0].node_id, "d");
    }
}

#[test]
fn excluded_nodes_are_not_ranked() {
    let now = 1_000_000;
    let mut nodes: Vec<StoredNode> = ["a", "b"].iter().map(|id| node(id)).collect();
    nodes[0].state = ParticipationState::Observe;
    let records = full_records(&nodes, now);
    let (rows, champions, _) = build_rankings(
        &nodes,
        &records,
        BenchmarkWindow::OneDay,
        &BenchmarkSettings::default(),
        now,
        &ranking(vec![figures(1.0, 9.0, 9.0), figures(50.0, 4.0, 3.0)]),
    );
    let of = |id: &str| rows.iter().find(|row| row.node_id == id).expect("listed");
    assert_eq!(of("a").latency.rank, None);
    assert_eq!(of("b").latency.rank, Some(1));
    assert_eq!(champions.latency.expect("there is a winner").node_id, "b");
}
