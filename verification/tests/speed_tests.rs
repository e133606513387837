use node_benchmark::delay::{plan_delay, reported_delay, tunnel_opened, uses_proxy, DelayRefusal};
use node_benchmark::errors::BenchmarkError;
use node_benchmark::speed::{
    adaptive_speed_timing, calculate_average_speed, normalize_speed_test_options, recent_speed_samples_stable,
    SpeedTestOptions, MILLISECOND, SECOND,
};
use node_benchmark::transfer::{
    accept_download_answer, AnswerHead, DownloadAction, DownloadEvent, DownloadTest, RequestOutcome, UploadTest,
};

fn options(url: &str) -> SpeedTestOptions {
    SpeedTestOptions {
        url: url.to_owned(),
        duration_ms: None,
        max_bytes: None,
        connect_timeout_ms: None,
        read_idle_timeout_ms: None,
    }
}

fn head() -> AnswerHead {
    AnswerHead {
        final_url: "https://example.com/".to_owned(),
        content_type: Some("text/plain".to_owned()),
        content_length: Some(9),
    }
}

fn answered(status_code: u16, status_text: &str) -> RequestOutcome {
    RequestOutcome::Answered {
        status_code,
        status_text: status_text.to_owned(),
    }
}

#[test]
fn long_test_uses_two_second_warmup_and_eight_second_minimum() {
    assert_eq!(adaptive_speed_timing(12_000), (2_000, 8_000));
    assert_eq!(adaptive_speed_timing(3_000), (750, 3_000));
}

#[test]
fn stable_detection_requires_three_close_non_zero_samples() {
    assert!(recent_speed_samples_stable(&[100, 103, 98]));
    assert!(!recent_speed_samples_stable(&[100, 130, 90]));
    assert!(!recent_speed_samples_stable(&[100, 101]));
}

#[test]
fn stability_looks_at_the_last_three_samples_only() {
    assert!(recent_speed_samples_stable(&[1, 100, 104, 108]));
    assert!(!recent_speed_samples_stable(&[0, 100, 100]));
    assert!(!recent_speed_samples_stable(&[96, 100, 105]));
    assert!(recent_speed_samples_stable(&[96, 100, 104]));
    assert!(!recent_speed_samples_stable(&[u64::MAX, u64::MAX, 0]));
    assert!(!recent_speed_samples_stable(&[u64::MAX, u64::MAX]));
}

#[test]
fn options_are_moved_into_their_ranges() {
    let normal = normalize_speed_test_options(options("  https://example.com/x ")).expect("there is an address");
    assert_eq!(normal.url, "https://example.com/x");
    assert_eq!(normal.duration_ms, Some(5_000));
    assert_eq!(normal.max_bytes, Some(33_554_432));
    assert_eq!(normal.connect_timeout_ms, Some(8_000));
    assert_eq!(normal.read_idle_timeout_ms, Some(3_000));
    let mut wild = options("a");
    wild.duration_ms = Some(1);
    wild.max_bytes = Some(u64::MAX);
    wild.connect_timeout_ms = Some(99_999);
    wild.read_idle_timeout_ms = Some(99_999);
    let normal = normalize_speed_test_options(wild).expect("there is an address");
    assert_eq!(normal.duration_ms, Some(1_000));
    assert_eq!(normal.max_bytes, Some(2_147_483_648));
    assert_eq!(normal.connect_timeout_ms, Some(30_000));
    assert_eq!(normal.read_idle_timeout_ms, Some(15_000));
    assert!(matches!(
        normalize_speed_test_options(options(" \u{3000}\n")),
        Err(BenchmarkError::EmptySpeedUrl)
    ));
}

#[test]
fn average_speed_is_bytes_per_second() {
    assert_eq!(calculate_average_speed(3_000, 1_500), 2_000);
    assert_eq!(calculate_average_speed(3_000, 0), 0);
    assert_eq!(calculate_average_speed(u64::MAX, 1_000), u64::MAX / 1_000);
}

#[test]
fn refused_downloads_report_no_traffic() {
    assert_eq!(accept_download_answer(answered(206, "206 Partial Content"), 5).ok(), Some(206));
    assert_eq!(accept_download_answer(answered(299, "299"), 5).ok(), Some(299));
    assert!(accept_download_answer(answered(300, "300 Multiple Choices"), 5).is_err());
    let failure = accept_download_answer(answered(429, "429 Too Many Requests"), 5).expect_err("refused");
    assert!(failure.message.contains("429"));
    assert_eq!((failure.bytes_down, failure.bytes_up, failure.elapsed_ms), (0, 0, 5));
    let failure = accept_download_answer(RequestOutcome::TimedOut, 6).expect_err("no answer");
    assert_eq!(failure.message, "测速请求超时");
}

#[test]
fn downloads_end_at_their_limit() {
    let mut wish = options("https://example.com/");
    wish.max_bytes = Some(2_000_000);
    let mut test = DownloadTest::new(wish).expect("there is an address");
    assert!(test.reads_on(0));
    assert!(matches!(
        test.step(DownloadEvent::Chunk { length: 1_500_000 }, 100 * MILLISECOND),
        DownloadAction::Continue
    ));
    assert!(test.reads_on(100 * MILLISECOND));
    assert!(matches!(
        test.step(DownloadEvent::Chunk { length: 600_000 }, 200 * MILLISECOND),
        DownloadAction::Continue
    ));
    assert!(!test.reads_on(200 * MILLISECOND));
    let result = test.result(200, head(), 1_000).expect("something arrived");
    assert_eq!(result.bytes_read, 2_100_000);
    assert_eq!(result.elapsed_ms, 1_000);
    assert_eq!(result.average_bytes_per_second, 2_100_000);
    assert_eq!(result.status_code, 200);
}

#[test]
fn stable_downloads_end_early_without_their_warmup() {
    let mut wish = options("https://example.com/");
    wish.duration_ms = Some(12_000);
    let mut test = DownloadTest::new(wish).expect("there is an address");
    for second in 1..8 {
        assert!(matches!(
            test.step(DownloadEvent::Chunk { length: 1_000 }, second * SECOND),
            DownloadAction::Continue
        ));
    }
    assert!(matches!(
        test.step(DownloadEvent::Chunk { length: 1_000 }, 8 * SECOND),
        DownloadAction::Finish
    ));
    let result = test.result(200, head(), 8_000).expect("something arrived");
    assert_eq!(result.bytes_read, 8_000);
    assert_eq!(result.average_bytes_per_second, 1_000);
}

#[test]
fn downloads_without_data_fail() {
    let test = DownloadTest::new(options("https://example.com/")).expect("there is an address");
    let failure = test.result(200, head(), 7).expect_err("nothing arrived");
    assert_eq!(failure.message, "未接收任何测速数据");
    let mut test = DownloadTest::new(options("https://example.com/")).expect("there is an address");
    assert!(matches!(test.step(DownloadEvent::Idle, SECOND), DownloadAction::Stalled));
}

#[test]
fn broken_downloads_report_what_they_moved() {
    let mut test = DownloadTest::new(options("https://example.com/")).expect("there is an address");
    test.step(DownloadEvent::Chunk { length: 500 }, SECOND);
    match test.step(
        DownloadEvent::ReadFailed {
            message: "断开".to_owned(),
        },
        2 * SECOND,
    ) {
        DownloadAction::Fail { failure } => {
            assert_eq!(failure.bytes_down, 500);
            assert_eq!(failure.bytes_up, 0);
            assert_eq!(failure.elapsed_ms, 2_000);
            assert!(failure.message.contains("断开"));
        }
        other => panic!("unexpected step {other:?}"),
    }
}

#[test]
fn downloads_are_repeated_while_time_is_left() {
    let mut test = DownloadTest::new(options("https://example.com/")).expect("there is an address");
    test.step(DownloadEvent::Chunk { length: 500 }, SECOND);
    assert!(matches!(
        test.step(DownloadEvent::BodyEnded, 2 * SECOND),
        DownloadAction::Repeat { .. }
    ));
    assert!(matches!(
        test.step(
            DownloadEvent::Repeated {
                outcome: answered(200, "200 OK")
            },
            3 * SECOND
        ),
        DownloadAction::Continue
    ));
    assert!(!test.reads_on(6 * SECOND));
}

#[test]
fn uploads_stay_within_their_limit() {
    let mut wish = options("https://example.com/");
    wish.max_bytes = Some(1_048_576);
    let mut test = UploadTest::new(wish).expect("there is an address");
    let mut sent: u64 = 0;
    let mut chunks: u64 = 0;
    while let Some(length) = test.step(chunks * MILLISECOND) {
        assert!(length <= 65_536);
        sent += length;
        chunks += 1;
    }
    assert_eq!(sent, 1_048_576);
    assert_eq!(chunks, 16);
    let result = test.result(answered(200, "200 OK"), head(), 500).expect("accepted");
    assert_eq!(result.bytes_sent, 1_048_576);
    assert_eq!(test.request_timeout_ms(), 5_000 + 8_000 + 3_000);
}

#[test]
fn refused_uploads_report_what_they_sent() {
    let mut test = UploadTest::new(options("https://example.com/")).expect("there is an address");
    test.step(0);
    let failure = test
        .result(RequestOutcome::TimedOut, head(), 900)
        .expect_err("no answer");
    assert_eq!(failure.message, "测速上传超时");
    assert_eq!((failure.bytes_down, failure.bytes_up, failure.elapsed_ms), (0, 65_536, 900));
    let idle = UploadTest::new(options("https://example.com/")).expect("there is an address");
    let failure = idle
        .result(answered(200, "200 OK"), head(), 900)
        .expect_err("nothing was sent");
    assert_eq!(failure.message, "未发送任何测速数据");
}

#[test]
fn delay_plans_follow_scheme_and_proxy() {
    let direct = plan_delay("https://example.com/a", None).expect("the address is sound");
    assert!(direct.https);
    assert_eq!(direct.address, "example.com:443");
    assert_eq!(direct.request, None);
    let tunnel = plan_delay("https://example.com:8443/a", Some(7890)).expect("the address is sound");
    assert_eq!(tunnel.address, "127.0.0.1:7890");
    assert_eq!(
        tunnel.request.as_deref(),
        Some("CONNECT example.com:8443 HTTP/1.1\r\nHost: example.com:8443\r\n\r\n")
    );
    let plain = plan_delay("http://example.com/a", None).expect("the address is sound");
    assert!(!plain.https);
    assert_eq!(plain.address, "example.com:80");
    assert_eq!(
        plain.request.as_deref(),
        Some("HEAD / HTTP/1.1\r\nHost: example.com\r\nConnection: close\r\n\r\n")
    );
    let proxied = plan_delay("http://example.com/a", Some(7890)).expect("the address is sound");
    assert_eq!(
        proxied.request.as_deref(),
        Some("HEAD http://example.com/a HTTP/1.1\r\nHost: example.com\r\nConnection: close\r\n\r\n")
    );
    assert!(matches!(plan_delay("nowhere", None), Err(DelayRefusal::Unparsable { .. })));
    assert!(matches!(plan_delay("data:text/plain,x", None), Err(DelayRefusal::NoHost)));
}

#[test]
fn tunnels_open_with_two_hundred() {
    assert!(tunnel_opened(b"HTTP/1.1 200 Connection established\r\n\r\n"));
    assert!(!tunnel_opened(b"HTTP/1.1 403 Forbidden\r\n\r\n"));
    assert!(!tunnel_opened(b"20"));
}

#[test]
fn a_delay_is_never_zero() {
    assert_eq!(reported_delay(0), 1);
    assert_eq!(reported_delay(38), 38);
    assert_eq!(reported_delay(0x1_0000_0000), 1);
}

#[test]
fn the_proxy_is_used_where_one_switch_is_on() {
    assert!(uses_proxy(Some(true), None));
    assert!(uses_proxy(Some(false), Some(true)));
    assert!(!uses_proxy(None, Some(false)));
}
