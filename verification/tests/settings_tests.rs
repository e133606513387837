use node_benchmark::errors::{BenchmarkError, UrlField};
use node_benchmark::floats::FloatBits;
use node_benchmark::manager::{check_request, check_settings};
use node_benchmark::models::{BenchmarkSaveRequest, BenchmarkWindow};
use node_benchmark::settings::{BenchmarkSettings, DEFAULT_DOWNLOAD_URL, LEGACY_DOWNLOAD_URL};
use node_benchmark::text::{occurs, split_keywords, trim};

fn bits(value: f64) -> FloatBits {
    FloatBits { bits: value.to_bits() }
}

#[test]
fn legacy_cloudflare_download_url_is_migrated() {
    let settings = BenchmarkSettings {
        download_url: LEGACY_DOWNLOAD_URL.to_owned(),
        ..BenchmarkSettings::default()
    };

    let normalized = settings.normalized().expect("旧下载地址应可自动迁移");

    assert_eq!(normalized.download_url, DEFAULT_DOWNLOAD_URL);
}

#[test]
fn initial_settings_are_usable() {
    let settings = BenchmarkSettings::default().normalized().expect("usable");
    assert!(!settings.enabled);
    assert_eq!(settings.latency_interval_minutes, 15);
    assert_eq!(settings.speed_interval_hours, 12);
    assert_eq!(settings.speed_duration_ms, 12_000);
    assert_eq!(settings.speed_max_bytes, 1_073_741_824);
    assert_eq!(settings.download_daily_limit_bytes, 10_737_418_240);
    assert_eq!(settings.upload_daily_limit_bytes, 3_221_225_472);
}

#[test]
fn values_are_moved_into_their_ranges() {
    let settings = BenchmarkSettings {
        selected_profile_uids: vec!["b".to_owned(), "a".to_owned(), "b".to_owned()],
        latency_interval_minutes: 1,
        speed_interval_hours: 999,
        speed_duration_ms: 1,
        speed_max_bytes: u64::MAX,
        latency_url: " http://example.com/204 ".to_owned(),
        profile_traffic_multipliers: vec![
            ("a".to_owned(), bits(0.01)),
            ("b".to_owned(), bits(250.0)),
            ("c".to_owned(), bits(-1.0)),
            ("d".to_owned(), bits(f64::NAN)),
            ("e".to_owned(), bits(1.5)),
            ("f".to_owned(), bits(f64::INFINITY)),
            ("g".to_owned(), bits(0.0)),
        ],
        ..BenchmarkSettings::default()
    };
    let normal = settings.normalized().expect("usable");
    assert_eq!(normal.selected_profile_uids, vec!["a".to_owned(), "b".to_owned()]);
    assert_eq!(normal.latency_interval_minutes, 5);
    assert_eq!(normal.speed_interval_hours, 168);
    assert_eq!(normal.speed_duration_ms, 3_000);
    assert_eq!(normal.speed_max_bytes, 2_147_483_648);
    assert_eq!(normal.latency_url, "http://example.com/204");
    assert_eq!(
        normal.profile_traffic_multipliers,
        vec![
            ("a".to_owned(), bits(0.1)),
            ("b".to_owned(), bits(100.0)),
            ("e".to_owned(), bits(1.5)),
        ]
    );
    let again = normal.clone().normalized().expect("usable");
    assert_eq!(format!("{again:?}"), format!("{normal:?}"));
}

#[test]
fn unusable_addresses_are_refused_in_order() {
    let settings = BenchmarkSettings {
        download_url: "no address".to_owned(),
        upload_url: "ftp://example.com".to_owned(),
        ..BenchmarkSettings::default()
    };
    let error = settings.normalized().expect_err("no address");
    assert!(matches!(
        &error,
        BenchmarkError::InvalidUrl {
            field: UrlField::Download,
            ..
        }
    ));
    assert_eq!(error.message(), "下载测速地址无效: relative URL without a base");
    let settings = BenchmarkSettings {
        upload_url: "ftp://example.com".to_owned(),
        ..BenchmarkSettings::default()
    };
    let error = settings.normalized().expect_err("wrong scheme");
    assert_eq!(error.message(), "上传测速地址只支持 HTTP 或 HTTPS");
}

#[test]
fn wishes_are_checked_before_they_are_stored() {
    assert!(matches!(
        check_settings(BenchmarkSettings::default()),
        Err(BenchmarkError::NoProfileSelected)
    ));
    let wish = || BenchmarkSettings {
        enabled: true,
        selected_profile_uids: vec!["a".to_owned()],
        ..BenchmarkSettings::default()
    };
    assert!(!check_settings(wish()).expect("sound").enabled);
    assert!(matches!(
        check_request(BenchmarkSaveRequest {
            settings: wish(),
            participating_node_ids: Vec::new(),
        }),
        Err(BenchmarkError::NoParticipantChosen)
    ));
    let checked = check_request(BenchmarkSaveRequest {
        settings: wish(),
        participating_node_ids: vec!["n".to_owned()],
    })
    .expect("sound");
    assert!(!checked.settings.enabled);
    assert_eq!(checked.participating_node_ids, vec!["n".to_owned()]);
}

#[test]
fn windows_start_before_now() {
    assert_eq!(BenchmarkWindow::SixHours.start_timestamp(100_000), 78_400);
    assert_eq!(BenchmarkWindow::TwelveHours.start_timestamp(100_000), 56_800);
    assert_eq!(BenchmarkWindow::OneDay.start_timestamp(100_000), 13_600);
    assert_eq!(BenchmarkWindow::SevenDays.start_timestamp(1_000_000), 395_200);
    assert_eq!(BenchmarkWindow::LongTerm.start_timestamp(100_000), 0);
}

#[test]
fn texts_are_trimmed_and_split() {
    assert_eq!(trim("\u{3000} a b\t\n"), "a b");
    assert_eq!(
        split_keywords("香港| 日本,;x"),
        vec!["香港".to_owned(), " 日本".to_owned(), String::new(), "x".to_owned()]
    );
    let text: Vec<char> = "abcd".chars().collect();
    let part: Vec<char> = "bc".chars().collect();
    assert!(occurs(&part, &text));
    assert!(!occurs(&text, &part));
}

#[test]
fn integers_become_their_nearest_doubles() {
    for value in [0u64, 1, 38, 1_000_003, (1 << 53) + 1, u64::MAX, 0xffff_ffff_ffff_fc00] {
        assert_eq!(FloatBits::from_u64(value).bits, (value as f64).to_bits());
    }
}

#[test]
fn doubles_are_ordered_like_numbers() {
    let values = [f64::NEG_INFINITY, -2.5, -0.0, 0.0, 1.0, 1.5, f64::INFINITY];
    for left in values {
        for right in values {
            assert_eq!(bits(left).is_below(&bits(right)), left < right);
            assert_eq!(bits(left).is_at_least(&bits(right)), left >= right);
            assert_eq!(bits(left).rank() < bits(right).rank(), left.total_cmp(&right).is_lt());
        }
    }
    assert!(!bits(f64::NAN).is_at_least(&bits(1.0)));
    assert!(!bits(f64::INFINITY).is_finite());
}
