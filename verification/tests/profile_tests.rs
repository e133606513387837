use node_benchmark::controller::{
    controller_url, mode_patch, proxy_endpoint, runtime_config, ReadyReply, ReadyStep, ReadyWatch, READY_ATTEMPTS,
};
use node_benchmark::errors::BenchmarkError;
use node_benchmark::profile::{
    absolutize_provider_paths, available_profiles, build_isolated_config, direct_proxy_fingerprints,
    is_special_proxy, prepare_profile, provider_paths, provider_proxy_fingerprints, stable_hash, testable_name,
    PreparedProfile, ProfileItem, ProxyFingerprint, BENCHMARK_GROUP_NAME,
};
use node_benchmark::replies::{list_nodes, reply_delay};
use serde_yaml_ng::Mapping;

fn mapping(source: &str) -> Mapping {
    serde_yaml_ng::from_str(source).expect("测试 YAML 应可解析")
}

fn json(source: &str) -> serde_json::Value {
    serde_json::from_str(source).expect("the reply is JSON")
}

fn print_of<'a>(prints: &'a [ProxyFingerprint], name: &str) -> &'a ProxyFingerprint {
    prints.iter().find(|print| print.name == name).expect("listed")
}

#[test]
fn isolated_config_discards_user_listeners_and_keeps_proxy_sources() {
    let source = mapping(
        r"
mixed-port: 7890
tun:
  enable: true
proxies:
  - name: HK 01
    type: ss
    server: example.com
    port: 443
    cipher: aes-128-gcm
    password: secret
",
    );
    let result = build_isolated_config(&source, 19000).expect("应生成隔离配置");
    assert_eq!(result.get("mixed-port").and_then(|value| value.as_i64()), Some(19000));
    assert!(!result.contains_key("tun"));
    let groups = result
        .get("proxy-groups")
        .and_then(|value| value.as_sequence())
        .expect("应创建测速组");
    assert_eq!(
        groups[0]
            .as_mapping()
            .and_then(|group| group.get("name"))
            .and_then(|value| value.as_str()),
        Some(BENCHMARK_GROUP_NAME)
    );
}

#[test]
fn direct_fingerprint_ignores_display_name() {
    let first = mapping(
        "proxies:\n  - { name: Old, type: ss, server: example.com, port: 443, cipher: aes-128-gcm, password: secret }",
    );
    let second = mapping(
        "proxies:\n  - { name: New, type: ss, server: example.com, port: 443, cipher: aes-128-gcm, password: secret }",
    );
    let first_prints = direct_proxy_fingerprints(&first).expect("应生成指纹");
    let second_prints = direct_proxy_fingerprints(&second).expect("应生成指纹");
    let first_hash = print_of(&first_prints, "Old").fingerprint.clone();
    let second_hash = print_of(&second_prints, "New").fingerprint.clone();
    assert_eq!(first_hash, second_hash);
}

#[test]
fn another_server_gives_another_fingerprint() {
    let first = mapping("proxies:\n  - { name: A, type: ss, server: one.example, port: 443 }");
    let second = mapping("proxies:\n  - { name: A, type: ss, server: two.example, port: 443 }");
    assert_ne!(
        direct_proxy_fingerprints(&first).expect("readable")[0].fingerprint,
        direct_proxy_fingerprints(&second).expect("readable")[0].fingerprint
    );
}

#[test]
fn hashes_are_those_of_fnv() {
    assert_eq!(stable_hash(b""), "cbf29ce484222325");
    assert_eq!(stable_hash(b"a"), "af63dc4c8601ec8c");
    assert_eq!(stable_hash(b"foobar"), "85944171f73967e8");
}

#[test]
fn profiles_without_proxies_are_refused() {
    assert!(matches!(
        build_isolated_config(&mapping("mode: rule"), 1),
        Err(BenchmarkError::NoProxySource)
    ));
}

#[test]
fn special_exits_are_no_proxies() {
    assert!(is_special_proxy("DIRECT", "Direct"));
    assert!(is_special_proxy("group", "Selector"));
    assert!(is_special_proxy("x", "REJECTDROP"));
    assert!(!is_special_proxy("direct", "Vless"));
}

fn prepared(source: &str, provider_sources: &[String]) -> PreparedProfile {
    let config = build_isolated_config(&mapping(source), 1).expect("there are proxies");
    prepare_profile("uid", "订阅A", config, provider_sources).expect("the configuration can be written")
}

#[test]
fn listed_nodes_become_nodes_of_the_profile() {
    let profile = prepared(
        "proxies:\n  - { name: HK, type: ss, server: a }\n  - { name: HK copy, type: ss, server: a }",
        &[],
    );
    assert!(!profile.has_proxy_providers());
    let nodes = profile.discovered_nodes(&[
        ("DIRECT".to_owned(), "Direct".to_owned()),
        ("HK".to_owned(), "Shadowsocks".to_owned()),
        ("HK copy".to_owned(), "Shadowsocks".to_owned()),
        ("JP".to_owned(), "Vless".to_owned()),
    ]);
    assert_eq!(nodes.len(), 3);
    assert_eq!(nodes[0].node_name, "HK");
    assert_eq!(nodes[0].node_type, "ss");
    assert_eq!(nodes[0].node_id, format!("uid:{}", nodes[0].fingerprint));
    assert_eq!(
        nodes[1].fingerprint,
        format!("{}-{}", nodes[0].fingerprint, stable_hash("HK copy".as_bytes()))
    );
    assert_eq!(nodes[2].node_type, "Vless");
    assert_eq!(
        nodes[2].fingerprint,
        stable_hash(format!("{}\nJP\nVless", profile.source_hash).as_bytes())
    );
    assert_eq!(profile.direct_nodes().len(), 2);
    assert_eq!(profile.discovery(None).nodes.len(), 2);
}

#[test]
fn provider_files_are_looked_into() {
    let prints = provider_proxy_fingerprints(&[
        "proxies:\n  - { name: P1, type: vless, server: b }".to_owned(),
        ": no document :\n -".to_owned(),
    ]);
    assert_eq!(prints.len(), 1);
    assert_eq!(prints[0].name, "P1");
    assert_eq!(prints[0].node_type, "vless");
}

#[test]
fn provider_paths_are_replaced() {
    let mut config = mapping(
        "proxy-providers:\n  one: { type: file, path: ./a.yaml }\n  two: { type: http, url: x }\n  three: { path: /b.yaml }",
    );
    assert_eq!(provider_paths(&config), vec!["./a.yaml".to_owned(), "/b.yaml".to_owned()]);
    absolutize_provider_paths(&mut config, &[Some("/home/a.yaml".to_owned()), None]);
    assert_eq!(provider_paths(&config), vec!["/home/a.yaml".to_owned(), "/b.yaml".to_owned()]);
}

#[test]
fn only_remote_and_local_profiles_are_offered() {
    let item = |uid: &str, name: Option<&str>, itype: Option<&str>| ProfileItem {
        uid: Some(uid.to_owned()),
        name: name.map(str::to_owned),
        itype: itype.map(str::to_owned),
    };
    let offered = available_profiles(&[
        item("a", Some("订阅A"), Some("remote")),
        item("b", None, Some("local")),
        item("c", Some("脚本"), Some("script")),
        item("d", Some("本地"), Some("local")),
    ]);
    assert_eq!(
        offered,
        vec![
            ("a".to_owned(), "订阅A".to_owned()),
            ("d".to_owned(), "本地".to_owned())
        ]
    );
    assert_eq!(
        testable_name("b", Some(&item("b", None, Some("local")))).expect("testable"),
        "b"
    );
    assert!(matches!(
        testable_name("c", Some(&item("c", None, Some("script")))),
        Err(BenchmarkError::ProfileNotTestable)
    ));
    let unknown = testable_name("x", None).expect_err("unknown");
    assert!(unknown.message().contains('x'));
}

#[test]
fn controller_addresses_are_encoded() {
    assert_eq!(controller_url(9097), "http://127.0.0.1:9097");
    assert_eq!(
        proxy_endpoint("http://127.0.0.1:9097", "香港 1/a"),
        "http://127.0.0.1:9097/proxies/%E9%A6%99%E6%B8%AF%201%2Fa"
    );
}

#[test]
fn running_configuration_has_its_own_controller() {
    let running = runtime_config(&mapping("mixed-port: 1\nmode: rule"), 7001, 7002, "s3");
    assert_eq!(running.get("mixed-port").and_then(|value| value.as_i64()), Some(7001));
    assert_eq!(
        running.get("external-controller").and_then(|value| value.as_str()),
        Some("127.0.0.1:7002")
    );
    assert_eq!(running.get("secret").and_then(|value| value.as_str()), Some("s3"));
    assert_eq!(running.get("unified-delay").and_then(|value| value.as_bool()), Some(true));
    assert_eq!(running.get("mode").and_then(|value| value.as_str()), Some("rule"));
}

#[test]
fn mode_changes_are_one_entry() {
    let patch = mode_patch("global");
    assert_eq!(patch.len(), 1);
    assert_eq!(patch.get("mode").and_then(|value| value.as_str()), Some("global"));
}

#[test]
fn listed_members_carry_their_types() {
    let all = json(r#"{"proxies":{"HK":{"type":"Vless"},"JP":{"type":3}}}"#);
    let group = json(r#"{"all":["HK",7,"JP","KR"]}"#);
    assert_eq!(
        list_nodes(&all, &group).expect("there is a list"),
        vec![
            ("HK".to_owned(), "Vless".to_owned()),
            ("JP".to_owned(), "Unknown".to_owned()),
            ("KR".to_owned(), "Unknown".to_owned()),
        ]
    );
    assert_eq!(
        list_nodes(&json("[]"), &group).expect("there is a list")[0].1,
        "Unknown"
    );
    assert!(matches!(
        list_nodes(&all, &json(r#"{"all":"HK"}"#)),
        Err(BenchmarkError::NodeListMissing)
    ));
    assert!(matches!(list_nodes(&all, &json("3")), Err(BenchmarkError::NodeListMissing)));
}

#[test]
fn replied_delays_are_positive() {
    assert_eq!(reply_delay("HK", &json(r#"{"delay":38}"#)).expect("valid"), 38);
    for reply in [
        r#"{"delay":0}"#,
        r#"{"delay":-1}"#,
        r#"{"delay":4294967296}"#,
        r#"{"delay":"3"}"#,
        r#"{}"#,
    ] {
        let error = reply_delay("HK", &json(reply)).expect_err("no delay");
        assert_eq!(error.message(), "节点“HK”未返回有效延迟");
    }
}

#[test]
fn a_core_is_asked_forty_times() {
    let mut watch = ReadyWatch::new();
    for _ in 1..READY_ATTEMPTS {
        let step = watch.step(ReadyReply::Failed {
            message: "refused".to_owned(),
        });
        assert!(matches!(step, ReadyStep::Retry));
    }
    let step = watch.step(ReadyReply::Answered {
        status_code: 503,
        status_text: "503 Service Unavailable".to_owned(),
    });
    assert!(matches!(step, ReadyStep::GiveUp));
    assert_eq!(
        watch.last_error.as_deref(),
        Some("控制接口状态码 503 Service Unavailable")
    );
    let mut watch = ReadyWatch::new();
    let step = watch.step(ReadyReply::Answered {
        status_code: 200,
        status_text: "200 OK".to_owned(),
    });
    assert!(matches!(step, ReadyStep::Ready));
}
