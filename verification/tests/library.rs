use resonance::bytes::{decimal_bytes, parse_u64};
use resonance::config::{
    default_client_event_rate, default_host, default_max_channels, default_msg_kb, default_port, default_timeout,
    origin_allowed, origin_list, parse_port, AppCfg, LimitsCfg, Server,
};
use resonance::connection::{Liveness, Tick, Upgrade, PONG_GRACE_S};
use resonance::crypto::{md5_hex, sign};
use resonance::json::{error_frame, frame};
use resonance::query::Query;
use resonance::roster::{roster, user_list};
use resonance::state::{App, Limits, PresenceMember, State};
use resonance::webhook::webhook_request_at;

fn s(v: Vec<u8>) -> String {
    String::from_utf8(v).unwrap()
}

fn app() -> App {
    App {
        id: "a".into(),
        key: "k".into(),
        secret: "s".into(),
        max_connections: 0,
        webhook_url: Some("http://hooks.example/x".into()),
    }
}

fn limits(origins: Vec<String>) -> Limits {
    Limits {
        max_message_size: 10240,
        activity_timeout_s: 120,
        max_channels_per_connection: 100,
        allowed_origins: origins,
        client_event_rate: 10,
    }
}

#[test]
fn frames_carry_data_as_a_json_string() {
    assert_eq!(s(frame("e", Some("c"), b"{}")), r#"{"channel":"c","data":"{}","event":"e"}"#);
    assert_eq!(s(frame("pusher:pong", None, b"{}")), r#"{"data":"{}","event":"pusher:pong"}"#);
    assert_eq!(
        s(frame("e", None, b"{\"a\":\"q\\\"\n\x01\"}")),
        r#"{"data":"{\"a\":\"q\\\"\n\u0001\"}","event":"e"}"#
    );
    assert_eq!(
        s(error_frame(4001, "Application does not exist")),
        r#"{"data":"{\"code\":4001,\"message\":\"Application does not exist\"}","event":"pusher:error"}"#
    );
}

#[test]
fn signatures_and_digests_are_lower_hex() {
    assert_eq!(
        sign(b"key", b"The quick brown fox jumps over the lazy dog"),
        "f7bc83f430538424b13298e6aa6fb143ef4d59a14946175997479dbc2d1a3cd8"
    );
    assert_eq!(md5_hex(b""), "d41d8cd98f00b204e9800998ecf8427e");
    assert_eq!(md5_hex(b"abc"), "900150983cd24fb0d6963f7d28e17f72");
    assert_eq!(sign(b"", b"").len(), 64);
    assert_eq!(md5_hex(b"any body").len(), 32);
}

#[test]
fn decimal_rendering_and_parsing() {
    assert_eq!(decimal_bytes(0), b"0".to_vec());
    assert_eq!(decimal_bytes(18446744073709551615), b"18446744073709551615".to_vec());
    assert_eq!(parse_u64(b"1700000000"), Some(1700000000));
    assert_eq!(parse_u64(b"+7"), Some(7));
    assert_eq!(parse_u64(b"18446744073709551615"), Some(u64::MAX));
    assert_eq!(parse_u64(b"18446744073709551616"), None);
    assert_eq!(parse_u64(b""), None);
    assert_eq!(parse_u64(b"+"), None);
    assert_eq!(parse_u64(b"-1"), None);
    assert_eq!(parse_u64(b"1 "), None);
    for n in [0u64, 9, 10, 600, 123456789, u64::MAX] {
        assert_eq!(parse_u64(&decimal_bytes(n)), Some(n));
    }
}

#[test]
fn query_keeps_keys_sorted_and_unique() {
    let mut q = Query::new();
    assert_eq!(q.insert("b".into(), "2".into()), None);
    assert_eq!(q.insert("a".into(), "1".into()), None);
    assert_eq!(q.insert("b".into(), "3".into()), Some("2".to_string()));
    assert_eq!(q.len(), 2);
    assert_eq!((q.key_at(0).as_str(), q.value_at(0).as_str()), ("a", "1"));
    assert_eq!((q.key_at(1).as_str(), q.value_at(1).as_str()), ("b", "3"));
    assert_eq!(q.get("b").map(|v| v.as_str()), Some("3"));
    assert_eq!(q.remove("a"), Some("1".to_string()));
    assert_eq!(q.get("a"), None);
    assert_eq!(q.remove("a"), None);
}

#[test]
fn roster_lists_each_user_once_with_hash_in_key_order() {
    let m = |sid: &str, uid: &str, info: &str| PresenceMember { socket_id: sid.into(), user_id: uid.into(), user_info: info.into() };
    let members = vec![m("1.1", "zed", "{\"n\":1}"), m("1.2", "amy", "null"), m("1.3", "zed", "{\"n\":2}")];
    assert_eq!(user_list(&members), vec!["zed".to_string(), "amy".to_string()]);
    assert_eq!(
        s(roster(&members)),
        r#"{"presence":{"count":2,"hash":{"amy":null,"zed":{"n":1}},"ids":["zed","amy"]}}"#
    );
}

#[test]
fn configuration_defaults() {
    assert_eq!(default_host(), "0.0.0.0");
    assert_eq!(default_port(), 8080);
    assert_eq!(default_msg_kb(), 10);
    assert_eq!(default_client_event_rate(), 10);
    assert_eq!(default_timeout(), 120);
    assert_eq!(default_max_channels(), 100);
    let server = Server::default();
    assert_eq!((server.host.as_str(), server.port), ("0.0.0.0", 8080));
    let l = LimitsCfg::default().limits();
    assert_eq!(l.max_message_size, 10240);
    assert_eq!(l.activity_timeout_s, 120);
    assert_eq!(l.max_channels_per_connection, 100);
    assert!(l.allowed_origins.is_empty());
    assert_eq!(l.client_event_rate, 10);
    let a = AppCfg { id: "i".into(), key: "k".into(), secret: "s".into(), max_connections: 3, webhook_url: None }.into_app();
    assert_eq!((a.id.as_str(), a.key.as_str(), a.secret.as_str(), a.max_connections), ("i", "k", "s", 3));
}

#[test]
fn origins_and_ports() {
    assert_eq!(origin_list(" https://a.com , ,https://b.com,"), vec!["https://a.com".to_string(), "https://b.com".to_string()]);
    assert!(origin_list("").is_empty());
    assert_eq!(origin_list("\u{3000}x\t"), vec!["x".to_string()]);
    let allowed = vec!["https://a.com".to_string()];
    assert!(origin_allowed(&vec![], Some("https://evil.com")));
    assert!(origin_allowed(&allowed, None));
    assert!(origin_allowed(&allowed, Some("https://a.com")));
    assert!(!origin_allowed(&allowed, Some("https://evil.com")));
    assert_eq!(parse_port("8081"), Some(8081));
    assert_eq!(parse_port("65535"), Some(65535));
    assert_eq!(parse_port("65536"), None);
    assert_eq!(parse_port("http"), None);
}

#[test]
fn upgrades_by_origin_and_key() {
    let state = State::new(vec![app()], limits(vec!["https://a.com".into()]));
    assert!(matches!(state.ws_route("k", Some("https://evil.com")), Upgrade::Forbidden));
    match state.ws_route("nope", Some("https://a.com")) {
        Upgrade::UnknownApp { error } => assert_eq!(
            s(error),
            r#"{"data":"{\"code\":4001,\"message\":\"Application does not exist\"}","event":"pusher:error"}"#
        ),
        _ => panic!("expected an unknown app"),
    }
    match state.ws_route("k", None) {
        Upgrade::Accepted { app, max_message_size } => {
            assert_eq!(app.id, "a");
            assert_eq!(max_message_size, 10240);
        },
        _ => panic!("expected an accepted upgrade"),
    }
}

#[test]
fn quiet_clients_are_pinged_then_dropped() {
    let mut l = Liveness::new(120);
    match l.on_deadline() {
        Tick::Ping { frame, wait_s } => {
            assert_eq!(s(frame), r#"{"data":"{}","event":"pusher:ping"}"#);
            assert_eq!(wait_s, PONG_GRACE_S);
            assert_eq!(wait_s, 30);
        },
        Tick::Close => panic!("closed too early"),
    }
    assert!(matches!(l.on_deadline(), Tick::Close));
    assert_eq!(l.on_traffic(), 120);
    assert!(matches!(l.on_deadline(), Tick::Ping { .. }));
}

#[test]
fn webhooks_are_signed_with_the_app_secret() {
    let apps = vec![App { webhook_url: None, id: "b".into(), ..app() }, app()];
    let ev = br#"{"channel":"c","name":"channel_occupied"}"#;
    let w = webhook_request_at(&apps, "a", ev, 1700000000123).unwrap();
    assert_eq!(w.url, "http://hooks.example/x");
    assert_eq!(w.key, "k");
    let body = r#"{"events":[{"channel":"c","name":"channel_occupied"}],"time_ms":1700000000123}"#;
    assert_eq!(s(w.body.clone()), body);
    assert_eq!(w.signature, sign(b"s", body.as_bytes()));
    assert!(webhook_request_at(&apps, "b", ev, 1).is_none());
    assert!(webhook_request_at(&apps, "zz", ev, 1).is_none());
}
