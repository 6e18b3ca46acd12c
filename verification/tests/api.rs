use md5::{Digest, Md5};
use resonance::api::{BatchBody, PublishPayload};
use resonance::crypto::sign;
use resonance::query::Query;
use resonance::rate::RateLimiter;
use resonance::session::{Admission, ClientMessage, MemberData, Subscriptions};
use resonance::rest_auth::{verify, verify_at, AuthError};
use resonance::state::{App, Limits, State};
use serde_json::Value;
use std::time::{SystemTime, UNIX_EPOCH};

fn query_of(pairs: &[(&str, String)]) -> Query {
    let mut q = Query::new();
    for (k, v) in pairs {
        let _ = q.insert(k.to_string(), v.clone());
    }
    q
}

// Mirror how pusher-php-server builds the signed request.
fn signed(secret: &str, key: &str, body: &[u8], ts: u64) -> Query {
    signed_for("POST", "/apps/app1/events", secret, key, body, ts)
}

fn signed_for(method: &str, path: &str, secret: &str, key: &str, body: &[u8], ts: u64) -> Query {
    let mut q = Query::new();
    let _ = q.insert("auth_key".into(), key.into());
    let _ = q.insert("auth_timestamp".into(), ts.to_string());
    let _ = q.insert("auth_version".into(), "1.0".into());
    if !body.is_empty() {
        let _ = q.insert("body_md5".into(), hex::encode(Md5::digest(body)));
    }
    let mut params: Vec<String> = Vec::new();
    for i in 0..q.len() {
        params.push(format!("{}={}", q.key_at(i), q.value_at(i)));
    }
    let sts = format!("{}\n{}\n{}", method, path, params.join("&"));
    let _ = q.insert("auth_signature".into(), sign(secret.as_bytes(), sts.as_bytes()));
    q
}

fn now_secs() -> u64 {
    SystemTime::now().duration_since(UNIX_EPOCH).unwrap().as_secs()
}

fn obj(pairs: Vec<(&str, Value)>) -> Value {
    let mut m = serde_json::Map::new();
    for (k, v) in pairs {
        m.insert(k.to_string(), v);
    }
    Value::Object(m)
}

fn payload(v: &Value) -> PublishPayload {
    PublishPayload {
        name: v.get("name").and_then(|n| n.as_str()).map(String::from),
        data: match v.get("data") {
            Some(Value::String(s)) => Some(s.clone()),
            Some(other) => Some(other.to_string()),
            None => None,
        },
        socket_id: v.get("socket_id").and_then(|s| s.as_str()).map(String::from),
        channel: v.get("channel").and_then(|c| c.as_str()).map(String::from),
        channels: v
            .get("channels")
            .and_then(|c| c.as_array())
            .map(|a| a.iter().filter_map(|c| c.as_str()).map(String::from).collect())
            .unwrap_or_default(),
    }
}

fn limits() -> Limits {
    Limits {
        max_message_size: 10240,
        activity_timeout_s: 120,
        max_channels_per_connection: 100,
        allowed_origins: vec![],
        client_event_rate: 10,
    }
}

fn one_app_state() -> State {
    State::new(
        vec![App {
            id: "app1".into(),
            key: "key".into(),
            secret: "secret".into(),
            max_connections: 0,
            webhook_url: None,
        }],
        limits(),
    )
}

#[test]
fn accepts_valid_and_rejects_tampering() {
    let now = now_secs();
    let body = br#"{"name":"e","channel":"c","data":"{}"}"#;
    let q = signed("secret", "key", body, now);

    assert!(verify("key", "secret", "POST", "/apps/app1/events", &q, body).is_ok());

    // Wrong secret -> signature mismatch.
    assert!(verify("key", "nope", "POST", "/apps/app1/events", &q, body).is_err());
    // Tampered body -> md5 mismatch.
    assert!(verify("key", "secret", "POST", "/apps/app1/events", &q, b"other").is_err());
    // Stale timestamp.
    let old = signed("secret", "key", body, now - 601);
    assert!(verify("key", "secret", "POST", "/apps/app1/events", &old, body).is_err());
    // body_md5 must be present — otherwise the body is unauthenticated.
    let mut no_md5 = signed("secret", "key", body, now);
    let _ = no_md5.remove("body_md5");
    assert!(verify("key", "secret", "POST", "/apps/app1/events", &no_md5, body).is_err());
}

#[test]
fn hostile_inputs_never_panic_never_authenticate() {
    let mut state = State::new(
        vec![App {
            id: "a".into(),
            key: "k".into(),
            secret: "s".into(),
            max_connections: 0,
            webhook_url: None,
        }],
        Limits {
            max_message_size: 10240,
            activity_timeout_s: 120,
            max_channels_per_connection: 100,
            allowed_origins: vec![],
            client_event_rate: 10,
        },
    );

    let mut lcg: u64 = 0xC0FFEE;
    let mut junk = String::new();
    for _ in 0..3000 {
        lcg = lcg.wrapping_mul(6364136223846793005).wrapping_add(1442695040888963407);
        junk.push(char::from_u32((lcg % 0x2FFFF) as u32).unwrap_or('\u{FFFD}'));
        if junk.len() > 200 {
            junk.clear();
        }
        // hostile query maps
        let mut q = Query::new();
        let _ = q.insert(junk.clone(), junk.clone());
        let _ = q.insert("auth_key".into(), junk.clone());
        let _ = q.insert("auth_timestamp".into(), junk.clone());
        let _ = q.insert("auth_signature".into(), junk.clone());
        let _ = q.insert("body_md5".into(), junk.clone());
        assert!(verify("k", "s", "POST", &junk, &q, junk.as_bytes()).is_err());

        // hostile publish payloads
        let j = Value::String(junk.clone());
        let deep = Value::Array(vec![Value::Array(vec![Value::Array(vec![Value::Array(vec![j.clone()])])])]);
        let payloads = [
            obj(vec![("name", j.clone()), ("data", j.clone()), ("channel", j.clone())]),
            obj(vec![
                ("name", Value::Null),
                ("data", obj(vec![("deep", deep)])),
                ("channels", Value::Array(vec![j.clone(), Value::from(42), Value::Null])),
            ]),
            obj(vec![("channels", j.clone()), ("socket_id", obj(vec![("x", Value::from(1))]))]),
            Value::Array(vec![j.clone()]),
            j.clone(),
        ];
        for p in &payloads {
            let _ = state.publish("a", &payload(p)); // Err or Ok, but no panic
        }
    }
}

#[test]
fn each_refusal_names_its_reason() {
    let now: u64 = 1_700_000_000;
    let body = b"{}";
    let good = signed("secret", "key", body, now);
    let at = |q: &Query, b: &[u8]| verify_at("key", "secret", "POST", "/apps/app1/events", q, b, now);

    assert_eq!(at(&good, body), Ok(()));
    assert_eq!(at(&query_of(&[]), body), Err(AuthError::MissingAuthKey));
    assert_eq!(at(&query_of(&[("auth_key", "other".into())]), body), Err(AuthError::BadAuthKey));
    assert_eq!(
        at(&query_of(&[("auth_key", "key".into()), ("auth_timestamp", "soon".into())]), body),
        Err(AuthError::MissingTimestamp)
    );
    assert_eq!(
        at(&query_of(&[("auth_key", "key".into()), ("auth_timestamp", (now + 601).to_string())]), body),
        Err(AuthError::StaleTimestamp)
    );
    let fresh = |extra: &[(&str, String)]| {
        let mut q = query_of(&[("auth_key", "key".into()), ("auth_timestamp", (now - 600).to_string())]);
        for (k, v) in extra {
            let _ = q.insert(k.to_string(), v.clone());
        }
        q
    };
    assert_eq!(at(&fresh(&[]), body), Err(AuthError::MissingBodyMd5));
    assert_eq!(at(&fresh(&[("body_md5", "00".into())]), body), Err(AuthError::BodyMd5Mismatch));
    let md5 = hex::encode(Md5::digest(body));
    assert_eq!(at(&fresh(&[("body_md5", md5.clone())]), body), Err(AuthError::MissingSignature));
    assert_eq!(
        at(&fresh(&[("body_md5", md5), ("auth_signature", "ab".into())]), body),
        Err(AuthError::SignatureMismatch)
    );
    // Without a body no digest is asked for.
    assert_eq!(at(&fresh(&[]), b""), Err(AuthError::MissingSignature));

    assert_eq!(AuthError::MissingAuthKey.message(), "Missing auth_key");
    assert_eq!(AuthError::BadAuthKey.message(), "Bad auth_key");
    assert_eq!(AuthError::MissingTimestamp.message(), "Missing auth_timestamp");
    assert_eq!(AuthError::StaleTimestamp.message(), "Stale auth_timestamp");
    assert_eq!(AuthError::MissingBodyMd5.message(), "Missing body_md5");
    assert_eq!(AuthError::BodyMd5Mismatch.message(), "body_md5 mismatch");
    assert_eq!(AuthError::MissingSignature.message(), "Missing auth_signature");
    assert_eq!(AuthError::SignatureMismatch.message(), "Signature mismatch");
}

#[test]
fn string_to_sign_excludes_the_signature_and_sorts_keys() {
    let q = query_of(&[
        ("auth_version", "1.0".into()),
        ("auth_key", "k".into()),
        ("auth_signature", "x".into()),
        ("body_md5", "m".into()),
    ]);
    let s = resonance::rest_auth::string_to_sign("POST", "/apps/1/events", &q);
    assert_eq!(s, b"POST\n/apps/1/events\nauth_key=k&auth_version=1.0&body_md5=m".to_vec());
}

#[test]
fn events_answers_each_case() {
    let now: u64 = 1_700_000_000;
    let mut state = one_app_state();
    let body = br#"{"name":"e","channel":"c","data":"{}"}"#;
    let q = signed("secret", "key", body, now);
    let p = Some(PublishPayload {
        name: Some("e".into()),
        data: Some("{}".into()),
        socket_id: None,
        channel: Some("c".into()),
        channels: vec![],
    });

    let r = state.events_at("nope", &q, body, &p, now);
    assert_eq!((r.status, String::from_utf8(r.body).unwrap()), (404, r#"{"error":"Unknown app"}"#.to_string()));

    let r = state.events_at("app1", &q, body, &p, now + 601);
    assert_eq!((r.status, String::from_utf8(r.body).unwrap()), (401, r#"{"error":"Stale auth_timestamp"}"#.to_string()));

    let r = state.events_at("app1", &q, body, &None, now);
    assert_eq!((r.status, String::from_utf8(r.body).unwrap()), (400, r#"{"error":"Invalid body"}"#.to_string()));

    let no_data = Some(PublishPayload { data: None, ..payload(&Value::Null) });
    let r = state.events_at("app1", &q, body, &no_data, now);
    assert_eq!((r.status, String::from_utf8(r.body).unwrap()), (400, r#"{"error":"Missing data"}"#.to_string()));
    assert_eq!(state.metrics.events_received_total, 0);

    let r = state.events_at("app1", &q, body, &p, now);
    assert_eq!((r.status, String::from_utf8(r.body).unwrap()), (200, "{}".to_string()));
    assert!(r.fanouts.is_empty()); // nobody subscribed to "c"
    assert_eq!(state.metrics.events_received_total, 1);
}

#[test]
fn batch_events_answers_each_case() {
    let now: u64 = 1_700_000_000;
    let mut state = one_app_state();
    let body = br#"{"batch":[]}"#;
    let q = signed_for("POST", "/apps/app1/batch_events", "secret", "key", body, now);

    let r = state.batch_events_at("app1", &q, body, &BatchBody::Invalid, now);
    assert_eq!((r.status, String::from_utf8(r.body).unwrap()), (400, r#"{"error":"Invalid body"}"#.to_string()));
    let r = state.batch_events_at("app1", &q, body, &BatchBody::MissingBatch, now);
    assert_eq!((r.status, String::from_utf8(r.body).unwrap()), (400, r#"{"error":"Missing batch"}"#.to_string()));

    let with = |d: Option<&str>| PublishPayload {
        name: Some("e".into()),
        data: d.map(String::from),
        socket_id: None,
        channel: Some("c".into()),
        channels: vec![],
    };
    let batch = BatchBody::Batch(vec![with(Some("1")), with(None), with(Some("2"))]);
    let r = state.batch_events_at("app1", &q, body, &batch, now);
    assert_eq!((r.status, String::from_utf8(r.body).unwrap()), (200, r#"{"batch":[]}"#.to_string()));
    // the entry without data is skipped, the others are counted
    assert_eq!(state.metrics.events_received_total, 2);
}

#[test]
fn metrics_text_lists_gauges_and_counters() {
    let mut state = one_app_state();
    state.record_delivery(5, 2, 1500);
    state.record_delivery(0, 0, 250);
    let text = state.metrics();
    assert_eq!(
        text,
        "# TYPE resonance_connections gauge\nresonance_connections 0\n\
         # TYPE resonance_channels gauge\nresonance_channels 0\n\
         # TYPE resonance_connections_total counter\nresonance_connections_total 0\n\
         # TYPE resonance_events_received_total counter\nresonance_events_received_total 0\n\
         # TYPE resonance_messages_sent_total counter\nresonance_messages_sent_total 5\n\
         # TYPE resonance_slow_consumers_killed_total counter\nresonance_slow_consumers_killed_total 2\n\
         # TYPE resonance_fanout_duration_microseconds summary\n\
         resonance_fanout_duration_microseconds_sum 1750\n\
         resonance_fanout_duration_microseconds_count 2\n"
    );
}

fn subscriber(state: &mut State, a: &App, channel: &str, member: Option<(&str, &str)>) -> String {
    let sid = match state.connect(a) {
        Admission::Accepted { socket_id, .. } => socket_id,
        Admission::Refused => panic!("refused"),
    };
    let mut subs = Subscriptions::new();
    let mut rate = RateLimiter::new(10);
    let (data_channel_data, data_auth, member) = match member {
        Some((uid, info)) => {
            let cd = format!("{{\"user_id\":\"{}\",\"user_info\":{}}}", uid, info);
            let auth = format!("{}:{}", a.key, sign(a.secret.as_bytes(), format!("{}:{}:{}", sid, channel, cd).as_bytes()));
            (Some(cd), Some(auth), MemberData::User { user_id: uid.into(), user_info: info.into() })
        },
        None => (None, None, MemberData::Unparsable),
    };
    let m = ClientMessage {
        event: Some("pusher:subscribe".into()),
        channel: None,
        data: "null".into(),
        data_channel: Some(channel.into()),
        data_auth,
        data_channel_data,
        member,
    };
    let e = state.on_text(a, &sid, &mut subs, &mut rate, &Some(m));
    assert_eq!(e.replies.len(), 1);
    sid
}

#[test]
fn channel_listing_and_inspection() {
    let now: u64 = 1_700_000_000;
    let a = App { id: "app1".into(), key: "key".into(), secret: "secret".into(), max_connections: 0, webhook_url: None };
    let mut state = State::new(vec![a.clone()], limits());
    subscriber(&mut state, &a, "news", None);
    subscriber(&mut state, &a, "news", None);
    subscriber(&mut state, &a, "presence-room", Some(("u1", "null")));
    subscriber(&mut state, &a, "presence-room", Some(("u1", "{}")));
    subscriber(&mut state, &a, "presence-room", Some(("u2", "null")));
    subscriber(&mut state, &a, "alpha", None);

    let get = |path: &str, extra: &[(&str, &str)]| {
        let mut q = signed_for("GET", path, "secret", "key", b"", now);
        // extra parameters are signed too
        for (k, v) in extra {
            let _ = q.insert(k.to_string(), v.to_string());
        }
        let _ = q.remove("auth_signature");
        let mut params: Vec<String> = Vec::new();
        for i in 0..q.len() {
            params.push(format!("{}={}", q.key_at(i), q.value_at(i)));
        }
        let sts = format!("GET\n{}\n{}", path, params.join("&"));
        let _ = q.insert("auth_signature".into(), sign(b"secret", sts.as_bytes()));
        q
    };

    let r = state.channels_index_at("app1", &get("/apps/app1/channels", &[]), now);
    assert_eq!(r.status, 200);
    assert_eq!(String::from_utf8(r.body).unwrap(), r#"{"channels":{"alpha":{},"news":{},"presence-room":{}}}"#);

    let q = get("/apps/app1/channels", &[("filter_by_prefix", "presence-"), ("info", "user_count")]);
    let r = state.channels_index_at("app1", &q, now);
    assert_eq!(String::from_utf8(r.body).unwrap(), r#"{"channels":{"presence-room":{"user_count":2}}}"#);

    let r = state.channel_show_at("app1", "presence-room", &get("/apps/app1/channels/presence-room", &[]), now);
    assert_eq!(
        String::from_utf8(r.body).unwrap(),
        r#"{"occupied":true,"subscription_count":3,"user_count":2}"#
    );
    let r = state.channel_show_at("app1", "news", &get("/apps/app1/channels/news", &[]), now);
    assert_eq!(String::from_utf8(r.body).unwrap(), r#"{"occupied":true,"subscription_count":2}"#);
    let r = state.channel_show_at("app1", "empty", &get("/apps/app1/channels/empty", &[]), now);
    assert_eq!(String::from_utf8(r.body).unwrap(), r#"{"occupied":false}"#);

    let r = state.channel_users_at("app1", "presence-room", &get("/apps/app1/channels/presence-room/users", &[]), now);
    assert_eq!((r.status, String::from_utf8(r.body).unwrap()), (200, r#"{"users":[{"id":"u1"},{"id":"u2"}]}"#.to_string()));
    let r = state.channel_users_at("app1", "news", &get("/apps/app1/channels/news/users", &[]), now);
    assert_eq!(
        (r.status, String::from_utf8(r.body).unwrap()),
        (400, r#"{"error":"Users can only be retrieved for presence channels"}"#.to_string())
    );

    // signed for another path: refused
    let r = state.channel_show_at("app1", "news", &get("/apps/app1/channels/other", &[]), now);
    assert_eq!((r.status, String::from_utf8(r.body).unwrap()), (401, r#"{"error":"Signature mismatch"}"#.to_string()));
    let r = state.channels_index_at("app2", &get("/apps/app2/channels", &[]), now);
    assert_eq!((r.status, String::from_utf8(r.body).unwrap()), (404, r#"{"error":"Unknown app"}"#.to_string()));
}

#[test]
fn published_frames_reach_subscribers_but_the_excluded_socket() {
    let now: u64 = 1_700_000_000;
    let a = App { id: "app1".into(), key: "key".into(), secret: "secret".into(), max_connections: 0, webhook_url: None };
    let mut state = State::new(vec![a.clone()], limits());
    let s1 = subscriber(&mut state, &a, "c1", None);
    let s2 = subscriber(&mut state, &a, "c1", None);
    let s3 = subscriber(&mut state, &a, "c2", None);
    let body = br#"{"name":"e","channels":["c1","c2","c3"],"data":"{}"}"#;
    let q = signed("secret", "key", body, now);
    let p = PublishPayload {
        name: Some("e".into()),
        data: Some("{}".into()),
        socket_id: Some(s1.clone()),
        channel: None,
        channels: vec!["c1".into(), "c2".into(), "c3".into()],
    };
    let r = state.events_at("app1", &q, body, &Some(p), now);
    assert_eq!(r.status, 200);
    let f: Vec<(String, Vec<String>)> = r.fanouts.into_iter().map(|f| (String::from_utf8(f.frame).unwrap(), f.targets)).collect();
    assert_eq!(
        f,
        vec![
            (r#"{"channel":"c1","data":"{}","event":"e"}"#.to_string(), vec![s2]),
            (r#"{"channel":"c2","data":"{}","event":"e"}"#.to_string(), vec![s3]),
        ]
    );
}
