use resonance::channel_auth::auth_ok;
use resonance::crypto::sign;
use resonance::api::PublishPayload;
use resonance::rate::RateLimiter;
use resonance::session::{Admission, ClientMessage, Effects, MemberData, Subscriptions};
use resonance::state::{App, Limits, State};

fn app() -> App {
    App {
        id: "a".into(),
        key: "k".into(),
        secret: "s".into(),
        max_connections: 0,
        webhook_url: None,
    }
}

fn limits(max_channels: usize) -> Limits {
    Limits {
        max_message_size: 10240,
        activity_timeout_s: 120,
        max_channels_per_connection: max_channels,
        allowed_origins: vec![],
        client_event_rate: 10,
    }
}

fn msg(event: &str) -> ClientMessage {
    ClientMessage {
        event: Some(event.into()),
        channel: None,
        data: "null".into(),
        data_channel: None,
        data_auth: None,
        data_channel_data: None,
        member: MemberData::Unparsable,
    }
}

fn subscribe(channel: &str, auth: Option<String>) -> ClientMessage {
    ClientMessage { data_channel: Some(channel.into()), data_auth: auth, ..msg("pusher:subscribe") }
}

fn text(frames: &[Vec<u8>]) -> Vec<String> {
    frames.iter().map(|f| String::from_utf8(f.clone()).unwrap()).collect()
}

fn err(code: u16, message: &str) -> String {
    format!(
        "{{\"data\":\"{{\\\"code\\\":{},\\\"message\\\":\\\"{}\\\"}}\",\"event\":\"pusher:error\"}}",
        code, message
    )
}

struct Conn {
    sid: String,
    subs: Subscriptions,
    rate: RateLimiter,
}

fn connect(state: &mut State, a: &App) -> Conn {
    match state.connect(a) {
        Admission::Accepted { socket_id, .. } => Conn { sid: socket_id, subs: Subscriptions::new(), rate: RateLimiter::new(10) },
        Admission::Refused => panic!("refused"),
    }
}

fn send(state: &mut State, a: &App, c: &mut Conn, m: ClientMessage) -> Effects {
    state.on_text(a, &c.sid, &mut c.subs, &mut c.rate, &Some(m))
}

#[test]
fn auth_ok_never_panics_on_garbage() {
    let a = app();
    let mut lcg: u64 = 0x5EED;
    let mut junk = String::new();
    for _ in 0..5000 {
        lcg = lcg.wrapping_mul(6364136223846793005).wrapping_add(1442695040888963407);
        let c = char::from_u32((lcg % 0x2FFFF) as u32).unwrap_or('\u{FFFD}');
        junk.push(c);
        if junk.len() > 300 {
            junk.clear();
        }
        let both = format!("{junk}:{junk}");
        let keyed = format!("k:{junk}");
        let cases: [Option<&str>; 8] = [
            Some(&junk),
            Some(&both),
            Some(&keyed),
            None, // "auth": null
            None, // "auth": a number
            None, // no "auth"
            Some(":"),
            Some("k:"),
        ];
        for auth in cases {
            // must never panic; garbage must never authenticate
            assert!(!auth_ok(&a, "1.1", "private-x", auth, None));
            assert!(!auth_ok(&a, &junk, &junk, auth, Some(&junk)));
        }
    }
}

#[test]
fn rate_limiter_caps_within_window() {
    let mut r = RateLimiter::new(3);
    assert!(r.allow());
    assert!(r.allow());
    assert!(r.allow());
    assert!(!r.allow()); // 4th in the same second is refused
}

fn subscription_succeeded(channel: &str) -> String {
    format!("{{\"channel\":\"{}\",\"data\":\"{{}}\",\"event\":\"pusher_internal:subscription_succeeded\"}}", channel)
}

fn occupied(channel: &str) -> String {
    format!("{{\"channel\":\"{}\",\"name\":\"channel_occupied\"}}", channel)
}

fn vacated(channel: &str) -> String {
    format!("{{\"channel\":\"{}\",\"name\":\"channel_vacated\"}}", channel)
}

fn publish_to(state: &mut State, channel: &str, except: Option<&str>) -> Vec<(String, Vec<String>)> {
    let p = PublishPayload {
        name: Some("e".into()),
        data: Some("{}".into()),
        socket_id: except.map(String::from),
        channel: Some(channel.into()),
        channels: vec![],
    };
    let f = state.publish("a", &p).unwrap();
    f.into_iter().map(|f| (String::from_utf8(f.frame).unwrap(), f.targets)).collect()
}

#[test]
fn connection_is_greeted_with_socket_id_and_timeout() {
    let mut state = State::new(vec![app()], limits(100));
    let a = app();
    match state.connect(&a) {
        Admission::Accepted { socket_id, established } => {
            assert_eq!(
                String::from_utf8(established).unwrap(),
                format!(
                    "{{\"data\":\"{{\\\"activity_timeout\\\":120,\\\"socket_id\\\":\\\"{}\\\"}}\",\"event\":\"pusher:connection_established\"}}",
                    socket_id
                )
            );
            let (prefix, counter) = socket_id.split_once('.').unwrap();
            assert!(prefix.parse::<u64>().is_ok());
            assert_eq!(counter, "1");
        },
        Admission::Refused => panic!("refused"),
    }
    assert_eq!(state.metrics.connections_total, 1);
}

#[test]
fn connection_cap_refuses_the_next_socket() {
    let capped = App { max_connections: 1, ..app() };
    let mut state = State::new(vec![capped.clone()], limits(100));
    assert!(matches!(state.connect(&capped), Admission::Accepted { .. }));
    assert!(matches!(state.connect(&capped), Admission::Refused));
    assert_eq!(state.metrics.connections_total, 1);
}

#[test]
fn socket_ids_are_distinct() {
    let mut state = State::new(vec![app()], limits(100));
    let x = state.new_socket_id();
    let y = state.new_socket_id();
    assert_ne!(x, y);
    assert_eq!(x.split_once('.').unwrap().0, y.split_once('.').unwrap().0);
}

#[test]
fn ping_pong_and_invalid_json() {
    let a = app();
    let mut state = State::new(vec![a.clone()], limits(100));
    let mut c = connect(&mut state, &a);
    let e = send(&mut state, &a, &mut c, msg("pusher:ping"));
    assert_eq!(text(&e.replies), vec!["{\"data\":\"{}\",\"event\":\"pusher:pong\"}".to_string()]);
    let e = state.on_text(&a, &c.sid, &mut c.subs, &mut c.rate, &None);
    assert_eq!(text(&e.replies), vec![err(4200, "Invalid JSON")]);
    let e = send(&mut state, &a, &mut c, msg("pusher:something"));
    assert!(e.replies.is_empty() && e.fanouts.is_empty() && e.webhooks.is_empty());
}

#[test]
fn subscribe_then_unsubscribe_restores_the_channel() {
    let a = app();
    let mut state = State::new(vec![a.clone()], limits(100));
    let mut c = connect(&mut state, &a);

    let e = send(&mut state, &a, &mut c, subscribe("news", None));
    assert_eq!(text(&e.replies), vec![subscription_succeeded("news")]);
    assert_eq!(text(&e.webhooks), vec![occupied("news")]);
    assert_eq!(publish_to(&mut state, "news", None)[0].1, vec![c.sid.clone()]);

    let un = ClientMessage { data_channel: Some("news".into()), ..msg("pusher:unsubscribe") };
    let e = send(&mut state, &a, &mut c, un);
    assert_eq!(text(&e.webhooks), vec![vacated("news")]);
    assert!(publish_to(&mut state, "news", None).is_empty());

    // subscribing again occupies the channel again
    let e = send(&mut state, &a, &mut c, subscribe("news", None));
    assert_eq!(text(&e.webhooks), vec![occupied("news")]);
}

#[test]
fn subscription_errors() {
    let a = app();
    let mut state = State::new(vec![a.clone()], limits(1));
    let mut c = connect(&mut state, &a);
    let e = send(&mut state, &a, &mut c, subscribe("", None));
    assert_eq!(text(&e.replies), vec![err(4009, "No channel provided")]);
    let e = send(&mut state, &a, &mut c, subscribe("private-x", None));
    assert_eq!(text(&e.replies), vec![err(4009, "Connection not authorized")]);
    let e = send(&mut state, &a, &mut c, subscribe("one", None));
    assert_eq!(text(&e.replies), vec![subscription_succeeded("one")]);
    let e = send(&mut state, &a, &mut c, subscribe("two", None));
    assert_eq!(text(&e.replies), vec![err(4100, "Channel limit reached")]);
    // already subscribed: no limit applies
    let e = send(&mut state, &a, &mut c, subscribe("one", None));
    assert_eq!(text(&e.replies), vec![subscription_succeeded("one")]);
}

#[test]
fn private_channel_with_signed_auth() {
    let a = app();
    let mut state = State::new(vec![a.clone()], limits(100));
    let mut c = connect(&mut state, &a);
    let auth = format!("k:{}", sign(b"s", format!("{}:private-x", c.sid).as_bytes()));
    assert!(auth_ok(&a, &c.sid, "private-x", Some(&auth), None));
    let e = send(&mut state, &a, &mut c, subscribe("private-x", Some(auth)));
    assert_eq!(text(&e.replies), vec![subscription_succeeded("private-x")]);
}

#[test]
fn client_events_are_relayed_but_never_echoed() {
    let a = app();
    let mut state = State::new(vec![a.clone()], limits(100));
    let mut c1 = connect(&mut state, &a);
    let mut c2 = connect(&mut state, &a);
    for c in [&mut c1, &mut c2] {
        let auth = format!("k:{}", sign(b"s", format!("{}:private-room", c.sid).as_bytes()));
        let e = send(&mut state, &a, c, subscribe("private-room", Some(auth)));
        assert_eq!(text(&e.replies), vec![subscription_succeeded("private-room")]);
    }
    let ev = ClientMessage { channel: Some("private-room".into()), data: "{\"x\":1}".into(), ..msg("client-typing") };
    let e = send(&mut state, &a, &mut c1, ev);
    assert_eq!(e.fanouts.len(), 1);
    assert_eq!(
        String::from_utf8(e.fanouts[0].frame.clone()).unwrap(),
        "{\"channel\":\"private-room\",\"data\":{\"x\":1},\"event\":\"client-typing\"}"
    );
    assert_eq!(e.fanouts[0].targets, vec![c2.sid.clone()]);

    // not on a public channel
    let _ = send(&mut state, &a, &mut c1, subscribe("public", None));
    let ev = ClientMessage { channel: Some("public".into()), ..msg("client-typing") };
    let e = send(&mut state, &a, &mut c1, ev);
    assert_eq!(
        text(&e.replies),
        vec![err(4009, "Client events are only allowed on subscribed private/presence channels")]
    );
}

#[test]
fn client_events_are_rate_limited() {
    let a = app();
    let mut state = State::new(vec![a.clone()], limits(100));
    let mut c = connect(&mut state, &a);
    c.rate = RateLimiter::new(2);
    let auth = format!("k:{}", sign(b"s", format!("{}:private-r", c.sid).as_bytes()));
    let _ = send(&mut state, &a, &mut c, subscribe("private-r", Some(auth)));
    let ev = || ClientMessage { channel: Some("private-r".into()), ..msg("client-x") };
    assert!(send(&mut state, &a, &mut c, ev()).replies.is_empty());
    assert!(send(&mut state, &a, &mut c, ev()).replies.is_empty());
    let e = send(&mut state, &a, &mut c, ev());
    assert_eq!(text(&e.replies), vec![err(4301, "Client event rate limit exceeded")]);
}

fn join_presence(state: &mut State, a: &App, c: &mut Conn, uid: &str, info: &str) -> Effects {
    let cd = format!("{{\"user_id\":\"{}\",\"user_info\":{}}}", uid, info);
    let auth = format!("k:{}", sign(b"s", format!("{}:presence-room:{}", c.sid, cd).as_bytes()));
    let m = ClientMessage {
        data_channel_data: Some(cd),
        member: MemberData::User { user_id: uid.into(), user_info: info.into() },
        ..subscribe("presence-room", Some(auth))
    };
    send(state, a, c, m)
}

#[test]
fn presence_members_come_and_go() {
    let a = app();
    let mut state = State::new(vec![a.clone()], limits(100));
    let mut c1 = connect(&mut state, &a);
    let mut c2 = connect(&mut state, &a);
    let mut c3 = connect(&mut state, &a);

    let e = join_presence(&mut state, &a, &mut c1, "u1", "{\"name\":\"A\"}");
    assert_eq!(
        text(&e.replies),
        vec!["{\"channel\":\"presence-room\",\"data\":\"{\\\"presence\\\":{\\\"count\\\":1,\\\"hash\\\":{\\\"u1\\\":{\\\"name\\\":\\\"A\\\"}},\\\"ids\\\":[\\\"u1\\\"]}}\",\"event\":\"pusher_internal:subscription_succeeded\"}".to_string()]
    );
    assert_eq!(
        text(&e.webhooks),
        vec![occupied("presence-room"), "{\"channel\":\"presence-room\",\"name\":\"member_added\",\"user_id\":\"u1\"}".to_string()]
    );
    assert!(e.fanouts.is_empty()); // nobody else to tell

    let e = join_presence(&mut state, &a, &mut c2, "u2", "null");
    assert_eq!(e.fanouts.len(), 1);
    assert_eq!(
        String::from_utf8(e.fanouts[0].frame.clone()).unwrap(),
        "{\"channel\":\"presence-room\",\"data\":\"{\\\"user_id\\\":\\\"u2\\\",\\\"user_info\\\":null}\",\"event\":\"pusher_internal:member_added\"}"
    );
    assert_eq!(e.fanouts[0].targets, vec![c1.sid.clone()]);

    // a second socket of u1: no member_added
    let e = join_presence(&mut state, &a, &mut c3, "u1", "{}");
    assert!(e.fanouts.is_empty());
    assert!(e.webhooks.is_empty());

    // u1 leaves one socket: still there, no member_removed
    let e = state.disconnect("a", &c1.sid, &c1.subs);
    assert!(e.fanouts.is_empty() && e.webhooks.is_empty());
    // its last socket: member_removed to the others
    let e = state.disconnect("a", &c3.sid, &c3.subs);
    assert_eq!(e.fanouts.len(), 1);
    assert_eq!(e.fanouts[0].targets, vec![c2.sid.clone()]);
    assert_eq!(
        text(&e.webhooks),
        vec!["{\"channel\":\"presence-room\",\"name\":\"member_removed\",\"user_id\":\"u1\"}".to_string()]
    );
    // the last member: the channel is vacated
    let e = state.disconnect("a", &c2.sid, &c2.subs);
    assert_eq!(
        text(&e.webhooks),
        vec!["{\"channel\":\"presence-room\",\"name\":\"member_removed\",\"user_id\":\"u2\"}".to_string(), vacated("presence-room")]
    );
}

#[test]
fn presence_needs_channel_data() {
    let a = app();
    let mut state = State::new(vec![a.clone()], limits(100));
    let mut c = connect(&mut state, &a);
    let e = send(&mut state, &a, &mut c, subscribe("presence-x", None));
    assert_eq!(text(&e.replies), vec![err(4009, "channel_data required for presence")]);
}

#[test]
fn publish_leaves_out_the_sender() {
    let a = app();
    let mut state = State::new(vec![a.clone()], limits(100));
    let mut c1 = connect(&mut state, &a);
    let mut c2 = connect(&mut state, &a);
    let _ = send(&mut state, &a, &mut c1, subscribe("c", None));
    let _ = send(&mut state, &a, &mut c2, subscribe("c", None));
    let f = publish_to(&mut state, "c", Some(&c1.sid));
    assert_eq!(f.len(), 1);
    assert_eq!(f[0].0, "{\"channel\":\"c\",\"data\":\"{}\",\"event\":\"e\"}");
    assert_eq!(f[0].1, vec![c2.sid.clone()]);
    let f = publish_to(&mut state, "c", None);
    assert_eq!(f[0].1, vec![c1.sid.clone(), c2.sid.clone()]);
}

#[test]
fn closed_connections_leave_every_channel() {
    let a = app();
    let mut state = State::new(vec![a.clone()], limits(100));
    let mut c1 = connect(&mut state, &a);
    let mut c2 = connect(&mut state, &a);
    for ch in ["x", "y"] {
        let _ = send(&mut state, &a, &mut c1, subscribe(ch, None));
    }
    let _ = send(&mut state, &a, &mut c2, subscribe("y", None));
    let _ = join_presence(&mut state, &a, &mut c1, "u1", "null");
    let e = state.disconnect("a", &c1.sid, &c1.subs);
    assert_eq!(text(&e.webhooks), vec![vacated("x"), "{\"channel\":\"presence-room\",\"name\":\"member_removed\",\"user_id\":\"u1\"}".to_string(), vacated("presence-room")]);
    assert!(publish_to(&mut state, "x", None).is_empty());
    assert!(publish_to(&mut state, "presence-room", None).is_empty());
    // the other connection keeps its subscription
    assert_eq!(publish_to(&mut state, "y", None)[0].1, vec![c2.sid.clone()]);
}

#[test]
fn subscribing_twice_changes_nothing() {
    let a = app();
    let mut state = State::new(vec![a.clone()], limits(100));
    let mut c1 = connect(&mut state, &a);
    let mut c2 = connect(&mut state, &a);
    let _ = send(&mut state, &a, &mut c2, subscribe("news", None));
    let _ = join_presence(&mut state, &a, &mut c2, "u2", "null");

    let _ = send(&mut state, &a, &mut c1, subscribe("news", None));
    let e = send(&mut state, &a, &mut c1, subscribe("news", None));
    assert_eq!(text(&e.replies), vec![subscription_succeeded("news")]);
    assert!(e.webhooks.is_empty() && e.fanouts.is_empty());
    assert_eq!(publish_to(&mut state, "news", None)[0].1, vec![c2.sid.clone(), c1.sid.clone()]);

    let first = join_presence(&mut state, &a, &mut c1, "u1", "null");
    assert_eq!(first.fanouts.len(), 1);
    let again = join_presence(&mut state, &a, &mut c1, "u1", "null");
    assert!(again.webhooks.is_empty() && again.fanouts.is_empty());
    assert_eq!(c1.subs.len(), 2);
    assert_eq!(publish_to(&mut state, "presence-room", None)[0].1, vec![c2.sid.clone(), c1.sid.clone()]);
}
