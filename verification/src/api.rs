//! The HTTP API: publishing events (one or a batch) to channels, inspecting
//! channels and presence users, and the metrics text. Every request but
//! `/metrics` carries the REST signature checked in `rest_auth`.

use vstd::prelude::*;
use vstd::string::StringExecFns;
use vstd::utf8::{valid_utf8, encode_utf8_valid_utf8, valid_utf8_concat};
use crate::bytes::{utf8, string_opt, str_opt, has_prefix, is_prefix, has_infix, contains_bytes, decimal, push_decimal, bytes_lt, lemma_decimal_valid_utf8};
use crate::json::{json_str, push_json_str, push_text, frame, frame_spec};
use crate::query::{Query, lookup, lemma_lookup_some};
use crate::rest_auth::{verify_at, rest_auth_outcome, auth_error_text};
use crate::clock::{unix_time, clock_reading, reading_seconds};
use crate::roster::{json_list, push_list_item, user_ids, user_list};
use crate::channels::{without, strings_without, copy_strings};
use crate::session::{Fanout, fanout_views};
use crate::state::{
    State, App, Metrics, MemberView, ChannelState, string_from_utf8, ChannelView, channel_table, channel_get, channel_count, channel_entries,
    connection_table, connection_count, app_named, string_views, };

verus! {

/// What the server reads of a published event: `name` (when a string),
/// `data` (a string as is, any other JSON value as its JSON text),
/// `socket_id` to leave out (when a string), `channel` (when a string) and
/// the strings of the `channels` array.
pub struct PublishPayload {
    pub name: Option<String>,
    pub data: Option<String>,
    pub socket_id: Option<String>,
    pub channel: Option<String>,
    pub channels: Vec<String>,
}

/// The body of a batch request: not JSON, JSON without a `batch` array, or
/// the events of the batch.
pub enum BatchBody {
    Invalid,
    MissingBatch,
    Batch(Vec<PublishPayload>),
}

/// An HTTP answer: status, JSON body, and frames to fan out.
pub struct ApiResponse {
    pub status: u16,
    pub body: Vec<u8>,
    pub fanouts: Vec<Fanout>,
}

/// An HTTP answer as the contracts see it.
pub struct ApiView {
    pub status: u16,
    pub body: Seq<u8>,
    pub fanouts: Seq<(Seq<u8>, Seq<Seq<char>>)>,
}

impl View for ApiResponse {
    type V = ApiView;

    open spec fn view(&self) -> ApiView {
        ApiView { status: self.status, body: self.body@, fanouts: fanout_views(self.fanouts@) }
    }
}

/// `/apps/<app_id><tail>`.
pub open spec fn api_path(app_id: Seq<char>, tail: Seq<char>) -> Seq<char> {
    "/apps/"@ + app_id + tail
}

/// A refusal: status and `{"error":...}` body, nothing fanned out.
pub open spec fn refusal(status: u16, message: Seq<char>) -> ApiView {
    ApiView { status, body: error_body(message), fanouts: seq![] }
}

/// A success with the given body and fan-outs.
pub open spec fn success(body: Seq<char>, fanouts: Seq<(Seq<u8>, Seq<Seq<char>>)>) -> ApiView {
    ApiView { status: 200, body: utf8(body), fanouts }
}

/// The app a request names, once its signature has been checked: a 404
/// refusal for an unknown app, a 401 refusal with the reason for a bad
/// signature.
pub open spec fn gate(
    apps: Seq<App>,
    app_id: Seq<char>,
    method: Seq<char>,
    path: Seq<char>,
    q: Seq<(Seq<char>, Seq<char>)>,
    body: Seq<u8>,
    now: u64,
) -> Result<App, ApiView> {
    match app_named(apps, app_id) {
        None => Err(refusal(404, "Unknown app"@)),
        Some(app) => match rest_auth_outcome(app.key@, app.secret@, method, path, q, body, now) {
            Err(e) => Err(refusal(401, auth_error_text(e))),
            Ok(()) => Ok(app),
        },
    }
}

/// Only the metrics differ between two states.
pub open spec fn same_but_metrics(s0: State, s1: State) -> bool {
    &&& s1.channels == s0.channels
    &&& s1.connections == s0.connections
    &&& s1.apps == s0.apps
    &&& s1.limits == s0.limits
    &&& s1.socket_ids == s0.socket_ids
}

/// `s1` is `s0` after publishing the event with data: the frames `f`, one
/// count more of received events.
pub open spec fn published(s0: State, s1: State, f: Seq<(Seq<u8>, Seq<Seq<char>>)>, app_id: Seq<char>, p: PublishPayload) -> bool {
    &&& p.data is Some
    &&& f == publish_fanouts(
        channel_table(s0.channels),
        app_id,
        payload_name(p),
        p.data->Some_0@,
        string_opt(p.socket_id),
        payload_channels(p),
    )
    &&& s1.metrics == (Metrics { events_received_total: bump(s0.metrics.events_received_total), ..s0.metrics })
    &&& same_but_metrics(s0, s1)
}

/// The answer to `POST /apps/<app_id>/events` received at `now`, and the
/// state after it.
pub open spec fn events_answer(
    s0: State,
    s1: State,
    r: ApiView,
    app_id: Seq<char>,
    q: Seq<(Seq<char>, Seq<char>)>,
    body: Seq<u8>,
    payload: Option<PublishPayload>,
    now: u64,
) -> bool {
    match gate(s0.apps@, app_id, "POST"@, api_path(app_id, "/events"@), q, body, now) {
        Err(x) => r == x && s1 == s0,
        Ok(_) => match payload {
            None => r == refusal(400, "Invalid body"@) && s1 == s0,
            Some(p) => if p.data is None {
                r == refusal(400, "Missing data"@) && s1 == s0
            } else {
                r.status == 200 && r.body == utf8("{}"@) && published(s0, s1, r.fanouts, app_id, p)
            },
        },
    }
}

/// The frames of a batch: each event with data, in order.
pub open spec fn batch_fanouts(
    t: Map<(Seq<char>, Seq<char>), ChannelView>,
    app_id: Seq<char>,
    evs: Seq<PublishPayload>,
) -> Seq<(Seq<u8>, Seq<Seq<char>>)>
    decreases evs.len(),
{
    if evs.len() == 0 {
        seq![]
    } else {
        let p = evs.last();
        let prev = batch_fanouts(t, app_id, evs.drop_last());
        match p.data {
            Some(d) => prev + publish_fanouts(t, app_id, payload_name(p), d@, string_opt(p.socket_id), payload_channels(p)),
            None => prev,
        }
    }
}

/// How many events of a batch carry data.
pub open spec fn with_data(evs: Seq<PublishPayload>) -> nat
    decreases evs.len(),
{
    if evs.len() == 0 {
        0
    } else {
        with_data(evs.drop_last()) + if evs.last().data is Some { 1nat } else { 0nat }
    }
}

/// A counter advanced `n` times.
pub open spec fn bumped(x: u64, n: nat) -> u64
    decreases n,
{
    if n == 0 {
        x
    } else {
        bump(bumped(x, (n - 1) as nat))
    }
}

/// The answer to `POST /apps/<app_id>/batch_events` received at `now`, and
/// the state after it.
pub open spec fn batch_answer(
    s0: State,
    s1: State,
    r: ApiView,
    app_id: Seq<char>,
    q: Seq<(Seq<char>, Seq<char>)>,
    body: Seq<u8>,
    batch: BatchBody,
    now: u64,
) -> bool {
    match gate(s0.apps@, app_id, "POST"@, api_path(app_id, "/batch_events"@), q, body, now) {
        Err(x) => r == x && s1 == s0,
        Ok(_) => match batch {
            BatchBody::Invalid => r == refusal(400, "Invalid body"@) && s1 == s0,
            BatchBody::MissingBatch => r == refusal(400, "Missing batch"@) && s1 == s0,
            BatchBody::Batch(evs) => {
                &&& r.status == 200
                &&& r.body == utf8("{\"batch\":[]}"@)
                &&& r.fanouts == batch_fanouts(channel_table(s0.channels), app_id, evs@)
                &&& s1.metrics == (Metrics {
                    events_received_total: bumped(s0.metrics.events_received_total, with_data(evs@)),
                    ..s0.metrics
                })
                &&& same_but_metrics(s0, s1)
            },
        },
    }
}

/// The number of distinct users of a presence channel.
pub open spec fn user_count(p: Seq<MemberView>) -> nat {
    user_ids(p).len()
}

/// The info object of a channel in the channel list: its user count when
/// asked for and the channel has presence, else empty.
pub open spec fn channel_info(c: ChannelView, want_user_count: bool) -> Seq<u8> {
    match c.presence {
        Some(p) => if want_user_count {
            utf8("{\"user_count\":"@) + decimal(user_count(p)) + utf8("}"@)
        } else {
            utf8("{}"@)
        },
        None => utf8("{}"@),
    }
}

/// The `filter_by_prefix` parameter (empty when absent).
pub open spec fn prefix_param(q: Seq<(Seq<char>, Seq<char>)>) -> Seq<char> {
    match lookup(q, "filter_by_prefix"@) {
        Some(p) => p,
        None => Seq::<char>::empty(),
    }
}

/// Whether the `info` parameter asks for user counts.
pub open spec fn wants_user_count(q: Seq<(Seq<char>, Seq<char>)>) -> bool {
    match lookup(q, "info"@) {
        Some(i) => has_infix(utf8("user_count"@), utf8(i)),
        None => false,
    }
}

/// Names in strictly increasing byte order.
pub open spec fn sorted_names(ns: Seq<Seq<char>>) -> bool {
    forall|i: int, j: int| 0 <= i < j < ns.len() ==> bytes_lt(utf8(#[trigger] ns[i]), utf8(#[trigger] ns[j]))
}

/// Whether an app's channel is listed: it is occupied and its name starts
/// with the prefix.
pub open spec fn listed(t: Map<(Seq<char>, Seq<char>), ChannelView>, app_id: Seq<char>, prefix: Seq<char>, name: Seq<char>) -> bool {
    t.contains_key((app_id, name)) && is_prefix(utf8(prefix), utf8(name))
}

/// `"name":{info}` members of the channel list.
pub open spec fn index_items(
    t: Map<(Seq<char>, Seq<char>), ChannelView>,
    app_id: Seq<char>,
    want_user_count: bool,
    ns: Seq<Seq<char>>,
) -> Seq<Seq<u8>> {
    ns.map_values(|k: Seq<char>| json_str(utf8(k)) + seq![58u8] + channel_info(t[(app_id, k)], want_user_count))
}

/// `r` is `{"channels":{...}}` listing, in name order, the app's channels
/// whose name starts with the prefix, each with its info object.
pub open spec fn is_channel_index(
    t: Map<(Seq<char>, Seq<char>), ChannelView>,
    app_id: Seq<char>,
    prefix: Seq<char>,
    want_user_count: bool,
    r: Seq<u8>,
) -> bool {
    exists|ns: Seq<Seq<char>>|
        sorted_names(ns) && (forall|k: Seq<char>| #[trigger] ns.contains(k) <==> listed(t, app_id, prefix, k)) && r
            == utf8("{\"channels\":{"@) + json_list(index_items(t, app_id, want_user_count, ns)) + utf8("}}"@)
}

/// The answer to `GET /apps/<app_id>/channels` received at `now`.
pub open spec fn index_answer(
    s: State,
    r: ApiView,
    app_id: Seq<char>,
    q: Seq<(Seq<char>, Seq<char>)>,
    now: u64,
) -> bool {
    match gate(s.apps@, app_id, "GET"@, api_path(app_id, "/channels"@), q, Seq::<u8>::empty(), now) {
        Err(x) => r == x,
        Ok(_) => {
            &&& r.status == 200
            &&& r.fanouts.len() == 0
            &&& is_channel_index(channel_table(s.channels), app_id, prefix_param(q), wants_user_count(q), r.body)
        },
    }
}

/// One channel's occupancy: `{"occupied":false}`, or whether occupied with
/// its subscription count and, for presence, its user count.
pub open spec fn channel_status(c: Option<ChannelView>) -> Seq<u8> {
    match c {
        None => utf8("{\"occupied\":false}"@),
        Some(c) => utf8("{\"occupied\":true,\"subscription_count\":"@) + decimal(c.subscribers.len()) + match c.presence {
            Some(p) => utf8(",\"user_count\":"@) + decimal(user_count(p)),
            None => Seq::<u8>::empty(),
        } + utf8("}"@),
    }
}

/// The channel of a table under a key, if any.
pub open spec fn table_get(t: Map<(Seq<char>, Seq<char>), ChannelView>, key: (Seq<char>, Seq<char>)) -> Option<ChannelView> {
    if t.contains_key(key) {
        Some(t[key])
    } else {
        None
    }
}

/// The answer to `GET /apps/<app_id>/channels/<name>` received at `now`.
pub open spec fn show_answer(
    s: State,
    r: ApiView,
    app_id: Seq<char>,
    name: Seq<char>,
    q: Seq<(Seq<char>, Seq<char>)>,
    now: u64,
) -> bool {
    match gate(s.apps@, app_id, "GET"@, api_path(app_id, "/channels/"@ + name), q, Seq::<u8>::empty(), now) {
        Err(x) => r == x,
        Ok(_) => r == ApiView { status: 200, body: channel_status(table_get(channel_table(s.channels), (app_id, name))), fanouts: seq![] },
    }
}

/// `{"id":...}` objects of user ids.
pub open spec fn id_objects(ids: Seq<Seq<char>>) -> Seq<Seq<u8>> {
    ids.map_values(|u: Seq<char>| utf8("{\"id\":"@) + json_str(utf8(u)) + utf8("}"@))
}

/// The users of a presence channel, each once in order of first
/// appearance (none for an unoccupied channel).
pub open spec fn channel_users_list(c: Option<ChannelView>) -> Seq<Seq<char>> {
    match c {
        Some(c) => match c.presence {
            Some(p) => user_ids(p),
            None => seq![],
        },
        None => seq![],
    }
}

/// The answer to `GET /apps/<app_id>/channels/<name>/users` received at `now`.
pub open spec fn users_answer(
    s: State,
    r: ApiView,
    app_id: Seq<char>,
    name: Seq<char>,
    q: Seq<(Seq<char>, Seq<char>)>,
    now: u64,
) -> bool {
    match gate(s.apps@, app_id, "GET"@, api_path(app_id, "/channels/"@ + name + "/users"@), q, Seq::<u8>::empty(), now) {
        Err(x) => r == x,
        Ok(_) => if !is_prefix(utf8("presence-"@), utf8(name)) {
            r == refusal(400, "Users can only be retrieved for presence channels"@)
        } else {
            r == ApiView {
                status: 200,
                body: utf8("{\"users\":["@) + json_list(id_objects(channel_users_list(table_get(channel_table(s.channels), (app_id, name))))) + utf8("]}"@),
                fanouts: seq![],
            }
        },
    }
}

/// The metrics in Prometheus text exposition: the connection and channel
/// gauges, the running totals, and the fan-out distribution time as a
/// summary in microseconds (its sum and count).
pub open spec fn metrics_text(connections: nat, channels: nat, m: Metrics) -> Seq<u8> {
    utf8("# TYPE resonance_connections gauge\nresonance_connections "@) + decimal(connections)
        + utf8("\n# TYPE resonance_channels gauge\nresonance_channels "@) + decimal(channels)
        + utf8("\n# TYPE resonance_connections_total counter\nresonance_connections_total "@) + decimal(m.connections_total as nat)
        + utf8("\n# TYPE resonance_events_received_total counter\nresonance_events_received_total "@) + decimal(m.events_received_total as nat)
        + utf8("\n# TYPE resonance_messages_sent_total counter\nresonance_messages_sent_total "@) + decimal(m.messages_sent_total as nat)
        + utf8("\n# TYPE resonance_slow_consumers_killed_total counter\nresonance_slow_consumers_killed_total "@) + decimal(m.slow_consumers_killed_total as nat)
        + utf8("\n# TYPE resonance_fanout_duration_microseconds summary\nresonance_fanout_duration_microseconds_sum "@) + decimal(m.fanout_micros_sum as nat)
        + utf8("\nresonance_fanout_duration_microseconds_count "@) + decimal(m.fanout_count as nat)
        + utf8("\n"@)
}

/// The metrics text is valid UTF-8.
proof fn lemma_metrics_text_valid(c: nat, h: nat, m: Metrics)
    ensures
        valid_utf8(metrics_text(c, h, m)),
{
    encode_utf8_valid_utf8("# TYPE resonance_connections gauge\nresonance_connections "@);
    encode_utf8_valid_utf8("\n# TYPE resonance_channels gauge\nresonance_channels "@);
    encode_utf8_valid_utf8("\n# TYPE resonance_connections_total counter\nresonance_connections_total "@);
    encode_utf8_valid_utf8("\n# TYPE resonance_events_received_total counter\nresonance_events_received_total "@);
    encode_utf8_valid_utf8("\n# TYPE resonance_messages_sent_total counter\nresonance_messages_sent_total "@);
    encode_utf8_valid_utf8("\n# TYPE resonance_slow_consumers_killed_total counter\nresonance_slow_consumers_killed_total "@);
    encode_utf8_valid_utf8("\n# TYPE resonance_fanout_duration_microseconds summary\nresonance_fanout_duration_microseconds_sum "@);
    encode_utf8_valid_utf8("\nresonance_fanout_duration_microseconds_count "@);
    encode_utf8_valid_utf8("\n"@);
    lemma_decimal_valid_utf8(c);
    lemma_decimal_valid_utf8(h);
    lemma_decimal_valid_utf8(m.connections_total as nat);
    lemma_decimal_valid_utf8(m.events_received_total as nat);
    lemma_decimal_valid_utf8(m.messages_sent_total as nat);
    lemma_decimal_valid_utf8(m.slow_consumers_killed_total as nat);
    lemma_decimal_valid_utf8(m.fanout_micros_sum as nat);
    lemma_decimal_valid_utf8(m.fanout_count as nat);
    let x0 = utf8("# TYPE resonance_connections gauge\nresonance_connections "@);
    valid_utf8_concat(x0, decimal(c));
    let x1 = x0 + decimal(c);
    valid_utf8_concat(x1, utf8("\n# TYPE resonance_channels gauge\nresonance_channels "@));
    let x2 = x1 + utf8("\n# TYPE resonance_channels gauge\nresonance_channels "@);
    valid_utf8_concat(x2, decimal(h));
    let x3 = x2 + decimal(h);
    valid_utf8_concat(x3, utf8("\n# TYPE resonance_connections_total counter\nresonance_connections_total "@));
    let x4 = x3 + utf8("\n# TYPE resonance_connections_total counter\nresonance_connections_total "@);
    valid_utf8_concat(x4, decimal(m.connections_total as nat));
    let x5 = x4 + decimal(m.connections_total as nat);
    valid_utf8_concat(x5, utf8("\n# TYPE resonance_events_received_total counter\nresonance_events_received_total "@));
    let x6 = x5 + utf8("\n# TYPE resonance_events_received_total counter\nresonance_events_received_total "@);
    valid_utf8_concat(x6, decimal(m.events_received_total as nat));
    let x7 = x6 + decimal(m.events_received_total as nat);
    valid_utf8_concat(x7, utf8("\n# TYPE resonance_messages_sent_total counter\nresonance_messages_sent_total "@));
    let x8 = x7 + utf8("\n# TYPE resonance_messages_sent_total counter\nresonance_messages_sent_total "@);
    valid_utf8_concat(x8, decimal(m.messages_sent_total as nat));
    let x9 = x8 + decimal(m.messages_sent_total as nat);
    valid_utf8_concat(x9, utf8("\n# TYPE resonance_slow_consumers_killed_total counter\nresonance_slow_consumers_killed_total "@));
    let x10 = x9 + utf8("\n# TYPE resonance_slow_consumers_killed_total counter\nresonance_slow_consumers_killed_total "@);
    valid_utf8_concat(x10, decimal(m.slow_consumers_killed_total as nat));
    let x11 = x10 + decimal(m.slow_consumers_killed_total as nat);
    valid_utf8_concat(x11, utf8("\n# TYPE resonance_fanout_duration_microseconds summary\nresonance_fanout_duration_microseconds_sum "@));
    let x12 = x11 + utf8("\n# TYPE resonance_fanout_duration_microseconds summary\nresonance_fanout_duration_microseconds_sum "@);
    valid_utf8_concat(x12, decimal(m.fanout_micros_sum as nat));
    let x13 = x12 + decimal(m.fanout_micros_sum as nat);
    valid_utf8_concat(x13, utf8("\nresonance_fanout_duration_microseconds_count "@));
    let x14 = x13 + utf8("\nresonance_fanout_duration_microseconds_count "@);
    valid_utf8_concat(x14, decimal(m.fanout_count as nat));
    let x15 = x14 + decimal(m.fanout_count as nat);
    valid_utf8_concat(x15, utf8("\n"@));
    let x16 = x15 + utf8("\n"@);
    assert(metrics_text(c, h, m) == x16);
}

/// Appends a channel's info object for the channel list.
fn push_channel_info(out: &mut Vec<u8>, c: &ChannelState, want_user_count: bool)
    ensures
        final(out)@ == old(out)@ + channel_info(c@, want_user_count),
{
    match &c.presence {
        Some(p) => if want_user_count {
            push_text(out, "{\"user_count\":");
            let ids = user_list(p);
            push_decimal(out, ids.len() as u64);
            push_text(out, "}");
        } else {
            push_text(out, "{}");
        },
        None => push_text(out, "{}"),
    }
}

/// The channels an event goes to: `channel`, then `channels`.
pub open spec fn payload_channels(p: PublishPayload) -> Seq<Seq<char>> {
    first_channel(p.channel) + string_views(p.channels@)
}

/// The `channel` of an event, as a sequence of at most one name.
pub open spec fn first_channel(c: Option<String>) -> Seq<Seq<char>> {
    match string_opt(c) {
        Some(c) => seq![c],
        None => Seq::<Seq<char>>::empty(),
    }
}

/// The subscribers an event reaches: all but the excluded socket.
pub open spec fn publish_targets(subs: Seq<Seq<char>>, except: Option<Seq<char>>) -> Seq<Seq<char>> {
    match except {
        Some(x) => without(subs, x),
        None => subs,
    }
}

/// The frames an event fans out, one per occupied channel, in order.
pub open spec fn publish_fanouts(
    t: Map<(Seq<char>, Seq<char>), ChannelView>,
    app_id: Seq<char>,
    name: Seq<char>,
    data: Seq<char>,
    except: Option<Seq<char>>,
    chs: Seq<Seq<char>>,
) -> Seq<(Seq<u8>, Seq<Seq<char>>)>
    decreases chs.len(),
{
    if chs.len() == 0 {
        seq![]
    } else {
        let prev = publish_fanouts(t, app_id, name, data, except, chs.drop_last());
        let key = (app_id, chs.last());
        if t.contains_key(key) {
            prev.push(
                (frame_spec(utf8(name), Some(utf8(chs.last())), utf8(data)), publish_targets(t[key].subscribers, except)),
            )
        } else {
            prev
        }
    }
}

/// The name of a published event (empty when absent).
pub open spec fn payload_name(p: PublishPayload) -> Seq<char> {
    match string_opt(p.name) {
        Some(n) => n,
        None => Seq::<char>::empty(),
    }
}

/// A counter advanced by one, wrapping at `u64::MAX`.
pub open spec fn bump(x: u64) -> u64 {
    if x == u64::MAX {
        0
    } else {
        (x + 1) as u64
    }
}

/// `{"error":"..."}`.
pub open spec fn error_body(message: Seq<char>) -> Seq<u8> {
    utf8("{\"error\":"@) + json_str(utf8(message)) + utf8("}"@)
}

fn error_response(status: u16, message: &str) -> (r: ApiResponse)
    ensures
        r@ == refusal(status, message@),
{
    let mut body: Vec<u8> = Vec::new();
    push_text(&mut body, "{\"error\":");
    push_json_str(&mut body, message.as_bytes());
    push_text(&mut body, "}");
    assert(body@ =~= error_body(message@));
    let r = ApiResponse { status, body, fanouts: Vec::new() };
    assert(r@.fanouts =~= Seq::<(Seq<u8>, Seq<Seq<char>>)>::empty());
    r
}

fn ok_response(text: &str, fanouts: Vec<Fanout>) -> (r: ApiResponse)
    ensures
        r@ == success(text@, fanout_views(fanouts@)),
{
    let mut body: Vec<u8> = Vec::new();
    push_text(&mut body, text);
    assert(body@ =~= utf8(text@));
    ApiResponse { status: 200, body, fanouts }
}

/// `/apps/<app_id><tail>`.
fn request_path(app_id: &str, tail: &str) -> (p: String)
    ensures
        p@ == api_path(app_id@, tail@),
{
    String::from_str("/apps/").concat(app_id).concat(tail)
}

/// The seconds since the epoch on the server's clock (zero before the epoch).
fn clock_seconds() -> (s: u64)
    ensures
        exists|t: Option<(u64, u32)>| clock_reading(t) && s == reading_seconds(t),
{
    let t = unix_time();
    assert(clock_reading(t));
    match t {
        Some(r) => r.0,
        None => 0,
    }
}

impl State {
    /// Looks up the app a request names and checks the request's signature.
    fn authorize(&self, app_id: &str, method: &str, path: &str, q: &Query, body: &[u8], now: u64) -> (r: Result<&App, ApiResponse>)
        requires
            q.wf(),
        ensures
            match gate(self.apps@, app_id@, method@, path@, q@, body@, now) {
                Err(x) => r matches Err(resp) && resp@ == x,
                Ok(app) => r matches Ok(a) && *a == app,
            },
    {
        let app = match self.app_by_id(app_id) {
            Some(a) => a,
            None => return Err(error_response(404, "Unknown app")),
        };
        match verify_at(app.key.as_str(), app.secret.as_str(), method, path, q, body, now) {
            Err(e) => Err(error_response(401, e.message())),
            Ok(()) => Ok(app),
        }
    }

    /// `POST /apps/<app_id>/events` received at `now` (seconds since the
    /// epoch): the request's signature is checked, then the event, already
    /// parsed from the body (`None`: the body is not JSON), is published.
    pub fn events_at(&mut self, app_id: &str, q: &Query, body: &[u8], payload: &Option<PublishPayload>, now: u64) -> (r: ApiResponse)
        requires
            q.wf(),
        ensures
            events_answer(*old(self), *final(self), r@, app_id@, q@, body@, *payload, now),
    {
        let path = request_path(app_id, "/events");
        match self.authorize(app_id, "POST", path.as_str(), q, body, now) {
            Err(resp) => return resp,
            Ok(_) => {},
        }
        let p = match payload {
            Some(p) => p,
            None => return error_response(400, "Invalid body"),
        };
        match self.publish(app_id, p) {
            Err(()) => error_response(400, "Missing data"),
            Ok(f) => ok_response("{}", f),
        }
    }

    /// `POST /apps/<app_id>/events`, checked against the server's clock.
    pub fn events(&mut self, app_id: &str, q: &Query, body: &[u8], payload: &Option<PublishPayload>) -> (r: ApiResponse)
        requires
            q.wf(),
        ensures
            exists|t: Option<(u64, u32)>| clock_reading(t) && events_answer(*old(self), *final(self), r@, app_id@, q@, body@, *payload, reading_seconds(t)),
    {
        let now = clock_seconds();
        self.events_at(app_id, q, body, payload, now)
    }

    /// `POST /apps/<app_id>/batch_events` received at `now`: the request's
    /// signature is checked, then each event of the batch with data is
    /// published, in order; events without data are skipped.
    pub fn batch_events_at(&mut self, app_id: &str, q: &Query, body: &[u8], batch: &BatchBody, now: u64) -> (r: ApiResponse)
        requires
            q.wf(),
        ensures
            batch_answer(*old(self), *final(self), r@, app_id@, q@, body@, *batch, now),
    {
        let path = request_path(app_id, "/batch_events");
        match self.authorize(app_id, "POST", path.as_str(), q, body, now) {
            Err(resp) => return resp,
            Ok(_) => {},
        }
        let evs = match batch {
            BatchBody::Invalid => return error_response(400, "Invalid body"),
            BatchBody::MissingBatch => return error_response(400, "Missing batch"),
            BatchBody::Batch(evs) => evs,
        };
        let ghost s0 = *self;
        let ghost t = channel_table(self.channels);
        let mut fanouts: Vec<Fanout> = Vec::new();
        let mut i: usize = 0;
        assert(evs@.take(0) =~= Seq::<PublishPayload>::empty());
        while i < evs.len()
            invariant
                i <= evs@.len(),
                t == channel_table(s0.channels),
                same_but_metrics(s0, *self),
                self.metrics == (Metrics {
                    events_received_total: bumped(s0.metrics.events_received_total, with_data(evs@.take(i as int))),
                    ..s0.metrics
                }),
                fanout_views(fanouts@) == batch_fanouts(t, app_id@, evs@.take(i as int)),
            decreases evs.len() - i,
        {
            let ghost pre = evs@.take(i as int);
            let ghost cur = evs@.take(i + 1);
            assert(cur.drop_last() =~= pre);
            assert(cur.last() == evs@[i as int]);
            match self.publish(app_id, &evs[i]) {
                Ok(f) => {
                    let ghost before = fanout_views(fanouts@);
                    let mut f = f;
                    let ghost added = fanout_views(f@);
                    fanouts.append(&mut f);
                    assert(fanout_views(fanouts@) =~= before + added);
                },
                Err(()) => {},
            }
            i = i + 1;
        }
        assert(evs@.take(i as int) =~= evs@);
        ok_response("{\"batch\":[]}", fanouts)
    }

    /// `POST /apps/<app_id>/batch_events`, checked against the server's clock.
    pub fn batch_events(&mut self, app_id: &str, q: &Query, body: &[u8], batch: &BatchBody) -> (r: ApiResponse)
        requires
            q.wf(),
        ensures
            exists|t: Option<(u64, u32)>| clock_reading(t) && batch_answer(*old(self), *final(self), r@, app_id@, q@, body@, *batch, reading_seconds(t)),
    {
        let now = clock_seconds();
        self.batch_events_at(app_id, q, body, batch, now)
    }

    /// `GET /apps/<app_id>/channels` received at `now`: the app's occupied
    /// channels whose name starts with `filter_by_prefix`, in name order,
    /// with user counts when `info` asks for them.
    pub fn channels_index_at(&self, app_id: &str, q: &Query, now: u64) -> (r: ApiResponse)
        requires
            q.wf(),
        ensures
            index_answer(*self, r@, app_id@, q@, now),
    {
        let path = request_path(app_id, "/channels");
        let none: Vec<u8> = Vec::new();
        match self.authorize(app_id, "GET", path.as_str(), q, none.as_slice(), now) {
            Err(resp) => return resp,
            Ok(_) => {},
        }
        assert(none@ =~= Seq::<u8>::empty());
        let prefix: &str = match q.get("filter_by_prefix") {
            Some(p) => p.as_str(),
            None => "",
        };
        proof {
            if lookup(q@, "filter_by_prefix"@) is None {
                assert(""@ =~= Seq::<char>::empty()) by {
                    reveal_strlit("");
                }
            }
        }
        let want = match q.get("info") {
            Some(i) => contains_bytes(i.as_str().as_bytes(), "user_count".as_bytes()),
            None => false,
        };
        let ghost t = channel_table(self.channels);
        let es = channel_entries(&self.channels);
        let mut names = Query::new();
        let mut i: usize = 0;
        while i < es.len()
            invariant
                i <= es@.len(),
                names.wf(),
                t == channel_table(self.channels),
                forall|j: int|
                    0 <= j < es@.len() ==> t.contains_key((es@[j].0@, es@[j].1@)) && t[(es@[j].0@, es@[j].1@)]
                        == (#[trigger] es@[j]).2@,
                forall|k: Seq<char>| #[trigger] lookup(names@, k) is Some ==> listed(t, app_id@, prefix@, k),
                forall|j: int|
                    0 <= j < i && (#[trigger] es@[j]).0@ == app_id@ && listed(t, app_id@, prefix@, es@[j].1@)
                        ==> lookup(names@, es@[j].1@) is Some,
            decreases es.len() - i,
        {
            let e = &es[i];
            if crate::bytes::str_is(e.0.as_str(), app_id) && has_prefix(e.1.as_str(), prefix) {
                let _ = names.insert(e.1.clone(), String::new());
            }
            i = i + 1;
        }
        let ghost h = names@;
        let ghost ns = Seq::new(h.len(), |j: int| h[j].0);
        proof {
            assert forall|k: Seq<char>| #[trigger] ns.contains(k) <==> listed(t, app_id@, prefix@, k) by {
                lemma_lookup_some(h, k);
                if ns.contains(k) {
                    let j = choose|j: int| 0 <= j < ns.len() && ns[j] == k;
                    assert(h[j].0 == k);
                }
                if listed(t, app_id@, prefix@, k) {
                    let j = choose|j: int| 0 <= j < es@.len() && ((#[trigger] es@[j]).0@, es@[j].1@) == (app_id@, k);
                    assert(lookup(h, k) is Some);
                    let m = choose|m: int| 0 <= m < h.len() && (#[trigger] h[m]).0 == k;
                    assert(ns[m] == k);
                }
            }
            assert(sorted_names(ns));
        }
        let mut out: Vec<u8> = Vec::new();
        push_text(&mut out, "{\"channels\":{");
        let ghost head = out@;
        let ghost items = index_items(t, app_id@, want, ns);
        let mut j: usize = 0;
        assert(items.take(0) =~= Seq::<Seq<u8>>::empty());
        while j < names.len()
            invariant
                j <= h.len(),
                h == names@,
                ns == Seq::new(h.len(), |m: int| h[m].0),
                items == index_items(t, app_id@, want, ns),
                t == channel_table(self.channels),
                forall|k: Seq<char>| #[trigger] ns.contains(k) <==> listed(t, app_id@, prefix@, k),
                out@ == head + json_list(items.take(j as int)),
            decreases h.len() - j,
        {
            let name = names.key_at(j);
            assert(ns[j as int] == name@);
            assert(ns.contains(name@));
            let key = (app_id.to_owned(), name.clone());
            let mut item: Vec<u8> = Vec::new();
            push_json_str(&mut item, name.as_str().as_bytes());
            item.push(58u8);
            match channel_get(&self.channels, &key) {
                Some(c) => push_channel_info(&mut item, &c, want),
                None => {},
            }
            assert(item@ == items[j as int]);
            assert(items.take(j + 1) =~= items.take(j as int).push(item@));
            push_list_item(&mut out, Ghost(head), Ghost(items.take(j as int)), j == 0, item.as_slice());
            j = j + 1;
        }
        assert(items.take(j as int) =~= items);
        push_text(&mut out, "}}");
        let r = ApiResponse { status: 200, body: out, fanouts: Vec::new() };
        assert(r@.fanouts =~= Seq::<(Seq<u8>, Seq<Seq<char>>)>::empty());
        r
    }

    /// `GET /apps/<app_id>/channels`, checked against the server's clock.
    pub fn channels_index(&self, app_id: &str, q: &Query) -> (r: ApiResponse)
        requires
            q.wf(),
        ensures
            exists|t: Option<(u64, u32)>| clock_reading(t) && index_answer(*self, r@, app_id@, q@, reading_seconds(t)),
    {
        let now = clock_seconds();
        self.channels_index_at(app_id, q, now)
    }

    /// `GET /apps/<app_id>/channels/<name>` received at `now`: whether the
    /// channel is occupied, its subscription count and, for presence, its
    /// user count.
    pub fn channel_show_at(&self, app_id: &str, name: &str, q: &Query, now: u64) -> (r: ApiResponse)
        requires
            q.wf(),
        ensures
            show_answer(*self, r@, app_id@, name@, q@, now),
    {
        let tail = String::from_str("/channels/").concat(name);
        let path = request_path(app_id, tail.as_str());
        let none: Vec<u8> = Vec::new();
        match self.authorize(app_id, "GET", path.as_str(), q, none.as_slice(), now) {
            Err(resp) => return resp,
            Ok(_) => {},
        }
        assert(none@ =~= Seq::<u8>::empty());
        let key = (app_id.to_owned(), name.to_owned());
        let mut out: Vec<u8> = Vec::new();
        match channel_get(&self.channels, &key) {
            None => push_text(&mut out, "{\"occupied\":false}"),
            Some(c) => {
                push_text(&mut out, "{\"occupied\":true,\"subscription_count\":");
                push_decimal(&mut out, c.subscribers.len() as u64);
                match &c.presence {
                    Some(p) => {
                        push_text(&mut out, ",\"user_count\":");
                        let ids = user_list(p);
                        push_decimal(&mut out, ids.len() as u64);
                    },
                    None => {},
                }
                push_text(&mut out, "}");
            },
        }
        let r = ApiResponse { status: 200, body: out, fanouts: Vec::new() };
        assert(r@.fanouts =~= Seq::<(Seq<u8>, Seq<Seq<char>>)>::empty());
        assert(r@.body =~= channel_status(table_get(channel_table(self.channels), (app_id@, name@))));
        r
    }

    /// `GET /apps/<app_id>/channels/<name>`, checked against the server's clock.
    pub fn channel_show(&self, app_id: &str, name: &str, q: &Query) -> (r: ApiResponse)
        requires
            q.wf(),
        ensures
            exists|t: Option<(u64, u32)>| clock_reading(t) && show_answer(*self, r@, app_id@, name@, q@, reading_seconds(t)),
    {
        let now = clock_seconds();
        self.channel_show_at(app_id, name, q, now)
    }

    /// `GET /apps/<app_id>/channels/<name>/users` received at `now`: the
    /// ids of a presence channel's users; refused for other channels.
    pub fn channel_users_at(&self, app_id: &str, name: &str, q: &Query, now: u64) -> (r: ApiResponse)
        requires
            q.wf(),
        ensures
            users_answer(*self, r@, app_id@, name@, q@, now),
    {
        let tail = String::from_str("/channels/").concat(name).concat("/users");
        let path = request_path(app_id, tail.as_str());
        let none: Vec<u8> = Vec::new();
        match self.authorize(app_id, "GET", path.as_str(), q, none.as_slice(), now) {
            Err(resp) => return resp,
            Ok(_) => {},
        }
        assert(none@ =~= Seq::<u8>::empty());
        if !has_prefix(name, "presence-") {
            return error_response(400, "Users can only be retrieved for presence channels");
        }
        let key = (app_id.to_owned(), name.to_owned());
        let ids: Vec<String> = match channel_get(&self.channels, &key) {
            Some(c) => match &c.presence {
                Some(p) => user_list(p),
                None => Vec::new(),
            },
            None => Vec::new(),
        };
        let ghost us = string_views(ids@);
        assert(us =~= channel_users_list(table_get(channel_table(self.channels), (app_id@, name@))));
        let ghost items = id_objects(us);
        let mut out: Vec<u8> = Vec::new();
        push_text(&mut out, "{\"users\":[");
        let ghost head = out@;
        let mut j: usize = 0;
        assert(items.take(0) =~= Seq::<Seq<u8>>::empty());
        while j < ids.len()
            invariant
                j <= us.len(),
                us == string_views(ids@),
                items == id_objects(us),
                out@ == head + json_list(items.take(j as int)),
            decreases us.len() - j,
        {
            let mut item: Vec<u8> = Vec::new();
            push_text(&mut item, "{\"id\":");
            push_json_str(&mut item, ids[j].as_str().as_bytes());
            push_text(&mut item, "}");
            assert(item@ =~= items[j as int]);
            assert(items.take(j + 1) =~= items.take(j as int).push(item@));
            push_list_item(&mut out, Ghost(head), Ghost(items.take(j as int)), j == 0, item.as_slice());
            j = j + 1;
        }
        assert(items.take(j as int) =~= items);
        push_text(&mut out, "]}");
        let r = ApiResponse { status: 200, body: out, fanouts: Vec::new() };
        assert(r@.fanouts =~= Seq::<(Seq<u8>, Seq<Seq<char>>)>::empty());
        r
    }

    /// `GET /apps/<app_id>/channels/<name>/users`, checked against the server's clock.
    pub fn channel_users(&self, app_id: &str, name: &str, q: &Query) -> (r: ApiResponse)
        requires
            q.wf(),
        ensures
            exists|t: Option<(u64, u32)>| clock_reading(t) && users_answer(*self, r@, app_id@, name@, q@, reading_seconds(t)),
    {
        let now = clock_seconds();
        self.channel_users_at(app_id, name, q, now)
    }

    /// `GET /metrics`: connection and channel gauges, the running totals and
    /// the fan-out distribution time.
    pub fn metrics(&self) -> (text: String)
        ensures
            utf8(text@) == metrics_text(
                connection_table(self.connections).len(),
                channel_table(self.channels).len(),
                self.metrics,
            ),
    {
        let conns = connection_count(&self.connections);
        let chans = channel_count(&self.channels);
        let m = self.metrics;
        let mut out: Vec<u8> = Vec::new();
        push_text(&mut out, "# TYPE resonance_connections gauge\nresonance_connections ");
        push_decimal(&mut out, conns as u64);
        push_text(&mut out, "\n# TYPE resonance_channels gauge\nresonance_channels ");
        push_decimal(&mut out, chans as u64);
        push_text(&mut out, "\n# TYPE resonance_connections_total counter\nresonance_connections_total ");
        push_decimal(&mut out, m.connections_total);
        push_text(&mut out, "\n# TYPE resonance_events_received_total counter\nresonance_events_received_total ");
        push_decimal(&mut out, m.events_received_total);
        push_text(&mut out, "\n# TYPE resonance_messages_sent_total counter\nresonance_messages_sent_total ");
        push_decimal(&mut out, m.messages_sent_total);
        push_text(&mut out, "\n# TYPE resonance_slow_consumers_killed_total counter\nresonance_slow_consumers_killed_total ");
        push_decimal(&mut out, m.slow_consumers_killed_total);
        push_text(&mut out, "\n# TYPE resonance_fanout_duration_microseconds summary\nresonance_fanout_duration_microseconds_sum ");
        push_decimal(&mut out, m.fanout_micros_sum);
        push_text(&mut out, "\nresonance_fanout_duration_microseconds_count ");
        push_decimal(&mut out, m.fanout_count);
        push_text(&mut out, "\n");
        proof {
            lemma_metrics_text_valid(conns as nat, chans as nat, m);
            assert(out@ =~= metrics_text(conns as nat, chans as nat, m));
        }
        string_from_utf8(out)
    }

    /// Fans an event out to its channels: one frame per occupied channel,
    /// to every subscriber but `socket_id`. Refused (`Err`) without `data`;
    /// otherwise the count of received events advances.
    pub fn publish(&mut self, app_id: &str, payload: &PublishPayload) -> (r: Result<Vec<Fanout>, ()>)
        ensures
            match r {
                Err(()) => payload.data is None && *final(self) == *old(self),
                Ok(f) => published(*old(self), *final(self), fanout_views(f@), app_id@, *payload),
            },
    {
        let name: &str = match &payload.name {
            Some(n) => n.as_str(),
            None => "",
        };
        proof {
            if payload.name is None {
                assert(""@ =~= Seq::<char>::empty()) by {
                    reveal_strlit("");
                }
            }
            assert(name@ == payload_name(*payload));
        }
        let data = match &payload.data {
            Some(d) => d,
            None => return Err(()),
        };
        let mut channels: Vec<String> = Vec::new();
        match &payload.channel {
            Some(c) => channels.push(c.clone()),
            None => {},
        }
        let ghost pre_len = channels@.len();
        let mut j: usize = 0;
        while j < payload.channels.len()
            invariant
                j <= payload.channels@.len(),
                pre_len == channels@.len() - j,
                string_views(channels@) == first_channel(payload.channel) + string_views(payload.channels@).take(j as int),
            decreases payload.channels.len() - j,
        {
            let ghost before = channels@;
            let c = payload.channels[j].clone();
            assert(c@ == payload.channels@[j as int]@);
            channels.push(c);
            assert(string_views(channels@) =~= string_views(before).push(c@));
            assert(string_views(payload.channels@).take(j + 1) =~= string_views(payload.channels@).take(j as int).push(payload.channels@[j as int]@));
            assert(string_views(channels@) =~= first_channel(payload.channel) + string_views(payload.channels@).take(j + 1));
            j = j + 1;
        }
        assert(string_views(payload.channels@).take(j as int) =~= string_views(payload.channels@));
        self.metrics.events_received_total = self.metrics.events_received_total.wrapping_add(1);
        let ghost t = channel_table(self.channels);
        let ghost chs = string_views(channels@);
        let except = crate::session::opt_as_str(&payload.socket_id);
        let mut fanouts: Vec<Fanout> = Vec::new();
        let mut i: usize = 0;
        assert(chs.take(0) =~= Seq::<Seq<char>>::empty());
        while i < channels.len()
            invariant
                i <= chs.len(),
                chs == string_views(channels@),
                t == channel_table(self.channels),
                str_opt(except) == string_opt(payload.socket_id),
                fanout_views(fanouts@) == publish_fanouts(t, app_id@, name@, data@, string_opt(payload.socket_id), chs.take(i as int)),
            decreases chs.len() - i,
        {
            let ghost pre = chs.take(i as int);
            let ghost cur = chs.take(i + 1);
            assert(cur.drop_last() =~= pre);
            assert(cur.last() == channels@[i as int]@);
            let ch = channels[i].as_str();
            let key = (app_id.to_owned(), ch.to_owned());
            match channel_get(&self.channels, &key) {
                Some(cs) => {
                    let targets = match except {
                        Some(x) => strings_without(&cs.subscribers, x),
                        None => copy_strings(&cs.subscribers),
                    };
                    let f = frame(name, Some(ch), data.as_str().as_bytes());
                    let ghost fv = fanout_views(fanouts@);
                    fanouts.push(Fanout { frame: f, targets });
                    assert(fanout_views(fanouts@) =~= fv.push((frame_spec(utf8(name@), Some(utf8(ch@)), utf8(data@)), publish_targets(t[(app_id@, ch@)].subscribers, string_opt(payload.socket_id)))));
                },
                None => {},
            }
            i = i + 1;
        }
        assert(chs.take(i as int) =~= chs);
        Ok(fanouts)
    }

    /// Counts the delivery of a publish's fan-out: frames handed over, slow
    /// consumers disconnected, and the microseconds the distribution took,
    /// as measured by the caller (each counter wraps).
    pub fn record_delivery(&mut self, sent: u64, killed: u64, micros: u64)
        ensures
            final(self).metrics.messages_sent_total == (old(self).metrics.messages_sent_total + sent) % 0x1_0000_0000_0000_0000,
            final(self).metrics.slow_consumers_killed_total == (old(self).metrics.slow_consumers_killed_total + killed) % 0x1_0000_0000_0000_0000,
            final(self).metrics.fanout_micros_sum == (old(self).metrics.fanout_micros_sum + micros) % 0x1_0000_0000_0000_0000,
            final(self).metrics.fanout_count == bump(old(self).metrics.fanout_count),
            final(self).metrics.connections_total == old(self).metrics.connections_total,
            final(self).metrics.events_received_total == old(self).metrics.events_received_total,
            final(self).channels == old(self).channels,
            final(self).connections == old(self).connections,
            final(self).apps == old(self).apps,
            final(self).limits == old(self).limits,
            final(self).socket_ids == old(self).socket_ids,
    {
        self.metrics.messages_sent_total = self.metrics.messages_sent_total.wrapping_add(sent);
        self.metrics.slow_consumers_killed_total = self.metrics.slow_consumers_killed_total.wrapping_add(killed);
        self.metrics.fanout_micros_sum = self.metrics.fanout_micros_sum.wrapping_add(micros);
        self.metrics.fanout_count = self.metrics.fanout_count.wrapping_add(1);
    }
}

} // verus!
