//! Properties of the server as a whole, stated over the specifications that
//! the operations' own contracts use.

use vstd::prelude::*;
use crate::bytes::{utf8, decimal, is_prefix, lemma_decimal_injective};
use crate::channels::{
    without, without_socket, add_subscriber, member_of, has_user, join_spec, join_presence_spec,
    leave_spec, joins_new_user, departing_user, channel_after_leave, members_after_join,
    channel_or_empty, lemma_without_contains, lemma_without_push,
};
use crate::json::frame_spec;
use crate::session::{Table, EffectsView, ClientMessage, client_event_outcome, subscribe_outcome, message_outcome, leave_all};
use crate::state::{MemberView, ChannelView, channel_wf, socket_id_spec};
use crate::api::{
    publish_fanouts, publish_targets, gate, refusal, api_path, events_answer, batch_answer, index_answer,
    users_answer, ApiView, PublishPayload, BatchBody, bump, same_but_metrics,
};
use crate::clock::{clock_reading, reading_seconds};
use crate::state::{App, State, app_named};
use crate::query::lookup;
use crate::crypto::{hmac_sha256, md5, hex_lower};
use crate::rest_auth::{rest_auth_outcome, timestamp_of, distance, string_to_sign_spec, TIMESTAMP_TOLERANCE_S, AuthError};
use crate::channel_auth::{channel_auth_valid, channel_sign_input};
use crate::rate::{count_after, next_count, WINDOW_NANOS};
use crate::session::{joined, joined_presence, MemberData};

verus! {

/// A client event is never sent back to the connection that sent it, and it
/// only goes out on a private or presence channel that the sender has
/// subscribed to.
pub proof fn law_client_event_not_echoed(
    t: Table,
    subs: Seq<Seq<char>>,
    e: EffectsView,
    app_id: Seq<char>,
    sid: Seq<char>,
    msg: ClientMessage,
)
    requires
        client_event_outcome(t, subs, e, app_id, sid, msg),
    ensures
        forall|i: int| 0 <= i < e.fanouts.len() ==> !(#[trigger] e.fanouts[i]).1.contains(sid),
        e.fanouts.len() > 0 ==> (msg.channel matches Some(ch) && subs.contains(ch@) && (is_prefix(
            utf8("private-"@),
            utf8(ch@),
        ) || is_prefix(utf8("presence-"@), utf8(ch@)))),
{
    match msg.channel {
        Some(ch) => {
            if t.contains_key((app_id, ch@)) {
                lemma_without_contains(t[(app_id, ch@)].subscribers, sid, sid);
            }
        },
        None => {},
    }
}

/// An event published with a `socket_id` never reaches that socket.
pub proof fn law_publish_excludes_sender(
    t: Table,
    app_id: Seq<char>,
    name: Seq<char>,
    data: Seq<char>,
    x: Seq<char>,
    chs: Seq<Seq<char>>,
)
    ensures
        forall|i: int|
            0 <= i < publish_fanouts(t, app_id, name, data, Some(x), chs).len() ==> !(#[trigger] publish_fanouts(
                t,
                app_id,
                name,
                data,
                Some(x),
                chs,
            )[i]).1.contains(x),
    decreases chs.len(),
{
    if chs.len() > 0 {
        law_publish_excludes_sender(t, app_id, name, data, x, chs.drop_last());
        let f = publish_fanouts(t, app_id, name, data, Some(x), chs);
        let prev = publish_fanouts(t, app_id, name, data, Some(x), chs.drop_last());
        let key = (app_id, chs.last());
        if t.contains_key(key) {
            lemma_without_contains(t[key].subscribers, x, x);
        }
        assert forall|i: int| 0 <= i < f.len() implies !(#[trigger] f[i]).1.contains(x) by {
            if i < prev.len() {
                assert(f[i] == prev[i]);
            }
        }
    }
}

/// A published event reaches every subscriber of each occupied channel it
/// names, but the excluded socket, with that channel's frame.
pub proof fn law_publish_reaches_subscribers(
    t: Table,
    app_id: Seq<char>,
    name: Seq<char>,
    data: Seq<char>,
    except: Option<Seq<char>>,
    chs: Seq<Seq<char>>,
    j: int,
    y: Seq<char>,
)
    requires
        0 <= j < chs.len(),
        t.contains_key((app_id, chs[j])),
        t[(app_id, chs[j])].subscribers.contains(y),
        except != Some(y),
    ensures
        exists|i: int|
            0 <= i < publish_fanouts(t, app_id, name, data, except, chs).len() && (#[trigger] publish_fanouts(
                t,
                app_id,
                name,
                data,
                except,
                chs,
            )[i]).1.contains(y) && publish_fanouts(t, app_id, name, data, except, chs)[i].0 == frame_spec(
                utf8(name),
                Some(utf8(chs[j])),
                utf8(data),
            ),
    decreases chs.len(),
{
    let f = publish_fanouts(t, app_id, name, data, except, chs);
    let prev = publish_fanouts(t, app_id, name, data, except, chs.drop_last());
    if j < chs.len() - 1 {
        assert(chs.drop_last()[j] == chs[j]);
        law_publish_reaches_subscribers(t, app_id, name, data, except, chs.drop_last(), j, y);
        let i = choose|i: int|
            0 <= i < prev.len() && (#[trigger] prev[i]).1.contains(y) && prev[i].0 == frame_spec(
                utf8(name),
                Some(utf8(chs.drop_last()[j])),
                utf8(data),
            );
        assert(f[i] == prev[i]);
    } else {
        let key = (app_id, chs.last());
        let subs = t[key].subscribers;
        match except {
            Some(x) => lemma_without_contains(subs, x, y),
            None => {},
        }
        assert(publish_targets(subs, except).contains(y));
        assert(f[prev.len() as int].1.contains(y));
    }
}

/// No two socket ids with the same prefix and different counters coincide.
pub proof fn law_socket_ids_distinct(prefix: u64, c1: u64, c2: u64)
    requires
        c1 != c2,
    ensures
        socket_id_spec(prefix, c1) != socket_id_spec(prefix, c2),
{
    let p = decimal(prefix as nat) + seq![46u8];
    if socket_id_spec(prefix, c1) == socket_id_spec(prefix, c2) {
        assert(socket_id_spec(prefix, c1).skip(p.len() as int) =~= decimal(c1 as nat));
        assert(socket_id_spec(prefix, c2).skip(p.len() as int) =~= decimal(c2 as nat));
        lemma_decimal_injective(c1 as nat, c2 as nat);
    }
}

/// Subscribing a socket to a channel and unsubscribing it again leaves the
/// channel table as it was, when the socket was not in the channel before.
pub proof fn law_subscribe_unsubscribe_restores(t: Table, key: (Seq<char>, Seq<char>), sid: Seq<char>)
    requires
        t.contains_key(key) ==> {
            &&& channel_wf(t[key])
            &&& !t[key].subscribers.contains(sid)
            &&& match t[key].presence {
                Some(p) => forall|i: int| 0 <= i < p.len() ==> (#[trigger] p[i]).socket_id != sid,
                None => true,
            }
        },
    ensures
        leave_spec(join_spec(t, key, sid), key, sid) == t,
{
    let t1 = join_spec(t, key, sid);
    if t.contains_key(key) {
        let c = t[key];
        lemma_without_push(c.subscribers, sid);
        match c.presence {
            Some(p) => lemma_without_socket_absent(p, sid),
            None => {},
        }
        assert(channel_after_leave(t1[key], sid) == c);
        assert(leave_spec(t1, key, sid) =~= t);
    } else {
        lemma_without_push(Seq::<Seq<char>>::empty(), sid);
        assert(Seq::<Seq<char>>::empty().push(sid).len() == 1);
        assert(leave_spec(t1, key, sid) =~= t);
    }
}

/// A member joining a presence channel and leaving it again leaves the
/// channel table as it was, when its socket was not in the channel before;
/// and its user is announced as removed on leaving exactly when it was
/// announced as added on joining.
pub proof fn law_presence_join_leave(t: Table, key: (Seq<char>, Seq<char>), m: MemberView)
    requires
        t.contains_key(key) ==> {
            &&& channel_wf(t[key])
            &&& !t[key].subscribers.contains(m.socket_id)
            &&& t[key].presence matches Some(p) && forall|i: int|
                0 <= i < p.len() ==> (#[trigger] p[i]).socket_id != m.socket_id
        },
    ensures
        leave_spec(join_presence_spec(t, key, m), key, m.socket_id) == t,
        departing_user(join_presence_spec(t, key, m), key, m.socket_id) == if joins_new_user(t, key, m) {
            Some(m.user_id)
        } else {
            None
        },
{
    let sid = m.socket_id;
    let t1 = join_presence_spec(t, key, m);
    let p = match channel_or_none(t, key) {
        Some(p) => p,
        None => Seq::<MemberView>::empty(),
    };
    lemma_without_socket_absent(p, sid);
    let q = p.push(m);
    assert(q.drop_last() =~= p);
    assert(member_of(q, sid) == Some(m));
    assert(without_socket(q, sid) == p);
    if t.contains_key(key) {
        let c = t[key];
        assert(members_after_join(c, m) == q);
        lemma_without_push(c.subscribers, sid);
        assert(channel_after_leave(t1[key], sid) == c);
        assert(leave_spec(t1, key, sid) =~= t);
    } else {
        assert(members_after_join(crate::channels::empty_channel(), m) == q);
        lemma_without_push(Seq::<Seq<char>>::empty(), sid);
        assert(Seq::<Seq<char>>::empty().push(sid).len() == 1);
        assert(leave_spec(t1, key, sid) =~= t);
        assert(!has_user(p, m.user_id));
    }
}

/// The members of the presence channel under `key`, if it has presence.
spec fn channel_or_none(t: Table, key: (Seq<char>, Seq<char>)) -> Option<Seq<MemberView>> {
    if t.contains_key(key) {
        t[key].presence
    } else {
        None
    }
}

/// Removing an absent socket's member entry changes nothing.
proof fn lemma_without_socket_absent(p: Seq<MemberView>, sid: Seq<char>)
    requires
        forall|i: int| 0 <= i < p.len() ==> (#[trigger] p[i]).socket_id != sid,
    ensures
        without_socket(p, sid) == p,
    decreases p.len(),
{
    if p.len() > 0 {
        let r = p.drop_last();
        assert forall|i: int| 0 <= i < r.len() implies (#[trigger] r[i]).socket_id != sid by {
            assert(r[i] == p[i]);
        }
        lemma_without_socket_absent(r, sid);
        assert(p[p.len() - 1] == p.last());
        assert(r.push(p.last()) =~= p);
    }
}

/// A subscription never takes a connection past its channel limit.
pub proof fn law_channel_limit(
    t: Table,
    t2: Table,
    subs: Seq<Seq<char>>,
    subs2: Seq<Seq<char>>,
    e: EffectsView,
    app: crate::state::App,
    sid: Seq<char>,
    max_channels: usize,
    msg: ClientMessage,
)
    requires
        subscribe_outcome(t, t2, subs, subs2, e, app, sid, max_channels, msg),
        subs.len() <= max_channels,
    ensures
        subs2.len() <= max_channels,
{
}

/// A REST request carrying the app's key, a timestamp within 600 seconds of
/// the server's clock, the hex MD5 of its body (when it has one) and the hex
/// HMAC-SHA256 of its string to sign, under the app's secret, is accepted.
pub proof fn law_signed_request_accepted(
    key: Seq<char>,
    secret: Seq<char>,
    method: Seq<char>,
    path: Seq<char>,
    q: Seq<(Seq<char>, Seq<char>)>,
    body: Seq<u8>,
    now: u64,
)
    requires
        lookup(q, "auth_key"@) == Some(key),
        timestamp_of(q) matches Some(ts) && distance(now, ts) <= TIMESTAMP_TOLERANCE_S,
        body.len() > 0 ==> (lookup(q, "body_md5"@) matches Some(d) && utf8(d) == hex_lower(md5(body))),
        lookup(q, "auth_signature"@) matches Some(sig) && utf8(sig) == hex_lower(
            hmac_sha256(utf8(secret), string_to_sign_spec(method, path, q)),
        ),
    ensures
        rest_auth_outcome(key, secret, method, path, q, body, now) == Ok::<(), AuthError>(()),
{
}

/// A REST request whose timestamp lies more than 600 seconds from the
/// server's clock is refused, whatever else it carries.
pub proof fn law_stale_request_refused(
    key: Seq<char>,
    secret: Seq<char>,
    method: Seq<char>,
    path: Seq<char>,
    q: Seq<(Seq<char>, Seq<char>)>,
    body: Seq<u8>,
    now: u64,
)
    requires
        timestamp_of(q) matches Some(ts) && distance(now, ts) > TIMESTAMP_TOLERANCE_S,
    ensures
        rest_auth_outcome(key, secret, method, path, q, body, now) is Err,
{
}

/// A REST request with a body but no `body_md5` is refused: the signature
/// alone would leave the body unauthenticated.
pub proof fn law_body_needs_digest(
    key: Seq<char>,
    secret: Seq<char>,
    method: Seq<char>,
    path: Seq<char>,
    q: Seq<(Seq<char>, Seq<char>)>,
    body: Seq<u8>,
    now: u64,
)
    requires
        body.len() > 0,
        lookup(q, "body_md5"@) is None,
    ensures
        rest_auth_outcome(key, secret, method, path, q, body, now) is Err,
{
}

/// A REST request whose `auth_signature` is missing or differs from the hex
/// HMAC-SHA256 of its string to sign is refused.
pub proof fn law_unsigned_request_refused(
    key: Seq<char>,
    secret: Seq<char>,
    method: Seq<char>,
    path: Seq<char>,
    q: Seq<(Seq<char>, Seq<char>)>,
    body: Seq<u8>,
    now: u64,
)
    requires
        match lookup(q, "auth_signature"@) {
            Some(sig) => utf8(sig) != hex_lower(hmac_sha256(utf8(secret), string_to_sign_spec(method, path, q))),
            None => true,
        },
    ensures
        rest_auth_outcome(key, secret, method, path, q, body, now) is Err,
{
}

/// The `auth` value an app computes for a subscription, `key:hex signature`,
/// is accepted, for a key without a colon.
pub proof fn law_channel_auth_accepted(
    key: Seq<char>,
    secret: Seq<char>,
    socket_id: Seq<char>,
    channel: Seq<char>,
    channel_data: Option<Seq<char>>,
    auth: Seq<char>,
)
    requires
        forall|i: int| 0 <= i < utf8(key).len() ==> utf8(key)[i] != 58u8,
        utf8(auth) == utf8(key) + seq![58u8] + hex_lower(
            hmac_sha256(utf8(secret), channel_sign_input(socket_id, channel, channel_data)),
        ),
    ensures
        channel_auth_valid(key, secret, socket_id, channel, Some(auth), channel_data),
{
    let b = utf8(auth);
    let k = utf8(key);
    let n = k.len() as int;
    assert(b[n] == 58u8);
    assert forall|j: int| 0 <= j < n implies b[j] != 58u8 by {
        assert(b[j] == k[j]);
    }
    let i = choose|i: int| 0 <= i < b.len() && b[i] == 58u8 && forall|j: int| 0 <= j < i ==> b[j] != 58u8;
    assert(i == n);
    assert(b.take(n) =~= k);
    assert(b.skip(n + 1) =~= hex_lower(hmac_sha256(utf8(secret), channel_sign_input(socket_id, channel, channel_data))));
}

/// Within one window the `n`-th event is allowed exactly when `n` is at
/// most the limit (a limit below `u32::MAX`, where the count saturates).
pub proof fn law_rate_limit_window(n: nat, max: u32)
    requires
        n > 0,
        max < u32::MAX,
    ensures
        (count_after(n) <= max) <==> n <= max,
    decreases n,
{
    lemma_count_after(n);
}

proof fn lemma_count_after(n: nat)
    ensures
        count_after(n) == if n <= u32::MAX { n } else { u32::MAX as nat },
    decreases n,
{
    if n > 0 {
        lemma_count_after((n - 1) as nat);
    }
}

/// Whether socket `s` takes part in the channel, as a subscriber or as a
/// presence member.
pub open spec fn takes_part(c: ChannelView, s: Seq<char>) -> bool {
    c.subscribers.contains(s) || match c.presence {
        Some(p) => has_socket(p, s),
        None => false,
    }
}

/// Some member entry is the socket's.
pub open spec fn has_socket(p: Seq<MemberView>, s: Seq<char>) -> bool {
    exists|i: int| 0 <= i < p.len() && (#[trigger] p[i]).socket_id == s
}

/// A connection's subscription list and the channel table agree: the socket
/// subscribes to each listed channel of its app and takes part in no other.
pub open spec fn subscribed_exactly(t: Table, app_id: Seq<char>, sid: Seq<char>, subs: Seq<Seq<char>>) -> bool {
    &&& forall|c: Seq<char>|
        #[trigger] subs.contains(c) ==> t.contains_key((app_id, c)) && t[(app_id, c)].subscribers.contains(sid)
    &&& forall|k: (Seq<char>, Seq<char>)|
        #[trigger] t.contains_key(k) && takes_part(t[k], sid) ==> k.0 == app_id && subs.contains(k.1)
}

proof fn lemma_add_subscriber_contains(s: Seq<Seq<char>>, x: Seq<char>, y: Seq<char>)
    ensures
        add_subscriber(s, x).contains(y) <==> (s.contains(y) || y == x),
{
    if !s.contains(x) {
        let v = s.push(x);
        assert(v[s.len() as int] == x);
        if s.contains(y) {
            let i = choose|i: int| 0 <= i < s.len() && s[i] == y;
            assert(v[i] == y);
        }
        if v.contains(y) && y != x {
            let i = choose|i: int| 0 <= i < v.len() && v[i] == y;
            assert(s[i] == y);
        }
    }
}

proof fn lemma_has_socket_without(p: Seq<MemberView>, sid: Seq<char>, s: Seq<char>)
    ensures
        has_socket(without_socket(p, sid), s) <==> (has_socket(p, s) && s != sid),
{
    let w = without_socket(p, sid);
    if has_socket(w, s) {
        let i = choose|i: int| 0 <= i < w.len() && (#[trigger] w[i]).socket_id == s;
        crate::channels::lemma_without_socket_member(p, sid, i);
        let j = choose|j: int| 0 <= j < p.len() && p[j] == w[i];
        assert(p[j].socket_id == s);
    }
    if has_socket(p, s) && s != sid {
        let j = choose|j: int| 0 <= j < p.len() && (#[trigger] p[j]).socket_id == s;
        crate::channels::lemma_without_socket_keeps(p, sid, j);
        let i = choose|i: int| 0 <= i < w.len() && w[i] == p[j];
        assert(w[i].socket_id == s);
    }
}

/// Socket `s` other than `sid` takes part in the channel after `sid` joins
/// (as a subscriber, or as the member `m`) exactly when it did before.
proof fn lemma_join_others(c: ChannelView, sid: Seq<char>, m: Option<MemberView>, s: Seq<char>)
    requires
        m matches Some(mm) ==> mm.socket_id == sid,
    ensures
        s != sid ==> (takes_part(
            ChannelView {
                subscribers: add_subscriber(c.subscribers, sid),
                presence: match m {
                    Some(mm) => Some(members_after_join(c, mm)),
                    None => c.presence,
                },
            },
            s,
        ) <==> takes_part(c, s)),
        takes_part(
            ChannelView {
                subscribers: add_subscriber(c.subscribers, sid),
                presence: match m {
                    Some(mm) => Some(members_after_join(c, mm)),
                    None => c.presence,
                },
            },
            sid,
        ),
{
    lemma_add_subscriber_contains(c.subscribers, sid, s);
    lemma_add_subscriber_contains(c.subscribers, sid, sid);
    match m {
        Some(mm) => {
            let p = match c.presence {
                Some(p) => p,
                None => Seq::<MemberView>::empty(),
            };
            let w = without_socket(p, sid);
            lemma_has_socket_without(p, sid, s);
            let q = w.push(mm);
            assert(q[w.len() as int] == mm);
            if has_socket(q, s) {
                let i = choose|i: int| 0 <= i < q.len() && (#[trigger] q[i]).socket_id == s;
                if i < w.len() {
                    assert(q[i] == w[i]);
                }
            }
            if has_socket(w, s) {
                let i = choose|i: int| 0 <= i < w.len() && (#[trigger] w[i]).socket_id == s;
                assert(q[i] == w[i]);
            }
        },
        None => {},
    }
}

/// After `sid` leaves a channel it takes no part in it, and any other socket
/// takes part exactly when it did before.
proof fn lemma_leave_others(c: ChannelView, sid: Seq<char>, s: Seq<char>)
    ensures
        !takes_part(crate::channels::channel_after_leave(c, sid), sid),
        s != sid ==> (takes_part(crate::channels::channel_after_leave(c, sid), s) <==> takes_part(c, s)),
        s != sid && c.subscribers.contains(s) ==> crate::channels::channel_after_leave(c, sid).subscribers.len() > 0,
{
    lemma_without_contains(c.subscribers, sid, sid);
    lemma_without_contains(c.subscribers, sid, s);
    match c.presence {
        Some(p) => {
            lemma_has_socket_without(p, sid, sid);
            lemma_has_socket_without(p, sid, s);
        },
        None => {},
    }
    if s != sid && c.subscribers.contains(s) {
        let w = without(c.subscribers, sid);
        assert(w.contains(s));
    }
}

/// After a socket leaves a list of channels, it takes part in none of them,
/// and every other entry of the table is as it was.
proof fn lemma_leave_all(t: Table, app_id: Seq<char>, sid: Seq<char>, chs: Seq<Seq<char>>)
    ensures
        forall|k: (Seq<char>, Seq<char>)|
            #[trigger] leave_all(t, app_id, sid, chs).contains_key(k) && k.0 == app_id && chs.contains(k.1)
                ==> !takes_part(leave_all(t, app_id, sid, chs)[k], sid),
        forall|k: (Seq<char>, Seq<char>)|
            !(k.0 == app_id && chs.contains(k.1)) ==> (#[trigger] leave_all(t, app_id, sid, chs).contains_key(k)
                == t.contains_key(k) && (t.contains_key(k) ==> leave_all(t, app_id, sid, chs)[k] == t[k])),
    decreases chs.len(),
{
    if chs.len() > 0 {
        let pre = chs.drop_last();
        lemma_leave_all(t, app_id, sid, pre);
        let t1 = leave_all(t, app_id, sid, pre);
        let key = (app_id, chs.last());
        let t2 = leave_all(t, app_id, sid, chs);
        assert(t2 == leave_spec(t1, key, sid));
        if t1.contains_key(key) {
            lemma_leave_others(t1[key], sid, sid);
        }
        assert forall|k: (Seq<char>, Seq<char>)|
            #[trigger] t2.contains_key(k) && k.0 == app_id && chs.contains(k.1) implies !takes_part(t2[k], sid) by {
            if k != key {
                let j = choose|j: int| 0 <= j < chs.len() && chs[j] == k.1;
                assert(j < pre.len());
                assert(pre[j] == k.1);
                assert(pre.contains(k.1));
            }
        }
        assert forall|k: (Seq<char>, Seq<char>)| !(k.0 == app_id && chs.contains(k.1)) implies (#[trigger] t2.contains_key(k)
            == t.contains_key(k) && (t.contains_key(k) ==> t2[k] == t[k])) by {
            assert(k != key) by {
                if k == key {
                    assert(chs[chs.len() - 1] == chs.last());
                }
            }
            if pre.contains(k.1) {
                let j = choose|j: int| 0 <= j < pre.len() && pre[j] == k.1;
                assert(chs[j] == pre[j]);
            }
        }
    }
}

/// When a connection closes, its socket leaves every channel it was in: it
/// takes part in no channel of the table afterwards.
pub proof fn law_disconnect_leaves_no_trace(t: Table, app_id: Seq<char>, sid: Seq<char>, subs: Seq<Seq<char>>)
    requires
        subscribed_exactly(t, app_id, sid, subs),
    ensures
        forall|k: (Seq<char>, Seq<char>)|
            #[trigger] leave_all(t, app_id, sid, subs).contains_key(k) ==> !takes_part(
                leave_all(t, app_id, sid, subs)[k],
                sid,
            ),
{
    lemma_leave_all(t, app_id, sid, subs);
    let t2 = leave_all(t, app_id, sid, subs);
    assert forall|k: (Seq<char>, Seq<char>)| #[trigger] t2.contains_key(k) implies !takes_part(t2[k], sid) by {
        if !(k.0 == app_id && subs.contains(k.1)) {
            assert(t.contains_key(k) && t2[k] == t[k]);
        }
    }
}

/// The table after `sid` joins the channel `key`, as a subscriber and, for a
/// presence channel, as the member `m`.
spec fn joined_table(t: Table, key: (Seq<char>, Seq<char>), sid: Seq<char>, m: Option<MemberView>) -> Table {
    let c = channel_or_empty(t, key);
    t.insert(
        key,
        ChannelView {
            subscribers: add_subscriber(c.subscribers, sid),
            presence: match m {
                Some(mm) => Some(members_after_join(c, mm)),
                None => c.presence,
            },
        },
    )
}

proof fn lemma_join_self(t: Table, app_id: Seq<char>, sid: Seq<char>, subs: Seq<Seq<char>>, ch: Seq<char>, m: Option<MemberView>)
    requires
        subscribed_exactly(t, app_id, sid, subs),
        m matches Some(mm) ==> mm.socket_id == sid,
    ensures
        subscribed_exactly(joined_table(t, (app_id, ch), sid, m), app_id, sid, add_subscriber(subs, ch)),
{
    let key = (app_id, ch);
    let t2 = joined_table(t, key, sid, m);
    let subs2 = add_subscriber(subs, ch);
    lemma_join_others(channel_or_empty(t, key), sid, m, sid);
    lemma_add_subscriber_contains(channel_or_empty(t, key).subscribers, sid, sid);
    assert forall|c: Seq<char>| #[trigger] subs2.contains(c) implies t2.contains_key((app_id, c)) && t2[(app_id, c)].subscribers.contains(sid) by {
        lemma_add_subscriber_contains(subs, ch, c);
        if c != ch {
            assert(subs.contains(c));
        }
    }
    assert forall|k: (Seq<char>, Seq<char>)| #[trigger] t2.contains_key(k) && takes_part(t2[k], sid) implies k.0 == app_id && subs2.contains(k.1) by {
        lemma_add_subscriber_contains(subs, ch, k.1);
        if k != key {
            assert(t.contains_key(k) && t2[k] == t[k]);
        }
    }
}

proof fn lemma_join_other(
    t: Table,
    key: (Seq<char>, Seq<char>),
    sid: Seq<char>,
    m: Option<MemberView>,
    o_app: Seq<char>,
    o: Seq<char>,
    o_subs: Seq<Seq<char>>,
)
    requires
        o != sid,
        m matches Some(mm) ==> mm.socket_id == sid,
        subscribed_exactly(t, o_app, o, o_subs),
    ensures
        subscribed_exactly(joined_table(t, key, sid, m), o_app, o, o_subs),
{
    let t2 = joined_table(t, key, sid, m);
    let c = channel_or_empty(t, key);
    lemma_join_others(c, sid, m, o);
    assert forall|x: Seq<char>| #[trigger] o_subs.contains(x) implies t2.contains_key((o_app, x)) && t2[(o_app, x)].subscribers.contains(o) by {
        if (o_app, x) == key {
            lemma_add_subscriber_contains(c.subscribers, sid, o);
        }
    }
    assert forall|k: (Seq<char>, Seq<char>)| #[trigger] t2.contains_key(k) && takes_part(t2[k], o) implies k.0 == o_app && o_subs.contains(k.1) by {
        if k == key {
            if !t.contains_key(key) {
                assert(!c.subscribers.contains(o));
                assert(c.presence is None);
            }
        } else {
            assert(t.contains_key(k) && t2[k] == t[k]);
        }
    }
}

proof fn lemma_leave_self(t: Table, app_id: Seq<char>, sid: Seq<char>, subs: Seq<Seq<char>>, ch: Seq<char>)
    requires
        subscribed_exactly(t, app_id, sid, subs),
    ensures
        subscribed_exactly(leave_spec(t, (app_id, ch), sid), app_id, sid, without(subs, ch)),
{
    let key = (app_id, ch);
    let t2 = leave_spec(t, key, sid);
    let subs2 = without(subs, ch);
    if t.contains_key(key) {
        lemma_leave_others(t[key], sid, sid);
    }
    assert forall|c: Seq<char>| #[trigger] subs2.contains(c) implies t2.contains_key((app_id, c)) && t2[(app_id, c)].subscribers.contains(sid) by {
        lemma_without_contains(subs, ch, c);
    }
    assert forall|k: (Seq<char>, Seq<char>)| #[trigger] t2.contains_key(k) && takes_part(t2[k], sid) implies k.0 == app_id && subs2.contains(k.1) by {
        lemma_without_contains(subs, ch, k.1);
        if k != key {
            assert(t.contains_key(k) && t2[k] == t[k]);
        }
    }
}

proof fn lemma_leave_other(
    t: Table,
    key: (Seq<char>, Seq<char>),
    sid: Seq<char>,
    o_app: Seq<char>,
    o: Seq<char>,
    o_subs: Seq<Seq<char>>,
)
    requires
        o != sid,
        subscribed_exactly(t, o_app, o, o_subs),
    ensures
        subscribed_exactly(leave_spec(t, key, sid), o_app, o, o_subs),
{
    let t2 = leave_spec(t, key, sid);
    if t.contains_key(key) {
        lemma_leave_others(t[key], sid, o);
    }
    assert forall|x: Seq<char>| #[trigger] o_subs.contains(x) implies t2.contains_key((o_app, x)) && t2[(o_app, x)].subscribers.contains(o) by {
        if (o_app, x) == key {
            lemma_without_contains(t[key].subscribers, sid, o);
        }
    }
    assert forall|k: (Seq<char>, Seq<char>)| #[trigger] t2.contains_key(k) && takes_part(t2[k], o) implies k.0 == o_app && o_subs.contains(k.1) by {
        assert(t.contains_key(k));
    }
}

/// Whatever a client sends, its connection's subscription list and the
/// channel table still agree afterwards, and so do every other
/// connection's.
pub proof fn law_message_keeps_subscriptions(
    t: Table,
    t2: Table,
    subs: Seq<Seq<char>>,
    subs2: Seq<Seq<char>>,
    e: EffectsView,
    app: crate::state::App,
    sid: Seq<char>,
    max_channels: usize,
    msg: Option<ClientMessage>,
    allowed: bool,
    o_app: Seq<char>,
    o: Seq<char>,
    o_subs: Seq<Seq<char>>,
)
    requires
        subscribed_exactly(t, app.id@, sid, subs),
        o != sid,
        subscribed_exactly(t, o_app, o, o_subs),
        message_outcome(t, t2, subs, subs2, e, app, sid, max_channels, msg, allowed),
    ensures
        subscribed_exactly(t2, app.id@, sid, subs2),
        subscribed_exactly(t2, o_app, o, o_subs),
{
    match msg {
        None => {},
        Some(m) => {
            let ev = crate::session::event_name(m);
            if ev == "pusher:subscribe"@ {
                match crate::bytes::string_opt(m.data_channel) {
                    None => {},
                    Some(ch) => {
                        let key = (app.id@, ch);
                        if t2 == join_spec(t, key, sid) && subs2 == add_subscriber(subs, ch) {
                            assert(join_spec(t, key, sid) =~= joined_table(t, key, sid, None));
                            lemma_join_self(t, app.id@, sid, subs, ch, None);
                            lemma_join_other(t, key, sid, None, o_app, o, o_subs);
                        } else if t2 == t && subs2 == subs {
                        } else {
                            match m.member {
                                crate::session::MemberData::User { user_id, user_info } => {
                                    let mm = MemberView { socket_id: sid, user_id: user_id@, user_info: user_info@ };
                                    assert(t2 == join_presence_spec(t, key, mm));
                                    assert(join_presence_spec(t, key, mm) =~= joined_table(t, key, sid, Some(mm)));
                                    lemma_join_self(t, app.id@, sid, subs, ch, Some(mm));
                                    lemma_join_other(t, key, sid, Some(mm), o_app, o, o_subs);
                                },
                                _ => {},
                            }
                        }
                    },
                }
            } else if ev == "pusher:unsubscribe"@ {
                match crate::bytes::string_opt(m.data_channel) {
                    Some(c) => if subs.contains(c) {
                        lemma_leave_self(t, app.id@, sid, subs, c);
                        lemma_leave_other(t, (app.id@, c), sid, o_app, o, o_subs);
                    },
                    None => {},
                }
            }
        },
    }
}

/// When a connection closes, every other connection's subscription list
/// still agrees with the channel table.
pub proof fn law_disconnect_keeps_others(
    t: Table,
    app_id: Seq<char>,
    sid: Seq<char>,
    chs: Seq<Seq<char>>,
    o_app: Seq<char>,
    o: Seq<char>,
    o_subs: Seq<Seq<char>>,
)
    requires
        o != sid,
        subscribed_exactly(t, o_app, o, o_subs),
    ensures
        subscribed_exactly(leave_all(t, app_id, sid, chs), o_app, o, o_subs),
    decreases chs.len(),
{
    if chs.len() > 0 {
        law_disconnect_keeps_others(t, app_id, sid, chs.drop_last(), o_app, o, o_subs);
        lemma_leave_other(leave_all(t, app_id, sid, chs.drop_last()), (app_id, chs.last()), sid, o_app, o, o_subs);
    }
}

/// Subscribing to a channel a second time, with the same message, changes
/// neither the channel table nor the subscription list, and announces
/// nothing: no `channel_occupied`, no `member_added`, no frame to others.
pub proof fn law_resubscribe_idempotent(
    t0: Table,
    t1: Table,
    t2: Table,
    s0: Seq<Seq<char>>,
    s1: Seq<Seq<char>>,
    s2: Seq<Seq<char>>,
    e1: EffectsView,
    e2: EffectsView,
    app: crate::state::App,
    sid: Seq<char>,
    max_channels: usize,
    msg: ClientMessage,
)
    requires
        subscribe_outcome(t0, t1, s0, s1, e1, app, sid, max_channels, msg),
        subscribe_outcome(t1, t2, s1, s2, e2, app, sid, max_channels, msg),
    ensures
        t2 == t1,
        s2 == s1,
        e2.webhooks.len() == 0,
        e2.fanouts.len() == 0,
{
    match crate::bytes::string_opt(msg.data_channel) {
        None => {},
        Some(ch) => {
            let key = (app.id@, ch);
            if t1 == t0 && s1 == s0 {
                // a refusal: the second call meets the same inputs
            } else if is_prefix(utf8("presence-"@), utf8(ch)) {
                match msg.member {
                    MemberData::User { user_id, user_info } => {
                        let m = MemberView { socket_id: sid, user_id: user_id@, user_info: user_info@ };
                        assert(joined_presence(t0, t1, s0, s1, e1, app.id@, sid, ch, user_id@, user_info@));
                        lemma_add_subscriber_contains(s0, ch, ch);
                        assert(s1.contains(ch));
                        assert(joined_presence(t1, t2, s1, s2, e2, app.id@, sid, ch, user_id@, user_info@));
                        let c0 = channel_or_empty(t0, key);
                        let p0 = match c0.presence {
                            Some(p) => p,
                            None => Seq::<MemberView>::empty(),
                        };
                        let w = without_socket(p0, sid);
                        let p1 = w.push(m);
                        assert(t1[key].presence == Some(p1));
                        assert(p1.drop_last() =~= w);
                        assert(without_socket(p1, sid) == without_socket(w, sid));
                        assert forall|i: int| 0 <= i < w.len() implies (#[trigger] w[i]).socket_id != sid by {
                            crate::channels::lemma_without_socket_member(p0, sid, i);
                        }
                        lemma_without_socket_absent(w, sid);
                        assert(members_after_join(t1[key], m) == p1);
                        lemma_add_subscriber_contains(c0.subscribers, sid, sid);
                        assert(t1[key].subscribers.contains(sid));
                        assert(add_subscriber(t1[key].subscribers, sid) == t1[key].subscribers);
                        assert(join_presence_spec(t1, key, m) =~= t1);
                        assert(p1[p1.len() - 1].user_id == m.user_id);
                        assert(!joins_new_user(t1, key, m));
                    },
                    _ => {},
                }
            } else {
                assert(joined(t0, t1, s0, s1, e1, app.id@, sid, ch));
                lemma_add_subscriber_contains(s0, ch, ch);
                assert(joined(t1, t2, s1, s2, e2, app.id@, sid, ch));
                lemma_add_subscriber_contains(channel_or_empty(t0, key).subscribers, sid, sid);
                assert(t1[key].subscribers.contains(sid));
                assert(add_subscriber(t1[key].subscribers, sid) == t1[key].subscribers);
                assert(join_spec(t1, key, sid) =~= t1);
            }
        },
    }
}

/// The counter of the `k`-th socket id handed out since the state was made
/// (counting from 0): 1, 2, 3, ..., wrapping at `u64::MAX`.
pub open spec fn counter_after(k: nat) -> u64
    decreases k,
{
    if k == 0 {
        1
    } else {
        let c = counter_after((k - 1) as nat);
        if c == u64::MAX {
            0
        } else {
            (c + 1) as u64
        }
    }
}

/// The socket ids a state hands out are `<prefix>.1`, `<prefix>.2`, ... with
/// one prefix, and no two of the first 2^64 coincide.
pub proof fn law_socket_id_sequence(prefix: u64, i: nat, j: nat)
    requires
        i < j < 0x1_0000_0000_0000_0000,
    ensures
        counter_after(i) == (if i == u64::MAX { 0 } else { i + 1 }),
        socket_id_spec(prefix, counter_after(i)) != socket_id_spec(prefix, counter_after(j)),
{
    lemma_counter_after(i);
    lemma_counter_after(j);
    law_socket_ids_distinct(prefix, counter_after(i), counter_after(j));
}

proof fn lemma_counter_after(k: nat)
    requires
        k < 0x1_0000_0000_0000_0000,
    ensures
        counter_after(k) == (if k == u64::MAX { 0 } else { k + 1 }),
    decreases k,
{
    if k > 0 {
        lemma_counter_after((k - 1) as nat);
    }
}

/// When the current window of a limiter began, after calls at the given
/// clock readings (nanoseconds); the first window began at `start`.
pub open spec fn window_start(start: int, times: Seq<int>) -> int
    decreases times.len(),
{
    if times.len() == 0 {
        start
    } else {
        let w = window_start(start, times.drop_last());
        if times.last() - w >= WINDOW_NANOS {
            times.last()
        } else {
            w
        }
    }
}

/// Whether the last of the calls opened a new window: it came a second or
/// more after the window it found began.
pub open spec fn opens_window(start: int, times: Seq<int>) -> bool {
    times.len() > 0 && times.last() - window_start(start, times.drop_last()) >= WINDOW_NANOS
}

/// The limiter's count after calls at the given readings.
pub open spec fn count_run(start: int, times: Seq<int>) -> u32
    decreases times.len(),
{
    if times.len() == 0 {
        0
    } else {
        next_count(count_run(start, times.drop_last()), opens_window(start, times))
    }
}

/// How many of the calls fall in the window of the last one, that one included.
pub open spec fn calls_in_window(start: int, times: Seq<int>) -> nat
    decreases times.len(),
{
    if times.len() == 0 {
        0
    } else if opens_window(start, times) {
        1
    } else {
        calls_in_window(start, times.drop_last()) + 1
    }
}

/// Over a sequence of calls, a call starts a new window exactly when it
/// comes a second or more after the window it finds began, and it is
/// allowed exactly when it is among the first `max` calls of its window:
/// at most `max` calls of a window are allowed (for a limit below
/// `u32::MAX`, where the count saturates).
pub proof fn law_rate_limit_sequence(start: int, times: Seq<int>, max: u32)
    requires
        times.len() > 0,
        max < u32::MAX,
    ensures
        window_start(start, times) == if opens_window(start, times) {
            times.last()
        } else {
            window_start(start, times.drop_last())
        },
        (count_run(start, times) <= max) <==> calls_in_window(start, times) <= max,
{
    lemma_count_run(start, times);
}

proof fn lemma_count_run(start: int, times: Seq<int>)
    ensures
        count_run(start, times) == if calls_in_window(start, times) <= u32::MAX {
            calls_in_window(start, times)
        } else {
            u32::MAX as nat
        },
    decreases times.len(),
{
    if times.len() > 0 {
        lemma_count_run(start, times.drop_last());
    }
}

/// A REST request to an app whose key, signature and body digest are right
/// is signed for the app at a given instant.
pub open spec fn well_signed(app: App, method: Seq<char>, path: Seq<char>, q: Seq<(Seq<char>, Seq<char>)>, body: Seq<u8>) -> bool {
    &&& lookup(q, "auth_key"@) == Some(app.key@)
    &&& body.len() > 0 ==> (lookup(q, "body_md5"@) matches Some(d) && utf8(d) == hex_lower(md5(body)))
    &&& lookup(q, "auth_signature"@) matches Some(sig) && utf8(sig) == hex_lower(
        hmac_sha256(utf8(app.secret@), string_to_sign_spec(method, path, q)),
    )
}

/// Checked against the seconds a clock reading gives, a well-signed REST
/// request stamped within 600 seconds of that reading passes, and one
/// stamped further away is refused with 401 `Stale auth_timestamp`.
pub proof fn law_rest_checked_at_clock(
    apps: Seq<App>,
    app_id: Seq<char>,
    method: Seq<char>,
    path: Seq<char>,
    q: Seq<(Seq<char>, Seq<char>)>,
    body: Seq<u8>,
    t: Option<(u64, u32)>,
)
    requires
        clock_reading(t),
        app_named(apps, app_id) matches Some(app) && well_signed(app, method, path, q, body),
        timestamp_of(q) is Some,
    ensures
        distance(reading_seconds(t), timestamp_of(q)->Some_0) <= TIMESTAMP_TOLERANCE_S ==> gate(
            apps,
            app_id,
            method,
            path,
            q,
            body,
            reading_seconds(t),
        ) == Ok::<App, ApiView>(app_named(apps, app_id)->Some_0),
        distance(reading_seconds(t), timestamp_of(q)->Some_0) > TIMESTAMP_TOLERANCE_S ==> gate(
            apps,
            app_id,
            method,
            path,
            q,
            body,
            reading_seconds(t),
        ) == Err::<App, ApiView>(refusal(401, "Stale auth_timestamp"@)),
{
}

/// A well-signed `POST /apps/<app_id>/events` stamped with the second the
/// clock reads is answered 200 `{}` and publishes the event (one more event
/// received); stamped more than 600 seconds off that reading it is refused
/// with 401 `Stale auth_timestamp` and changes nothing.
pub proof fn law_events_at_clock(
    s0: State,
    s1: State,
    r: ApiView,
    app_id: Seq<char>,
    q: Seq<(Seq<char>, Seq<char>)>,
    body: Seq<u8>,
    p: PublishPayload,
    t: Option<(u64, u32)>,
)
    requires
        clock_reading(t),
        events_answer(s0, s1, r, app_id, q, body, Some(p), reading_seconds(t)),
        app_named(s0.apps@, app_id) matches Some(app) && well_signed(app, "POST"@, api_path(app_id, "/events"@), q, body),
        p.data is Some,
    ensures
        timestamp_of(q) == Some(reading_seconds(t)) ==> r.status == 200 && r.body == utf8("{}"@)
            && s1.metrics.events_received_total == bump(s0.metrics.events_received_total),
        timestamp_of(q) matches Some(ts) && distance(reading_seconds(t), ts) > TIMESTAMP_TOLERANCE_S ==> r == refusal(
            401,
            "Stale auth_timestamp"@,
        ) && s1 == s0,
{
}

/// A well-signed `POST /apps/<app_id>/batch_events` stamped with the second
/// the clock reads is answered 200 `{"batch":[]}`; stamped more than 600
/// seconds off that reading it is refused with 401 `Stale auth_timestamp`
/// and changes nothing.
pub proof fn law_batch_events_at_clock(
    s0: State,
    s1: State,
    r: ApiView,
    app_id: Seq<char>,
    q: Seq<(Seq<char>, Seq<char>)>,
    body: Seq<u8>,
    evs: Vec<PublishPayload>,
    t: Option<(u64, u32)>,
)
    requires
        clock_reading(t),
        batch_answer(s0, s1, r, app_id, q, body, BatchBody::Batch(evs), reading_seconds(t)),
        app_named(s0.apps@, app_id) matches Some(app) && well_signed(app, "POST"@, api_path(app_id, "/batch_events"@), q, body),
    ensures
        timestamp_of(q) == Some(reading_seconds(t)) ==> r.status == 200 && r.body == utf8("{\"batch\":[]}"@)
            && same_but_metrics(s0, s1),
        timestamp_of(q) matches Some(ts) && distance(reading_seconds(t), ts) > TIMESTAMP_TOLERANCE_S ==> r == refusal(
            401,
            "Stale auth_timestamp"@,
        ) && s1 == s0,
{
}

/// A well-signed `GET /apps/<app_id>/channels` stamped with the second the
/// clock reads is answered 200; stamped more than 600 seconds off that
/// reading it is refused with 401 `Stale auth_timestamp`.
pub proof fn law_channels_index_at_clock(
    s: State,
    r: ApiView,
    app_id: Seq<char>,
    q: Seq<(Seq<char>, Seq<char>)>,
    t: Option<(u64, u32)>,
)
    requires
        clock_reading(t),
        index_answer(s, r, app_id, q, reading_seconds(t)),
        app_named(s.apps@, app_id) matches Some(app) && well_signed(app, "GET"@, api_path(app_id, "/channels"@), q, Seq::<u8>::empty()),
    ensures
        timestamp_of(q) == Some(reading_seconds(t)) ==> r.status == 200,
        timestamp_of(q) matches Some(ts) && distance(reading_seconds(t), ts) > TIMESTAMP_TOLERANCE_S ==> r == refusal(
            401,
            "Stale auth_timestamp"@,
        ),
{
}

/// A well-signed `GET /apps/<app_id>/channels/<name>/users` for a presence
/// channel, stamped with the second the clock reads, is answered 200;
/// stamped more than 600 seconds off that reading it is refused with 401
/// `Stale auth_timestamp`.
pub proof fn law_channel_users_at_clock(
    s: State,
    r: ApiView,
    app_id: Seq<char>,
    name: Seq<char>,
    q: Seq<(Seq<char>, Seq<char>)>,
    t: Option<(u64, u32)>,
)
    requires
        clock_reading(t),
        users_answer(s, r, app_id, name, q, reading_seconds(t)),
        app_named(s.apps@, app_id) matches Some(app) && well_signed(
            app,
            "GET"@,
            api_path(app_id, "/channels/"@ + name + "/users"@),
            q,
            Seq::<u8>::empty(),
        ),
        is_prefix(utf8("presence-"@), utf8(name)),
    ensures
        timestamp_of(q) == Some(reading_seconds(t)) ==> r.status == 200,
        timestamp_of(q) matches Some(ts) && distance(reading_seconds(t), ts) > TIMESTAMP_TOLERANCE_S ==> r == refusal(
            401,
            "Stale auth_timestamp"@,
        ),
{
}

/// Of a limiter's call that finds `count` events in its window and measures
/// `n` nanoseconds on the monotonic clock since the window began: once the
/// window holds `max` events, a call is allowed only a second or more after
/// the window began (for a limit below `u32::MAX`, where the count
/// saturates); and a call a second or more after it is allowed
/// whenever the limit is at least one (it opens a new window of one event).
pub proof fn law_rate_window_by_clock(count: u32, max: u32, n: u128)
    ensures
        max < u32::MAX && count >= max && next_count(count, n >= WINDOW_NANOS) <= max ==> n >= WINDOW_NANOS,
        n >= WINDOW_NANOS ==> next_count(count, n >= WINDOW_NANOS) == 1,
        n >= WINDOW_NANOS && max >= 1 ==> next_count(count, n >= WINDOW_NANOS) <= max,
        n < WINDOW_NANOS ==> next_count(count, n >= WINDOW_NANOS) > count || count == u32::MAX,
{
}

} // verus!
