//! The server's state: configured apps, limits, live connections and
//! occupied channels. Connections and channels live in `dashmap::DashMap`s,
//! reached through trusted wrappers whose contracts speak of the maps'
//! contents as mathematical maps.

use vstd::prelude::*;
use vstd::utf8::{valid_utf8, partial_valid_utf8, partial_valid_utf8_extend_ascii_block, is_leading_byte_width_1};
use dashmap::DashMap;
use crate::bytes::{utf8, decimal, push_decimal, bytes_equal, lemma_utf8_injective, lemma_decimal_digits, is_digit};
use crate::clock::{unix_time, clock_reading};

verus! {

/// A configured application: its id, the key clients connect with, the
/// secret everything is signed with, a connection cap (0 = unlimited) and
/// an optional webhook endpoint.
#[derive(Clone, Debug)]
pub struct App {
    pub id: String,
    pub key: String,
    pub secret: String,
    pub max_connections: usize,
    pub webhook_url: Option<String>,
}

/// Server-wide limits.
#[derive(Clone, Debug)]
pub struct Limits {
    /// Largest accepted client message, in bytes.
    pub max_message_size: usize,
    pub activity_timeout_s: u64,
    pub max_channels_per_connection: usize,
    /// Browser origins allowed to connect (empty: all).
    pub allowed_origins: Vec<String>,
    /// Client events accepted per connection and second.
    pub client_event_rate: u32,
}

/// One live connection.
#[derive(Clone, Debug)]
pub struct Conn {
    pub app_id: String,
}

/// A presence channel member: the socket it joined from, its user id and
/// its `user_info` as JSON text.
#[derive(Clone, Debug)]
pub struct PresenceMember {
    pub socket_id: String,
    pub user_id: String,
    pub user_info: String,
}

/// A presence member as the contracts see it.
pub struct MemberView {
    pub socket_id: Seq<char>,
    pub user_id: Seq<char>,
    pub user_info: Seq<char>,
}

impl View for PresenceMember {
    type V = MemberView;

    open spec fn view(&self) -> MemberView {
        MemberView { socket_id: self.socket_id@, user_id: self.user_id@, user_info: self.user_info@ }
    }
}

/// An occupied channel: its subscribers' socket ids and, for presence
/// channels, the members.
#[derive(Clone, Debug)]
pub struct ChannelState {
    pub subscribers: Vec<String>,
    pub presence: Option<Vec<PresenceMember>>,
}

/// A channel as the contracts see it.
pub struct ChannelView {
    pub subscribers: Seq<Seq<char>>,
    pub presence: Option<Seq<MemberView>>,
}

/// The text of each string.
pub open spec fn string_views(v: Seq<String>) -> Seq<Seq<char>> {
    v.map_values(|s: String| s@)
}

/// The view of each member.
pub open spec fn member_views(v: Seq<PresenceMember>) -> Seq<MemberView> {
    v.map_values(|m: PresenceMember| m@)
}

impl View for ChannelState {
    type V = ChannelView;

    open spec fn view(&self) -> ChannelView {
        ChannelView {
            subscribers: string_views(self.subscribers@),
            presence: match self.presence {
                Some(p) => Some(member_views(p@)),
                None => None,
            },
        }
    }
}

/// No element occurs twice.
pub open spec fn distinct<A>(s: Seq<A>) -> bool {
    forall|i: int, j: int| 0 <= i < s.len() && 0 <= j < s.len() && i != j ==> s[i] != s[j]
}

/// No socket holds two member entries.
pub open spec fn distinct_sockets(p: Seq<MemberView>) -> bool {
    forall|i: int, j: int|
        0 <= i < p.len() && 0 <= j < p.len() && i != j ==> (#[trigger] p[i]).socket_id != (#[trigger] p[j]).socket_id
}

/// A channel as the table keeps it: some subscriber, none twice, and no
/// socket twice among the members.
pub open spec fn channel_wf(c: ChannelView) -> bool {
    &&& c.subscribers.len() > 0
    &&& distinct(c.subscribers)
    &&& match c.presence {
        Some(p) => distinct_sockets(p),
        None => true,
    }
}

/// The concurrent map of the `dashmap` crate, known to Verus only as an opaque type.
#[verifier::external_type_specification]
#[verifier::external_body]
#[verifier::reject_recursive_types(K)]
#[verifier::reject_recursive_types(V)]
#[verifier::reject_recursive_types(S)]
pub struct ExDashMap<K, V, S>(DashMap<K, V, S>);

/// Channels keyed by (app id, channel name).
pub type ChannelMap = DashMap<(String, String), ChannelState>;

/// Connections keyed by socket id.
pub type ConnMap = DashMap<String, Conn>;

/// What the channel table holds, by (app id, channel name).
pub uninterp spec fn channel_table(m: ChannelMap) -> Map<(Seq<char>, Seq<char>), ChannelView>;

/// What the connection table holds: each socket id's app id.
pub uninterp spec fn connection_table(m: ConnMap) -> Map<Seq<char>, Seq<char>>;

/// `DashMap::new` for the channel table: the contract claims it is empty.
#[verifier::external_body]
pub(crate) fn channels_new() -> (m: ChannelMap)
    ensures
        channel_table(m).dom().len() == 0 && channel_table(m).dom().finite(),
{
    DashMap::new()
}

/// `DashMap::get` on the channel table, cloning the entry out. The contract
/// claims the clone has the stored entry's view, and `None` exactly when the
/// key is absent.
#[verifier::external_body]
pub(crate) fn channel_get(m: &ChannelMap, key: &(String, String)) -> (r: Option<ChannelState>)
    ensures
        match r {
            Some(c) => channel_table(*m).contains_key((key.0@, key.1@)) && c@ == channel_table(*m)[(key.0@, key.1@)],
            None => !channel_table(*m).contains_key((key.0@, key.1@)),
        },
{
    m.get(key).map(|e| e.value().clone())
}

/// `DashMap::insert` on the channel table: the contract claims the key
/// then maps to the entry's view and nothing else changes.
#[verifier::external_body]
pub(crate) fn channel_put(m: &mut ChannelMap, key: (String, String), c: ChannelState)
    ensures
        channel_table(*final(m)) == channel_table(*old(m)).insert((key.0@, key.1@), c@),
{
    m.insert(key, c);
}

/// `DashMap::remove` on the channel table: the contract claims the key is
/// gone and nothing else changes.
#[verifier::external_body]
pub(crate) fn channel_remove(m: &mut ChannelMap, key: &(String, String))
    ensures
        channel_table(*final(m)) == channel_table(*old(m)).remove((key.0@, key.1@)),
{
    m.remove(key);
}

/// `DashMap::len` on the channel table: the contract claims it is the
/// number of keys.
#[verifier::external_body]
pub(crate) fn channel_count(m: &ChannelMap) -> (n: usize)
    ensures
        n == channel_table(*m).len(),
{
    m.len()
}

/// `DashMap::iter` on the channel table, cloning each entry out. The
/// contract claims every listed entry is in the table with its view, every
/// key is listed, and no key is listed twice; the order is the map's own.
#[verifier::external_body]
pub(crate) fn channel_entries(m: &ChannelMap) -> (es: Vec<(String, String, ChannelState)>)
    ensures
        forall|i: int|
            0 <= i < es@.len() ==> channel_table(*m).contains_key((es@[i].0@, es@[i].1@))
                && channel_table(*m)[(es@[i].0@, es@[i].1@)] == (#[trigger] es@[i]).2@,
        forall|k: (Seq<char>, Seq<char>)|
            channel_table(*m).contains_key(k) ==> exists|i: int|
                0 <= i < es@.len() && ((#[trigger] es@[i]).0@, es@[i].1@) == k,
        forall|i: int, j: int|
            0 <= i < j < es@.len() ==> ((#[trigger] es@[i]).0@, es@[i].1@) != ((#[trigger] es@[j]).0@, es@[j].1@),
{
    m.iter().map(|e| (e.key().0.clone(), e.key().1.clone(), e.value().clone())).collect()
}

/// `DashMap::new` for the connection table: the contract claims it is empty.
#[verifier::external_body]
pub(crate) fn connections_new() -> (m: ConnMap)
    ensures
        connection_table(m).dom().len() == 0 && connection_table(m).dom().finite(),
{
    DashMap::new()
}

/// `DashMap::insert` on the connection table: the contract claims the
/// socket then maps to the connection's app id and nothing else changes.
#[verifier::external_body]
pub(crate) fn connection_put(m: &mut ConnMap, socket_id: String, c: Conn)
    ensures
        connection_table(*final(m)) == connection_table(*old(m)).insert(socket_id@, c.app_id@),
{
    m.insert(socket_id, c);
}

/// `DashMap::remove` on the connection table: the contract claims the
/// socket is gone and nothing else changes.
#[verifier::external_body]
pub(crate) fn connection_remove(m: &mut ConnMap, socket_id: &str)
    ensures
        connection_table(*final(m)) == connection_table(*old(m)).remove(socket_id@),
{
    m.remove(socket_id);
}

/// `DashMap::len` on the connection table: the contract claims it is the
/// number of sockets.
#[verifier::external_body]
pub(crate) fn connection_count(m: &ConnMap) -> (n: usize)
    ensures
        n == connection_table(*m).len(),
{
    m.len()
}

/// `DashMap::iter` on the connection table, as (socket id, app id) pairs.
/// The contract claims every listed pair is in the table, every socket is
/// listed, and none twice; the order is the map's own.
#[verifier::external_body]
pub(crate) fn connection_entries(m: &ConnMap) -> (es: Vec<(String, String)>)
    ensures
        forall|i: int|
            0 <= i < es@.len() ==> connection_table(*m).contains_key((#[trigger] es@[i]).0@)
                && connection_table(*m)[es@[i].0@] == es@[i].1@,
        forall|s: Seq<char>|
            connection_table(*m).contains_key(s) ==> exists|i: int| 0 <= i < es@.len() && (#[trigger] es@[i]).0@ == s,
        forall|i: int, j: int| 0 <= i < j < es@.len() ==> (#[trigger] es@[i]).0@ != (#[trigger] es@[j]).0@,
{
    m.iter().map(|e| (e.key().clone(), e.value().app_id.clone())).collect()
}

/// `String::from_utf8` on bytes that are valid UTF-8, which std documents
/// to succeed; the contract claims the text's bytes are the input.
#[verifier::external_body]
pub(crate) fn string_from_utf8(bytes: Vec<u8>) -> (s: String)
    requires
        valid_utf8(bytes@),
    ensures
        utf8(s@) == bytes@,
{
    match String::from_utf8(bytes) {
        Ok(s) => s,
        Err(_) => String::new(),
    }
}

/// A String holding ASCII bytes.
pub fn ascii_string(b: Vec<u8>) -> (s: String)
    requires
        forall|i: int| 0 <= i < b@.len() ==> b@[i] < 128,
    ensures
        utf8(s@) == b@,
{
    proof {
        assert forall|i: int| 0 <= 0 <= i < b@.len() <= b@.len() implies #[trigger] is_leading_byte_width_1(b@[i]) by {}
        assert(partial_valid_utf8(b@, 0)) by {
            assert(b@.subrange(0, 0) =~= Seq::<u8>::empty());
        }
        partial_valid_utf8_extend_ascii_block(b@, 0, b@.len() as int);
        assert(b@.subrange(0, b@.len() as int) =~= b@);
    }
    string_from_utf8(b)
}

/// Running totals exported as metrics (each wraps at `u64::MAX`, as the
/// atomic counters they stand for do), and the fan-out distribution time:
/// the microseconds spent handing published frames to their sockets, summed,
/// and how many fan-outs were timed.
#[derive(Clone, Copy, Debug)]
pub struct Metrics {
    pub connections_total: u64,
    pub events_received_total: u64,
    pub messages_sent_total: u64,
    pub slow_consumers_killed_total: u64,
    pub fanout_micros_sum: u64,
    pub fanout_count: u64,
}

/// The sockets connected to an app.
pub open spec fn app_sockets(t: Map<Seq<char>, Seq<char>>, app_id: Seq<char>) -> Set<Seq<char>> {
    t.dom().filter(|s: Seq<char>| t[s] == app_id)
}

/// The first app satisfying a key or id test.
pub open spec fn first_app(apps: Seq<App>, i: int, key: Seq<char>, by_key: bool) -> bool {
    &&& 0 <= i < apps.len()
    &&& (if by_key { apps[i].key@ } else { apps[i].id@ }) == key
    &&& forall|j: int| 0 <= j < i ==> (if by_key { apps[j].key@ } else { apps[j].id@ }) != key
}

/// The first app with the given id.
pub open spec fn app_named(apps: Seq<App>, id: Seq<char>) -> Option<App> {
    if exists|i: int| first_app(apps, i, id, false) {
        Some(apps[choose|i: int| first_app(apps, i, id, false)])
    } else {
        None
    }
}

/// The first app with the given key.
pub open spec fn app_keyed(apps: Seq<App>, key: Seq<char>) -> Option<App> {
    if exists|i: int| first_app(apps, i, key, true) {
        Some(apps[choose|i: int| first_app(apps, i, key, true)])
    } else {
        None
    }
}

/// A socket id: `<prefix>.<counter>` in decimal.
pub open spec fn socket_id_spec(prefix: u64, counter: u64) -> Seq<u8> {
    decimal(prefix as nat) + seq![46u8] + decimal(counter as nat)
}

/// The source of socket ids: a fixed prefix and a counter.
pub struct SocketIds {
    prefix: u64,
    counter: u64,
}

impl SocketIds {
    /// The fixed part of the ids handed out.
    pub closed spec fn prefix(&self) -> u64 {
        self.prefix
    }

    /// The counter part of the next id.
    pub closed spec fn counter(&self) -> u64 {
        self.counter
    }

    /// Ids with the given prefix, counting from 1.
    pub fn new(prefix: u64) -> (ids: Self)
        ensures
            ids.prefix() == prefix,
            ids.counter() == 1,
    {
        SocketIds { prefix, counter: 1 }
    }

    /// Hands out the next id, `<prefix>.<counter>`, and advances the counter
    /// (wrapping, as the atomic counter it stands for does).
    pub fn next_id(&mut self) -> (id: String)
        ensures
            utf8(id@) == socket_id_spec(old(self).prefix(), old(self).counter()),
            final(self).counter() == (if old(self).counter() == u64::MAX { 0 } else { (old(self).counter() + 1) as u64 }),
            final(self).prefix() == old(self).prefix(),
    {
        let n = self.counter;
        self.counter = n.wrapping_add(1);
        let mut b: Vec<u8> = Vec::new();
        push_decimal(&mut b, self.prefix);
        b.push(46u8);
        push_decimal(&mut b, n);
        proof {
            lemma_decimal_digits(self.prefix as nat);
            lemma_decimal_digits(n as nat);
            let x = decimal(self.prefix as nat);
            let y = decimal(n as nat);
            assert(b@ =~= x + seq![46u8] + y);
            assert forall|i: int| 0 <= i < b@.len() implies b@[i] < 128 by {
                if i < x.len() {
                    assert(b@[i] == x[i]);
                    assert(is_digit(x[i]));
                } else if i > x.len() {
                    assert(b@[i] == y[i - x.len() - 1]);
                    assert(is_digit(y[i - x.len() - 1]));
                }
            }
        }
        ascii_string(b)
    }
}

/// The first app whose key (`by_key`) or id is `name`.
pub fn find_app<'a>(apps: &'a Vec<App>, name: &str, by_key: bool) -> (r: Option<&'a App>)
    ensures
        r == match (if by_key { app_keyed(apps@, name@) } else { app_named(apps@, name@) }) {
            Some(a) => Some(&a),
            None => None::<&App>,
        },
{
    let mut i: usize = 0;
    while i < apps.len()
        invariant
            i <= apps@.len(),
            forall|j: int| 0 <= j < i ==> (if by_key { apps@[j].key@ } else { apps@[j].id@ }) != name@,
        decreases apps.len() - i,
    {
        let a = &apps[i];
        let field: &str = if by_key {
            a.key.as_str()
        } else {
            a.id.as_str()
        };
        if bytes_equal(field.as_bytes(), name.as_bytes()) {
            proof {
                lemma_utf8_injective(field@, name@);
                assert(first_app(apps@, i as int, name@, by_key));
                let j = choose|j: int| first_app(apps@, j, name@, by_key);
                if j < i {
                    assert((if by_key { apps@[j].key@ } else { apps@[j].id@ }) != name@);
                }
                if i < j {
                    assert((if by_key { apps@[i as int].key@ } else { apps@[i as int].id@ }) != name@);
                }
            }
            return Some(a);
        }
        i = i + 1;
    }
    None
}

/// The server's state.
pub struct State {
    pub apps: Vec<App>,
    pub connections: ConnMap,
    pub channels: ChannelMap,
    pub limits: Limits,
    pub metrics: Metrics,
    pub socket_ids: SocketIds,
}

impl State {
    /// Every channel in the table is well formed.
    pub open spec fn wf(&self) -> bool {
        forall|k: (Seq<char>, Seq<char>)|
            #[trigger] channel_table(self.channels).contains_key(k) ==> channel_wf(channel_table(self.channels)[k])
    }

    /// A fresh state with no connections and no channels. The socket id
    /// prefix is the clock's sub-second nanoseconds (1 if the clock reads
    /// before the epoch); the counter starts at 1.
    pub fn new(apps: Vec<App>, limits: Limits) -> (s: Self)
        ensures
            s.wf(),
            s.apps == apps,
            s.limits == limits,
            connection_table(s.connections).dom().len() == 0,
            connection_table(s.connections).dom().finite(),
            channel_table(s.channels).dom().len() == 0,
            channel_table(s.channels).dom().finite(),
            s.socket_ids.counter() == 1,
            s.socket_ids.prefix() < 1_000_000_000,
            exists|t: Option<(u64, u32)>| clock_reading(t) && s.socket_ids.prefix() == match t {
                Some(r) => (r.1 as u64) % 1_000_000_000,
                None => 1,
            },
            s.metrics == (Metrics {
                connections_total: 0,
                events_received_total: 0,
                messages_sent_total: 0,
                slow_consumers_killed_total: 0,
                fanout_micros_sum: 0,
                fanout_count: 0,
            }),
    {
        let t = unix_time();
        assert(clock_reading(t));
        let hi: u64 = match t {
            Some(r) => (r.1 as u64) % 1_000_000_000,
            None => 1,
        };
        let s = State {
            apps,
            connections: connections_new(),
            channels: channels_new(),
            limits,
            metrics: Metrics {
                connections_total: 0,
                events_received_total: 0,
                messages_sent_total: 0,
                slow_consumers_killed_total: 0,
                fanout_micros_sum: 0,
                fanout_count: 0,
            },
            socket_ids: SocketIds::new(hi),
        };
        proof {
            assert forall|k: (Seq<char>, Seq<char>)| #[trigger] channel_table(s.channels).contains_key(k) implies channel_wf(channel_table(s.channels)[k]) by {
                assert(channel_table(s.channels).dom().contains(k));
            }
        }
        s
    }

    /// Hands out the next socket id.
    pub fn new_socket_id(&mut self) -> (id: String)
        ensures
            utf8(id@) == socket_id_spec(old(self).socket_ids.prefix(), old(self).socket_ids.counter()),
            final(self).socket_ids.counter() == (if old(self).socket_ids.counter() == u64::MAX { 0 } else { (old(self).socket_ids.counter() + 1) as u64 }),
            final(self).socket_ids.prefix() == old(self).socket_ids.prefix(),
            final(self).apps == old(self).apps,
            final(self).limits == old(self).limits,
            final(self).metrics == old(self).metrics,
            final(self).channels == old(self).channels,
            final(self).connections == old(self).connections,
    {
        self.socket_ids.next_id()
    }

    /// The first app with the given key.
    pub fn app_by_key(&self, key: &str) -> (r: Option<&App>)
        ensures
            r == match app_keyed(self.apps@, key@) {
                Some(a) => Some(&a),
                None => None::<&App>,
            },
    {
        find_app(&self.apps, key, true)
    }

    /// The first app with the given id.
    pub fn app_by_id(&self, id: &str) -> (r: Option<&App>)
        ensures
            r == match app_named(self.apps@, id@) {
                Some(a) => Some(&a),
                None => None::<&App>,
            },
    {
        find_app(&self.apps, id, false)
    }

    /// How many live connections belong to the app.
    pub fn app_connection_count(&self, app_id: &str) -> (n: usize)
        ensures
            n == app_sockets(connection_table(self.connections), app_id@).len(),
    {
        let es = connection_entries(&self.connections);
        let ghost t = connection_table(self.connections);
        let ghost mut seen: Set<Seq<char>> = Set::empty();
        let mut count: usize = 0;
        let mut i: usize = 0;
        while i < es.len()
            invariant
                i <= es@.len(),
                count <= i,
                seen.finite(),
                count == seen.len(),
                t == connection_table(self.connections),
                forall|s: Seq<char>| #[trigger] seen.contains(s) <==> exists|j: int|
                    0 <= j < i && (#[trigger] es@[j]).0@ == s && es@[j].1@ == app_id@,
                forall|j: int|
                    0 <= j < es@.len() ==> t.contains_key((#[trigger] es@[j]).0@) && t[es@[j].0@] == es@[j].1@,
                forall|j: int, k: int| 0 <= j < k < es@.len() ==> (#[trigger] es@[j]).0@ != (#[trigger] es@[k]).0@,
            decreases es.len() - i,
        {
            let e = &es[i];
            if bytes_equal(e.1.as_str().as_bytes(), app_id.as_bytes()) {
                proof {
                    lemma_utf8_injective(e.1@, app_id@);
                    assert(!seen.contains(e.0@)) by {
                        if seen.contains(e.0@) {
                            let j = choose|j: int| 0 <= j < i && (#[trigger] es@[j]).0@ == e.0@ && es@[j].1@ == app_id@;
                            assert(es@[j].0@ != es@[i as int].0@);
                        }
                    }
                    seen = seen.insert(e.0@);
                }
                count = count + 1;
            } else {
                proof {
                    assert forall|s: Seq<char>| #[trigger] seen.contains(s) <==> exists|j: int|
                        0 <= j < i + 1 && (#[trigger] es@[j]).0@ == s && es@[j].1@ == app_id@ by {
                        if exists|j: int| 0 <= j < i + 1 && (#[trigger] es@[j]).0@ == s && es@[j].1@ == app_id@ {
                            let j = choose|j: int| 0 <= j < i + 1 && (#[trigger] es@[j]).0@ == s && es@[j].1@ == app_id@;
                            if j == i {
                                assert(utf8(e.1@) != utf8(app_id@));
                            }
                        }
                    }
                }
            }
            i = i + 1;
        }
        proof {
            assert(seen =~= app_sockets(t, app_id@)) by {
                assert forall|s: Seq<char>| seen.contains(s) <==> #[trigger] app_sockets(t, app_id@).contains(s) by {
                    if t.contains_key(s) && t[s] == app_id@ {
                        let j = choose|j: int| 0 <= j < es@.len() && (#[trigger] es@[j]).0@ == s;
                        assert(es@[j].1@ == app_id@);
                    }
                }
            }
        }
        count
    }
}

} // verus!
