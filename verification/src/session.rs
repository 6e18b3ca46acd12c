//! The WebSocket side of the protocol: what the server does with each client
//! message on a connection, and when a connection opens and closes. Each
//! operation hands back its effects: frames for the connection itself,
//! frames fanned out to other sockets, and webhook events.

use vstd::prelude::*;
use crate::bytes::{utf8, string_opt, str_is, has_prefix, is_prefix, decimal, push_decimal};
use crate::json::{json_str, push_json_str, push_text, frame, frame_spec, error_frame, error_data};
use crate::channel_auth::{auth_ok, channel_auth_valid};
use crate::channels::{
    without, add_subscriber, join_spec, join_presence_spec, joins_new_user, leave_spec, departing_user,
    contains_str, strings_without, copy_strings,
};
use crate::roster::{roster, is_roster_of};
use crate::rate::{RateLimiter, next_count};
use crate::state::{
    App, State, Conn, PresenceMember, MemberView, ChannelView, channel_table, channel_get, connection_table,
    connection_put, connection_remove, app_sockets, string_views, distinct,
};

verus! {

// ----- messages, subscriptions, effects -----

/// The `channel_data` of a presence subscription, as parsed JSON: not JSON,
/// JSON without a usable `user_id` (a string or a number), or a member.
pub enum MemberData {
    Unparsable,
    NoUserId,
    User { user_id: String, user_info: String },
}

/// What the server reads of a client's JSON message.
pub struct ClientMessage {
    /// `event`, when a string.
    pub event: Option<String>,
    /// `channel`, when a string.
    pub channel: Option<String>,
    /// `data` as JSON text (`null` when absent).
    pub data: String,
    /// `data.channel`, when a string.
    pub data_channel: Option<String>,
    /// `data.auth`, when a string.
    pub data_auth: Option<String>,
    /// `data.channel_data`, when a string.
    pub data_channel_data: Option<String>,
    /// `data.channel_data` parsed.
    pub member: MemberData,
}

/// The channels one connection is subscribed to.
pub struct Subscriptions {
    names: Vec<String>,
}

impl View for Subscriptions {
    type V = Seq<Seq<char>>;

    closed spec fn view(&self) -> Seq<Seq<char>> {
        string_views(self.names@)
    }
}

impl Subscriptions {
    /// No channel is listed twice.
    pub open spec fn wf(&self) -> bool {
        distinct(self@)
    }

    /// No subscriptions.
    pub fn new() -> (s: Self)
        ensures
            s@ == Seq::<Seq<char>>::empty(),
            s.wf(),
    {
        let s = Subscriptions { names: Vec::new() };
        assert(s@ =~= Seq::<Seq<char>>::empty());
        s
    }

    /// How many channels.
    pub fn len(&self) -> (n: usize)
        ensures
            n == self@.len(),
    {
        self.names.len()
    }

    /// Whether the channel is among them.
    pub fn contains(&self, channel: &str) -> (r: bool)
        ensures
            r == self@.contains(channel@),
    {
        contains_str(&self.names, channel)
    }

    /// Adds a channel (no change when already there).
    pub fn insert(&mut self, channel: &str)
        requires
            old(self).wf(),
        ensures
            final(self).wf(),
            final(self)@ == add_subscriber(old(self)@, channel@),
    {
        if !contains_str(&self.names, channel) {
            self.names.push(channel.to_owned());
            assert(self@ =~= old(self)@.push(channel@));
        }
        proof {
            crate::channels::lemma_add_subscriber(old(self)@, channel@);
        }
    }

    /// Removes a channel, saying whether it was there.
    pub fn remove(&mut self, channel: &str) -> (was: bool)
        requires
            old(self).wf(),
        ensures
            final(self).wf(),
            was == old(self)@.contains(channel@),
            final(self)@ == without(old(self)@, channel@),
    {
        let was = contains_str(&self.names, channel);
        let rest = strings_without(&self.names, channel);
        self.names = rest;
        proof {
            crate::channels::lemma_without_distinct(old(self)@, channel@);
        }
        was
    }

    /// The channels, in subscription order.
    pub fn names(&self) -> (v: Vec<String>)
        ensures
            string_views(v@) == self@,
    {
        copy_strings(&self.names)
    }
}

/// A frame to hand to several sockets.
pub struct Fanout {
    pub frame: Vec<u8>,
    pub targets: Vec<String>,
}

/// What an operation asks the connection layer to do: frames for the
/// connection itself (in order), frames for other sockets, and webhook
/// events for the app.
pub struct Effects {
    pub replies: Vec<Vec<u8>>,
    pub fanouts: Vec<Fanout>,
    pub webhooks: Vec<Vec<u8>>,
}

/// Effects as the contracts see them.
pub struct EffectsView {
    pub replies: Seq<Seq<u8>>,
    pub fanouts: Seq<(Seq<u8>, Seq<Seq<char>>)>,
    pub webhooks: Seq<Seq<u8>>,
}

/// The bytes of each frame.
pub open spec fn byte_views(v: Seq<Vec<u8>>) -> Seq<Seq<u8>> {
    v.map_values(|f: Vec<u8>| f@)
}

/// Each fan-out's frame and target sockets.
pub open spec fn fanout_views(v: Seq<Fanout>) -> Seq<(Seq<u8>, Seq<Seq<char>>)> {
    v.map_values(|f: Fanout| (f.frame@, string_views(f.targets@)))
}

impl View for Effects {
    type V = EffectsView;

    open spec fn view(&self) -> EffectsView {
        EffectsView {
            replies: byte_views(self.replies@),
            fanouts: fanout_views(self.fanouts@),
            webhooks: byte_views(self.webhooks@),
        }
    }
}

/// Effects with nothing in them.
pub open spec fn no_effects() -> EffectsView {
    EffectsView { replies: seq![], fanouts: seq![], webhooks: seq![] }
}

/// Effects that are one reply.
pub open spec fn reply_only(f: Seq<u8>) -> EffectsView {
    EffectsView { replies: seq![f], fanouts: seq![], webhooks: seq![] }
}

impl Effects {
    /// No effects.
    pub fn none() -> (e: Self)
        ensures
            e@ == no_effects(),
    {
        let e = Effects { replies: Vec::new(), fanouts: Vec::new(), webhooks: Vec::new() };
        assert(e@.replies =~= Seq::<Seq<u8>>::empty());
        assert(e@.fanouts =~= Seq::<(Seq<u8>, Seq<Seq<char>>)>::empty());
        assert(e@.webhooks =~= Seq::<Seq<u8>>::empty());
        e
    }

    /// A single reply.
    pub fn reply(f: Vec<u8>) -> (e: Self)
        ensures
            e@ == reply_only(f@),
    {
        let mut replies: Vec<Vec<u8>> = Vec::new();
        replies.push(f);
        let e = Effects { replies, fanouts: Vec::new(), webhooks: Vec::new() };
        assert(e@.replies =~= seq![f@]);
        assert(e@.fanouts =~= Seq::<(Seq<u8>, Seq<Seq<char>>)>::empty());
        assert(e@.webhooks =~= Seq::<Seq<u8>>::empty());
        e
    }
}

// ----- the documents and frames of these operations -----

/// A `pusher:error` frame.
pub open spec fn error_reply(code: u16, message: Seq<char>) -> Seq<u8> {
    frame_spec(utf8("pusher:error"@), None, error_data(code, utf8(message)))
}

/// `pusher_internal:subscription_succeeded` on a channel.
pub open spec fn success_frame(channel: Seq<char>, data: Seq<u8>) -> Seq<u8> {
    frame_spec(utf8("pusher_internal:subscription_succeeded"@), Some(utf8(channel)), data)
}

/// A webhook event about a channel (and a user).
pub open spec fn webhook_event(name: Seq<char>, channel: Seq<char>, user: Option<Seq<char>>) -> Seq<u8> {
    utf8("{\"channel\":"@) + json_str(utf8(channel)) + utf8(",\"name\":"@) + json_str(utf8(name)) + match user {
        Some(u) => utf8(",\"user_id\":"@) + json_str(utf8(u)),
        None => seq![],
    } + utf8("}"@)
}

/// `pusher_internal:member_added` with the member's user id and info.
pub open spec fn member_added_frame(channel: Seq<char>, uid: Seq<char>, info: Seq<char>) -> Seq<u8> {
    frame_spec(
        utf8("pusher_internal:member_added"@),
        Some(utf8(channel)),
        utf8("{\"user_id\":"@) + json_str(utf8(uid)) + utf8(",\"user_info\":"@) + utf8(info) + utf8("}"@),
    )
}

/// `pusher_internal:member_removed` with the user id.
pub open spec fn member_removed_frame(channel: Seq<char>, uid: Seq<char>) -> Seq<u8> {
    frame_spec(
        utf8("pusher_internal:member_removed"@),
        Some(utf8(channel)),
        utf8("{\"user_id\":"@) + json_str(utf8(uid)) + utf8("}"@),
    )
}

/// A relayed client event: its name, channel and `data` as sent.
pub open spec fn client_event_frame(event: Seq<char>, channel: Seq<char>, data: Seq<char>) -> Seq<u8> {
    utf8("{\"channel\":"@) + json_str(utf8(channel)) + utf8(",\"data\":"@) + utf8(data) + utf8(",\"event\":"@) + json_str(
        utf8(event),
    ) + utf8("}"@)
}

fn webhook(name: &str, channel: &str, user: Option<&str>) -> (w: Vec<u8>)
    ensures
        w@ == webhook_event(name@, channel@, crate::bytes::str_opt(user)),
{
    let mut w: Vec<u8> = Vec::new();
    push_text(&mut w, "{\"channel\":");
    push_json_str(&mut w, channel.as_bytes());
    push_text(&mut w, ",\"name\":");
    push_json_str(&mut w, name.as_bytes());
    match user {
        Some(u) => {
            push_text(&mut w, ",\"user_id\":");
            push_json_str(&mut w, u.as_bytes());
        },
        None => {},
    }
    push_text(&mut w, "}");
    assert(w@ =~= webhook_event(name@, channel@, crate::bytes::str_opt(user)));
    w
}

// ----- the outcomes -----

/// The channel table as a mathematical map.
pub type Table = Map<(Seq<char>, Seq<char>), ChannelView>;

/// The outcome of a successful subscription to a public or private channel.
pub open spec fn joined(t: Table, t2: Table, subs: Seq<Seq<char>>, subs2: Seq<Seq<char>>, e: EffectsView, app_id: Seq<char>, sid: Seq<char>, ch: Seq<char>) -> bool {
    &&& t2 == join_spec(t, (app_id, ch), sid)
    &&& subs2 == add_subscriber(subs, ch)
    &&& e.replies == seq![success_frame(ch, utf8("{}"@))]
    &&& e.fanouts == Seq::<(Seq<u8>, Seq<Seq<char>>)>::empty()
    &&& e.webhooks == if t.contains_key((app_id, ch)) {
        Seq::<Seq<u8>>::empty()
    } else {
        seq![webhook_event("channel_occupied"@, ch, None)]
    }
}

/// The outcome of a successful subscription to a presence channel.
pub open spec fn joined_presence(
    t: Table,
    t2: Table,
    subs: Seq<Seq<char>>,
    subs2: Seq<Seq<char>>,
    e: EffectsView,
    app_id: Seq<char>,
    sid: Seq<char>,
    ch: Seq<char>,
    uid: Seq<char>,
    info: Seq<char>,
) -> bool {
    let key = (app_id, ch);
    let m = MemberView { socket_id: sid, user_id: uid, user_info: info };
    let new_user = joins_new_user(t, key, m);
    let others = without(t2[key].subscribers, sid);
    &&& t2 == join_presence_spec(t, key, m)
    &&& subs2 == add_subscriber(subs, ch)
    &&& e.replies.len() == 1
    &&& exists|r: Seq<u8>| is_roster_of(t2[key].presence->Some_0, r) && e.replies[0] == success_frame(ch, r)
    &&& e.webhooks == (if t.contains_key(key) {
        Seq::<Seq<u8>>::empty()
    } else {
        seq![webhook_event("channel_occupied"@, ch, None)]
    }) + (if new_user {
        seq![webhook_event("member_added"@, ch, Some(uid))]
    } else {
        Seq::<Seq<u8>>::empty()
    })
    &&& e.fanouts == if new_user && others.len() > 0 {
        seq![(member_added_frame(ch, uid, info), others)]
    } else {
        Seq::<(Seq<u8>, Seq<Seq<char>>)>::empty()
    }
}

/// Nothing changes but the reply.
pub open spec fn refused(t: Table, t2: Table, subs: Seq<Seq<char>>, subs2: Seq<Seq<char>>, e: EffectsView, reply: Seq<u8>) -> bool {
    t2 == t && subs2 == subs && e == reply_only(reply)
}

/// The outcome of a presence subscription, by its `channel_data`.
pub open spec fn presence_outcome(
    t: Table,
    t2: Table,
    subs: Seq<Seq<char>>,
    subs2: Seq<Seq<char>>,
    e: EffectsView,
    app: App,
    sid: Seq<char>,
    ch: Seq<char>,
    msg: ClientMessage,
) -> bool {
    match string_opt(msg.data_channel_data) {
        None => refused(t, t2, subs, subs2, e, error_reply(4009, "channel_data required for presence"@)),
        Some(cd) => if !channel_auth_valid(app.key@, app.secret@, sid, ch, string_opt(msg.data_auth), Some(cd)) {
            refused(t, t2, subs, subs2, e, error_reply(4009, "Connection not authorized"@))
        } else {
            match msg.member {
                MemberData::Unparsable => refused(t, t2, subs, subs2, e, error_reply(4009, "Invalid channel_data"@)),
                MemberData::NoUserId => refused(t, t2, subs, subs2, e, error_reply(4009, "channel_data.user_id required"@)),
                MemberData::User { user_id, user_info } => joined_presence(
                    t,
                    t2,
                    subs,
                    subs2,
                    e,
                    app.id@,
                    sid,
                    ch,
                    user_id@,
                    user_info@,
                ),
            }
        },
    }
}

/// The outcome of `pusher:subscribe`.
pub open spec fn subscribe_outcome(
    t: Table,
    t2: Table,
    subs: Seq<Seq<char>>,
    subs2: Seq<Seq<char>>,
    e: EffectsView,
    app: App,
    sid: Seq<char>,
    max_channels: usize,
    msg: ClientMessage,
) -> bool {
    match string_opt(msg.data_channel) {
        None => refused(t, t2, subs, subs2, e, error_reply(4009, "No channel provided"@)),
        Some(ch) => if ch.len() == 0 {
            refused(t, t2, subs, subs2, e, error_reply(4009, "No channel provided"@))
        } else if subs.len() >= max_channels && !subs.contains(ch) {
            refused(t, t2, subs, subs2, e, error_reply(4100, "Channel limit reached"@))
        } else if is_prefix(utf8("presence-"@), utf8(ch)) {
            presence_outcome(t, t2, subs, subs2, e, app, sid, ch, msg)
        } else if is_prefix(utf8("private-"@), utf8(ch)) && !channel_auth_valid(
            app.key@,
            app.secret@,
            sid,
            ch,
            string_opt(msg.data_auth),
            None,
        ) {
            refused(t, t2, subs, subs2, e, error_reply(4009, "Connection not authorized"@))
        } else {
            joined(t, t2, subs, subs2, e, app.id@, sid, ch)
        },
    }
}

/// The effects of `sid` leaving channel `ch` of app `app_id`.
pub open spec fn leave_effects(t: Table, app_id: Seq<char>, sid: Seq<char>, ch: Seq<char>) -> EffectsView {
    let key = (app_id, ch);
    let t2 = leave_spec(t, key, sid);
    EffectsView {
        replies: seq![],
        fanouts: match departing_user(t, key, sid) {
            Some(u) => seq![(member_removed_frame(ch, u), without(t[key].subscribers, sid))],
            None => seq![],
        },
        webhooks: match departing_user(t, key, sid) {
            Some(u) => seq![webhook_event("member_removed"@, ch, Some(u))],
            None => Seq::<Seq<u8>>::empty(),
        } + if t.contains_key(key) && !t2.contains_key(key) {
            seq![webhook_event("channel_vacated"@, ch, None)]
        } else {
            Seq::<Seq<u8>>::empty()
        },
    }
}

/// The outcome of a client event on a connection.
pub open spec fn client_event_outcome(t: Table, subs: Seq<Seq<char>>, e: EffectsView, app_id: Seq<char>, sid: Seq<char>, msg: ClientMessage) -> bool {
    let event = match string_opt(msg.event) {
        Some(ev) => ev,
        None => Seq::<char>::empty(),
    };
    match string_opt(msg.channel) {
        None => e == no_effects(),
        Some(ch) => if !(is_prefix(utf8("private-"@), utf8(ch)) || is_prefix(utf8("presence-"@), utf8(ch))) || !subs.contains(ch) {
            e == reply_only(error_reply(4009, "Client events are only allowed on subscribed private/presence channels"@))
        } else if !t.contains_key((app_id, ch)) {
            e == no_effects()
        } else {
            e == EffectsView {
                replies: seq![],
                fanouts: seq![(client_event_frame(event, ch, msg.data@), without(t[(app_id, ch)].subscribers, sid))],
                webhooks: seq![],
            }
        },
    }
}

/// The frame answering `pusher:ping`.
pub open spec fn pong_frame() -> Seq<u8> {
    frame_spec(utf8("pusher:pong"@), None, utf8("{}"@))
}

// ----- the operations -----

impl State {
    /// `pusher:subscribe` on a connection of `app` with socket `sid`.
    pub fn subscribe(&mut self, app: &App, sid: &str, subs: &mut Subscriptions, msg: &ClientMessage) -> (e: Effects)
        requires
            old(self).wf(),
            old(subs).wf(),
        ensures
            final(self).wf(),
            final(subs).wf(),
            subscribe_outcome(
                channel_table(old(self).channels),
                channel_table(final(self).channels),
                old(subs)@,
                final(subs)@,
                e@,
                *app,
                sid@,
                old(self).limits.max_channels_per_connection,
                *msg,
            ),
            final(self).apps == old(self).apps,
            final(self).limits == old(self).limits,
            final(self).metrics == old(self).metrics,
            final(self).connections == old(self).connections,
            final(self).socket_ids == old(self).socket_ids,
    {
        let channel = match &msg.data_channel {
            Some(c) => c,
            None => return Effects::reply(error_frame(4009, "No channel provided")),
        };
        if channel.as_str().is_empty() {
            return Effects::reply(error_frame(4009, "No channel provided"));
        }
        if subs.len() >= self.limits.max_channels_per_connection && !subs.contains(channel.as_str()) {
            return Effects::reply(error_frame(4100, "Channel limit reached"));
        }
        if has_prefix(channel.as_str(), "presence-") {
            return self.subscribe_presence(app, sid, subs, channel.as_str(), msg);
        }
        if has_prefix(channel.as_str(), "private-") && !auth_ok(
            app,
            sid,
            channel.as_str(),
            opt_as_str(&msg.data_auth),
            None,
        ) {
            return Effects::reply(error_frame(4009, "Connection not authorized"));
        }
        let first = self.join_channel(app.id.as_str(), channel.as_str(), sid);
        subs.insert(channel.as_str());
        let mut webhooks: Vec<Vec<u8>> = Vec::new();
        if first {
            webhooks.push(webhook("channel_occupied", channel.as_str(), None));
        }
        let mut replies: Vec<Vec<u8>> = Vec::new();
        replies.push(frame("pusher_internal:subscription_succeeded", Some(channel.as_str()), "{}".as_bytes()));
        let e = Effects { replies, fanouts: Vec::new(), webhooks };
        assert(e@.replies =~= seq![success_frame(channel@, utf8("{}"@))]);
        assert(e@.fanouts =~= Seq::<(Seq<u8>, Seq<Seq<char>>)>::empty());
        assert(e@.webhooks =~= if first {
            seq![webhook_event("channel_occupied"@, channel@, None)]
        } else {
            Seq::<Seq<u8>>::empty()
        });
        e
    }

    /// A presence subscription, once the channel is known to be a presence
    /// channel within the connection's channel limit.
    fn subscribe_presence(&mut self, app: &App, sid: &str, subs: &mut Subscriptions, channel: &str, msg: &ClientMessage) -> (e: Effects)
        requires
            old(self).wf(),
            old(subs).wf(),
        ensures
            final(self).wf(),
            final(subs).wf(),
            presence_outcome(
                channel_table(old(self).channels),
                channel_table(final(self).channels),
                old(subs)@,
                final(subs)@,
                e@,
                *app,
                sid@,
                channel@,
                *msg,
            ),
            final(self).apps == old(self).apps,
            final(self).limits == old(self).limits,
            final(self).metrics == old(self).metrics,
            final(self).connections == old(self).connections,
            final(self).socket_ids == old(self).socket_ids,
    {
        let channel_data = match &msg.data_channel_data {
            Some(d) => d,
            None => return Effects::reply(error_frame(4009, "channel_data required for presence")),
        };
        if !auth_ok(app, sid, channel, opt_as_str(&msg.data_auth), Some(channel_data.as_str())) {
            return Effects::reply(error_frame(4009, "Connection not authorized"));
        }
        let (user_id, user_info) = match &msg.member {
            MemberData::Unparsable => return Effects::reply(error_frame(4009, "Invalid channel_data")),
            MemberData::NoUserId => return Effects::reply(error_frame(4009, "channel_data.user_id required")),
            MemberData::User { user_id, user_info } => (user_id, user_info),
        };
        let ghost t = channel_table(self.channels);
        let ghost key = (app.id@, channel@);
        let member = PresenceMember { socket_id: sid.to_owned(), user_id: user_id.clone(), user_info: user_info.clone() };
        let joined = self.join_presence(app.id.as_str(), channel, member);
        subs.insert(channel);
        let ghost t2 = channel_table(self.channels);
        let mut webhooks: Vec<Vec<u8>> = Vec::new();
        if joined.first {
            webhooks.push(webhook("channel_occupied", channel, None));
        }
        if joined.new_user {
            webhooks.push(webhook("member_added", channel, Some(user_id.as_str())));
        }
        let r = roster(&joined.members);
        let mut replies: Vec<Vec<u8>> = Vec::new();
        replies.push(frame("pusher_internal:subscription_succeeded", Some(channel), r.as_slice()));
        let mut fanouts: Vec<Fanout> = Vec::new();
        if joined.new_user {
            let targets = strings_without(&joined.subscribers, sid);
            if targets.len() > 0 {
                let mut data: Vec<u8> = Vec::new();
                push_text(&mut data, "{\"user_id\":");
                push_json_str(&mut data, user_id.as_str().as_bytes());
                push_text(&mut data, ",\"user_info\":");
                crate::bytes::append_bytes(&mut data, user_info.as_str().as_bytes());
                push_text(&mut data, "}");
                let f = frame("pusher_internal:member_added", Some(channel), data.as_slice());
                assert(f@ == member_added_frame(channel@, user_id@, user_info@)) by {
                    assert(data@ =~= utf8("{\"user_id\":"@) + json_str(utf8(user_id@)) + utf8(",\"user_info\":"@) + utf8(
                        user_info@,
                    ) + utf8("}"@));
                }
                fanouts.push(Fanout { frame: f, targets });
                assert(fanout_views(fanouts@) =~= seq![(member_added_frame(channel@, user_id@, user_info@), without(t2[key].subscribers, sid@))]);
            }
        }
        let e = Effects { replies, fanouts, webhooks };
        proof {
            assert(e@.replies =~= seq![success_frame(channel@, r@)]);
            assert(e@.replies[0] == success_frame(channel@, r@));
            assert(is_roster_of(t2[key].presence->Some_0, r@));
            let m = MemberView { socket_id: sid@, user_id: user_id@, user_info: user_info@ };
            assert(e@.webhooks =~= (if t.contains_key(key) {
                Seq::<Seq<u8>>::empty()
            } else {
                seq![webhook_event("channel_occupied"@, channel@, None)]
            }) + (if joins_new_user(t, key, m) {
                seq![webhook_event("member_added"@, channel@, Some(user_id@))]
            } else {
                Seq::<Seq<u8>>::empty()
            }));
            if !(joins_new_user(t, key, m) && without(t2[key].subscribers, sid@).len() > 0) {
                assert(e@.fanouts =~= Seq::<(Seq<u8>, Seq<Seq<char>>)>::empty());
            }
        }
        e
    }

    /// `sid` leaves channel `channel` of app `app_id`: members left behind
    /// learn of a user whose last socket left, and webhooks report the
    /// member's departure and the channel emptying.
    pub fn remove_sub(&mut self, app_id: &str, channel: &str, sid: &str) -> (e: Effects)
        requires
            old(self).wf(),
        ensures
            final(self).wf(),
            channel_table(final(self).channels) == leave_spec(channel_table(old(self).channels), (app_id@, channel@), sid@),
            e@ == leave_effects(channel_table(old(self).channels), app_id@, sid@, channel@),
            final(self).apps == old(self).apps,
            final(self).limits == old(self).limits,
            final(self).metrics == old(self).metrics,
            final(self).connections == old(self).connections,
            final(self).socket_ids == old(self).socket_ids,
    {
        let ghost t = channel_table(self.channels);
        let d = self.leave_channel(app_id, channel, sid);
        let mut fanouts: Vec<Fanout> = Vec::new();
        let mut webhooks: Vec<Vec<u8>> = Vec::new();
        match &d.removed_user {
            Some(u) => {
                let mut data: Vec<u8> = Vec::new();
                push_text(&mut data, "{\"user_id\":");
                push_json_str(&mut data, u.as_str().as_bytes());
                push_text(&mut data, "}");
                let f = frame("pusher_internal:member_removed", Some(channel), data.as_slice());
                assert(data@ =~= utf8("{\"user_id\":"@) + json_str(utf8(u@)) + utf8("}"@));
                let targets = copy_strings(&d.remaining);
                fanouts.push(Fanout { frame: f, targets });
                webhooks.push(webhook("member_removed", channel, Some(u.as_str())));
            },
            None => {},
        }
        if d.vacated {
            webhooks.push(webhook("channel_vacated", channel, None));
        }
        let e = Effects { replies: Vec::new(), fanouts, webhooks };
        proof {
            let key = (app_id@, channel@);
            let want = leave_effects(t, app_id@, sid@, channel@);
            assert(e@.replies =~= want.replies);
            assert(e@.fanouts =~= want.fanouts);
            assert(e@.webhooks =~= want.webhooks);
        }
        e
    }

    /// A `client-*` event from socket `sid`: relayed to the channel's other
    /// subscribers when the sender is subscribed to that private or presence
    /// channel.
    pub fn client_event(&self, app: &App, sid: &str, subs: &Subscriptions, msg: &ClientMessage) -> (e: Effects)
        requires
            self.wf(),
        ensures
            client_event_outcome(channel_table(self.channels), subs@, e@, app.id@, sid@, *msg),
    {
        let channel = match &msg.channel {
            Some(c) => c,
            None => return Effects::none(),
        };
        if !(has_prefix(channel.as_str(), "private-") || has_prefix(channel.as_str(), "presence-")) || !subs.contains(channel.as_str()) {
            return Effects::reply(error_frame(4009, "Client events are only allowed on subscribed private/presence channels"));
        }
        let mut out: Vec<u8> = Vec::new();
        push_text(&mut out, "{\"channel\":");
        push_json_str(&mut out, channel.as_str().as_bytes());
        push_text(&mut out, ",\"data\":");
        crate::bytes::append_bytes(&mut out, msg.data.as_str().as_bytes());
        push_text(&mut out, ",\"event\":");
        match &msg.event {
            Some(ev) => push_json_str(&mut out, ev.as_str().as_bytes()),
            None => push_json_str(&mut out, "".as_bytes()),
        }
        push_text(&mut out, "}");
        let ghost event = match string_opt(msg.event) {
            Some(ev) => ev,
            None => Seq::<char>::empty(),
        };
        proof {
            if msg.event is None {
                assert(""@ =~= Seq::<char>::empty()) by {
                    reveal_strlit("");
                }
            }
        }
        assert(out@ =~= client_event_frame(event, channel@, msg.data@));
        let key = (app.id.clone(), channel.clone());
        let cs = match channel_get(&self.channels, &key) {
            Some(cs) => cs,
            None => return Effects::none(),
        };
        let targets = strings_without(&cs.subscribers, sid);
        let mut fanouts: Vec<Fanout> = Vec::new();
        fanouts.push(Fanout { frame: out, targets });
        let e = Effects { replies: Vec::new(), fanouts, webhooks: Vec::new() };
        assert(e@.fanouts =~= seq![(client_event_frame(event, channel@, msg.data@), without(channel_table(self.channels)[(app.id@, channel@)].subscribers, sid@))]);
        assert(e@.replies =~= Seq::<Seq<u8>>::empty());
        assert(e@.webhooks =~= Seq::<Seq<u8>>::empty());
        e
    }
}

/// The text of an optional owned string, borrowed.
pub fn opt_as_str(o: &Option<String>) -> (r: Option<&str>)
    ensures
        crate::bytes::str_opt(r) == string_opt(*o),
{
    match o {
        Some(s) => Some(s.as_str()),
        None => None,
    }
}


/// The name of a message's event (empty when absent).
pub open spec fn event_name(m: ClientMessage) -> Seq<char> {
    match string_opt(m.event) {
        Some(ev) => ev,
        None => Seq::<char>::empty(),
    }
}

/// Whether a message is a client event.
pub open spec fn is_client_event(msg: Option<ClientMessage>) -> bool {
    match msg {
        Some(m) => event_name(m) != "pusher:ping"@ && event_name(m) != "pusher:subscribe"@ && event_name(m)
            != "pusher:unsubscribe"@ && is_prefix(utf8("client-"@), utf8(event_name(m))),
        None => false,
    }
}

/// The outcome of one client message on a connection; `allowed` tells
/// whether the rate limiter let a client event through.
pub open spec fn message_outcome(
    t: Table,
    t2: Table,
    subs: Seq<Seq<char>>,
    subs2: Seq<Seq<char>>,
    e: EffectsView,
    app: App,
    sid: Seq<char>,
    max_channels: usize,
    msg: Option<ClientMessage>,
    allowed: bool,
) -> bool {
    match msg {
        None => refused(t, t2, subs, subs2, e, error_reply(4200, "Invalid JSON"@)),
        Some(m) => {
            let ev = event_name(m);
            if ev == "pusher:ping"@ {
                refused(t, t2, subs, subs2, e, pong_frame())
            } else if ev == "pusher:subscribe"@ {
                subscribe_outcome(t, t2, subs, subs2, e, app, sid, max_channels, m)
            } else if ev == "pusher:unsubscribe"@ {
                match string_opt(m.data_channel) {
                    Some(c) => if subs.contains(c) {
                        subs2 == without(subs, c) && t2 == leave_spec(t, (app.id@, c), sid) && e == leave_effects(t, app.id@, sid, c)
                    } else {
                        t2 == t && subs2 == subs && e == no_effects()
                    },
                    None => t2 == t && subs2 == subs && e == no_effects(),
                }
            } else if is_prefix(utf8("client-"@), utf8(ev)) {
                t2 == t && subs2 == subs && if allowed {
                    client_event_outcome(t, subs, e, app.id@, sid, m)
                } else {
                    e == reply_only(error_reply(4301, "Client event rate limit exceeded"@))
                }
            } else {
                t2 == t && subs2 == subs && e == no_effects()
            }
        },
    }
}

/// The `pusher:connection_established` frame.
pub open spec fn established_frame(sid: Seq<char>, activity_timeout_s: u64) -> Seq<u8> {
    frame_spec(
        utf8("pusher:connection_established"@),
        None,
        utf8("{\"activity_timeout\":"@) + decimal(activity_timeout_s as nat) + utf8(",\"socket_id\":"@) + json_str(utf8(sid))
            + utf8("}"@),
    )
}

/// The table after `sid` leaves each of the channels, in order.
pub open spec fn leave_all(t: Table, app_id: Seq<char>, sid: Seq<char>, chs: Seq<Seq<char>>) -> Table
    decreases chs.len(),
{
    if chs.len() == 0 {
        t
    } else {
        leave_spec(leave_all(t, app_id, sid, chs.drop_last()), (app_id, chs.last()), sid)
    }
}

/// The effects of `sid` leaving each of the channels, in order.
pub open spec fn leave_all_effects(t: Table, app_id: Seq<char>, sid: Seq<char>, chs: Seq<Seq<char>>) -> EffectsView
    decreases chs.len(),
{
    if chs.len() == 0 {
        no_effects()
    } else {
        let prev = leave_all_effects(t, app_id, sid, chs.drop_last());
        let step = leave_effects(leave_all(t, app_id, sid, chs.drop_last()), app_id, sid, chs.last());
        EffectsView {
            replies: prev.replies + step.replies,
            fanouts: prev.fanouts + step.fanouts,
            webhooks: prev.webhooks + step.webhooks,
        }
    }
}

/// Whether a new connection to an app would exceed its cap.
pub open spec fn app_full(conns: Map<Seq<char>, Seq<char>>, app: App) -> bool {
    app.max_connections != 0 && app_sockets(conns, app.id@).len() >= app.max_connections
}

/// A connection attempt's outcome.
pub enum Admission {
    /// The app is at its connection cap; the socket is closed.
    Refused,
    /// The connection is registered under `socket_id` and greeted with
    /// `established`.
    Accepted { socket_id: String, established: Vec<u8> },
}

impl State {
    /// What the server does with one text message on a connection of `app`
    /// with socket `sid` (`None` when it is not JSON).
    pub fn on_text(
        &mut self,
        app: &App,
        sid: &str,
        subs: &mut Subscriptions,
        rate: &mut RateLimiter,
        msg: &Option<ClientMessage>,
    ) -> (e: Effects)
        requires
            old(self).wf(),
            old(subs).wf(),
        ensures
            final(self).wf(),
            final(subs).wf(),
            message_outcome(
                channel_table(old(self).channels),
                channel_table(final(self).channels),
                old(subs)@,
                final(subs)@,
                e@,
                *app,
                sid@,
                old(self).limits.max_channels_per_connection,
                *msg,
                final(rate).count() <= final(rate).max(),
            ),
            !is_client_event(*msg) ==> *final(rate) == *old(rate),
            is_client_event(*msg) ==> final(rate).max() == old(rate).max() && (final(rate).count() == next_count(
                old(rate).count(),
                true,
            ) || final(rate).count() == next_count(old(rate).count(), false)),
            final(self).apps == old(self).apps,
            final(self).limits == old(self).limits,
            final(self).metrics == old(self).metrics,
            final(self).connections == old(self).connections,
            final(self).socket_ids == old(self).socket_ids,
    {
        let m = match msg {
            Some(m) => m,
            None => return Effects::reply(error_frame(4200, "Invalid JSON")),
        };
        let ev: &str = match &m.event {
            Some(ev) => ev.as_str(),
            None => "",
        };
        proof {
            if m.event is None {
                assert(""@ =~= Seq::<char>::empty()) by {
                    reveal_strlit("");
                }
            }
            assert(ev@ == event_name(*m));
        }
        if str_is(ev, "pusher:ping") {
            return Effects::reply(frame("pusher:pong", None, "{}".as_bytes()));
        }
        if str_is(ev, "pusher:subscribe") {
            return self.subscribe(app, sid, subs, m);
        }
        if str_is(ev, "pusher:unsubscribe") {
            match &m.data_channel {
                Some(ch) => {
                    let ghost before = subs@;
                    if subs.remove(ch.as_str()) {
                        return self.remove_sub(app.id.as_str(), ch.as_str(), sid);
                    }
                    proof {
                        crate::channels::lemma_without_absent(before, ch@);
                    }
                    return Effects::none();
                },
                None => return Effects::none(),
            }
        }
        if has_prefix(ev, "client-") {
            if !rate.allow() {
                return Effects::reply(error_frame(4301, "Client event rate limit exceeded"));
            }
            return self.client_event(app, sid, subs, m);
        }
        Effects::none()
    }

    /// Admits a connection to `app`: a socket id is always drawn; the
    /// connection is refused when the app is at its cap, else registered and
    /// greeted with its socket id and the activity timeout.
    pub fn connect(&mut self, app: &App) -> (a: Admission)
        ensures
            final(self).socket_ids.prefix() == old(self).socket_ids.prefix(),
            final(self).socket_ids.counter() == (if old(self).socket_ids.counter() == u64::MAX {
                0
            } else {
                (old(self).socket_ids.counter() + 1) as u64
            }),
            app_full(connection_table(old(self).connections), *app) ==> a is Refused && final(self).connections
                == old(self).connections && final(self).metrics == old(self).metrics,
            !app_full(connection_table(old(self).connections), *app) ==> match a {
                Admission::Accepted { socket_id, established } => {
                    &&& utf8(socket_id@) == crate::state::socket_id_spec(
                        old(self).socket_ids.prefix(),
                        old(self).socket_ids.counter(),
                    )
                    &&& connection_table(final(self).connections) == connection_table(old(self).connections).insert(
                        socket_id@,
                        app.id@,
                    )
                    &&& final(self).metrics.connections_total == (if old(self).metrics.connections_total == u64::MAX {
                        0
                    } else {
                        (old(self).metrics.connections_total + 1) as u64
                    })
                    &&& final(self).metrics.events_received_total == old(self).metrics.events_received_total
                    &&& final(self).metrics.messages_sent_total == old(self).metrics.messages_sent_total
                    &&& final(self).metrics.slow_consumers_killed_total == old(self).metrics.slow_consumers_killed_total
                    &&& final(self).metrics.fanout_micros_sum == old(self).metrics.fanout_micros_sum
                    &&& final(self).metrics.fanout_count == old(self).metrics.fanout_count
                    &&& established@ == established_frame(socket_id@, old(self).limits.activity_timeout_s)
                },
                Admission::Refused => false,
            },
            final(self).apps == old(self).apps,
            final(self).limits == old(self).limits,
            final(self).channels == old(self).channels,
    {
        let sid = self.new_socket_id();
        if app.max_connections != 0 && self.app_connection_count(app.id.as_str()) >= app.max_connections {
            return Admission::Refused;
        }
        let mut data: Vec<u8> = Vec::new();
        push_text(&mut data, "{\"activity_timeout\":");
        push_decimal(&mut data, self.limits.activity_timeout_s);
        push_text(&mut data, ",\"socket_id\":");
        push_json_str(&mut data, sid.as_str().as_bytes());
        push_text(&mut data, "}");
        let established = frame("pusher:connection_established", None, data.as_slice());
        assert(data@ =~= utf8("{\"activity_timeout\":"@) + decimal(self.limits.activity_timeout_s as nat) + utf8(
            ",\"socket_id\":"@,
        ) + json_str(utf8(sid@)) + utf8("}"@));
        connection_put(&mut self.connections, sid.clone(), Conn { app_id: app.id.clone() });
        self.metrics.connections_total = self.metrics.connections_total.wrapping_add(1);
        Admission::Accepted { socket_id: sid, established }
    }

    /// Forgets a closed connection: it leaves the connection table and each
    /// of its channels in turn.
    pub fn disconnect(&mut self, app_id: &str, sid: &str, subs: &Subscriptions) -> (e: Effects)
        requires
            old(self).wf(),
        ensures
            final(self).wf(),
            connection_table(final(self).connections) == connection_table(old(self).connections).remove(sid@),
            channel_table(final(self).channels) == leave_all(channel_table(old(self).channels), app_id@, sid@, subs@),
            e@ == leave_all_effects(channel_table(old(self).channels), app_id@, sid@, subs@),
            final(self).apps == old(self).apps,
            final(self).limits == old(self).limits,
            final(self).metrics == old(self).metrics,
            final(self).socket_ids == old(self).socket_ids,
    {
        connection_remove(&mut self.connections, sid);
        let ghost t = channel_table(self.channels);
        let chs = subs.names();
        let ghost cv = string_views(chs@);
        let mut e = Effects::none();
        let mut i: usize = 0;
        assert(cv.take(0) =~= Seq::<Seq<char>>::empty());
        while i < chs.len()
            invariant
                i <= cv.len(),
                cv == string_views(chs@),
                cv == subs@,
                self.wf(),
                channel_table(self.channels) == leave_all(t, app_id@, sid@, cv.take(i as int)),
                e@ == leave_all_effects(t, app_id@, sid@, cv.take(i as int)),
                connection_table(self.connections) == connection_table(old(self).connections).remove(sid@),
                self.apps == old(self).apps,
                self.limits == old(self).limits,
                self.metrics == old(self).metrics,
                self.socket_ids == old(self).socket_ids,
            decreases cv.len() - i,
        {
            let ghost pre = cv.take(i as int);
            let ghost cur = cv.take(i + 1);
            assert(cur.drop_last() =~= pre);
            assert(cur.last() == chs@[i as int]@);
            let mut step = self.remove_sub(app_id, chs[i].as_str(), sid);
            let ghost r0 = e.replies@;
            let ghost f0 = e.fanouts@;
            let ghost w0 = e.webhooks@;
            let ghost r1 = step.replies@;
            let ghost f1 = step.fanouts@;
            let ghost w1 = step.webhooks@;
            let ghost sv = step@;
            e.replies.append(&mut step.replies);
            e.fanouts.append(&mut step.fanouts);
            e.webhooks.append(&mut step.webhooks);
            proof {
                assert(e.replies@ == r0 + r1);
                assert(byte_views(e.replies@) =~= byte_views(r0) + byte_views(r1));
                assert(fanout_views(e.fanouts@) =~= fanout_views(f0) + fanout_views(f1));
                assert(byte_views(e.webhooks@) =~= byte_views(w0) + byte_views(w1));
                assert(sv == leave_effects(leave_all(t, app_id@, sid@, pre), app_id@, sid@, cur.last()));
            }
            i = i + 1;
        }
        assert(cv.take(i as int) =~= cv);
        e
    }
}
} // verus!
