//! A connection's life around the protocol: whether a WebSocket upgrade is
//! admitted, and the activity timer that pings a quiet client and drops a
//! silent one.

use vstd::prelude::*;
use crate::bytes::{utf8, str_opt, string_opt};
use crate::json::{frame, frame_spec, error_frame};
use crate::config::{origin_allowed, origin_admitted};
use crate::session::error_reply;
use crate::state::{State, App, app_keyed, string_views};

verus! {

/// The two apps have the same settings.
pub open spec fn same_app(a: App, b: App) -> bool {
    &&& a.id@ == b.id@
    &&& a.key@ == b.key@
    &&& a.secret@ == b.secret@
    &&& a.max_connections == b.max_connections
    &&& string_opt(a.webhook_url) == string_opt(b.webhook_url)
}

/// A copy of an app's settings.
pub fn copy_app(a: &App) -> (b: App)
    ensures
        same_app(*a, b),
{
    App {
        id: a.id.clone(),
        key: a.key.clone(),
        secret: a.secret.clone(),
        max_connections: a.max_connections,
        webhook_url: match &a.webhook_url {
            Some(u) => Some(u.clone()),
            None => None,
        },
    }
}

/// What happens to a WebSocket upgrade request.
pub enum Upgrade {
    /// The browser origin is not allowed: HTTP 403.
    Forbidden,
    /// No app has the key: the socket is sent `error` and closed.
    UnknownApp { error: Vec<u8> },
    /// The connection is served for `app`, with messages up to
    /// `max_message_size` bytes.
    Accepted { app: App, max_message_size: usize },
}

impl State {
    /// The upgrade of `/app/<key>` requested from `origin`.
    pub fn ws_route(&self, key: &str, origin: Option<&str>) -> (u: Upgrade)
        ensures
            !origin_admitted(string_views(self.limits.allowed_origins@), str_opt(origin)) ==> u is Forbidden,
            origin_admitted(string_views(self.limits.allowed_origins@), str_opt(origin)) ==> match app_keyed(
                self.apps@,
                key@,
            ) {
                None => (u matches Upgrade::UnknownApp { error } && error@ == error_reply(
                    4001,
                    "Application does not exist"@,
                )),
                Some(app) => (u matches Upgrade::Accepted { app: a, max_message_size } && same_app(app, a)
                    && max_message_size == self.limits.max_message_size),
            },
    {
        if !origin_allowed(&self.limits.allowed_origins, origin) {
            return Upgrade::Forbidden;
        }
        match self.app_by_key(key) {
            Some(app) => Upgrade::Accepted { app: copy_app(app), max_message_size: self.limits.max_message_size },
            None => Upgrade::UnknownApp { error: error_frame(4001, "Application does not exist") },
        }
    }
}

/// Seconds a pinged client has to show any traffic.
pub const PONG_GRACE_S: u64 = 30;

/// The `pusher:ping` frame.
pub open spec fn ping_frame() -> Seq<u8> {
    frame_spec(utf8("pusher:ping"@), None, utf8("{}"@))
}

/// What the timer asks for when it runs out.
pub enum Tick {
    /// Send `frame` and wait `wait_s` seconds more.
    Ping { frame: Vec<u8>, wait_s: u64 },
    /// The client stayed silent after a ping: drop the connection.
    Close,
}

/// What a connection's activity timer sees: traffic from the client, or
/// its deadline passing.
pub enum Activity {
    Traffic,
    Deadline,
}

/// Whether the client has been pinged after one more event.
pub open spec fn live_step(pinged: bool, ev: Activity) -> bool {
    match ev {
        Activity::Traffic => false,
        Activity::Deadline => true,
    }
}

/// Whether the client stands pinged after a session's events so far.
pub open spec fn pinged_after(evs: Seq<Activity>) -> bool
    decreases evs.len(),
{
    if evs.len() == 0 {
        false
    } else {
        live_step(pinged_after(evs.drop_last()), evs.last())
    }
}

/// Over a session, the timer drops the connection at a deadline exactly when
/// the event before it was a deadline too (a ping went unanswered for
/// `PONG_GRACE_S`); at any other deadline it pings, and any traffic clears
/// the ping.
pub proof fn law_liveness_session(evs: Seq<Activity>, i: int)
    requires
        0 <= i < evs.len(),
    ensures
        pinged_after(evs.take(i)) <==> (i > 0 && evs[i - 1] is Deadline),
        evs[i] is Traffic ==> !pinged_after(evs.take(i + 1)),
        evs[i] is Deadline ==> pinged_after(evs.take(i + 1)),
{
    if i > 0 {
        assert(evs.take(i).drop_last() =~= evs.take(i - 1));
        assert(evs.take(i).last() == evs[i - 1]);
    }
    assert(evs.take(i + 1).drop_last() =~= evs.take(i));
    assert(evs.take(i + 1).last() == evs[i]);
}

/// A connection's activity timer: after `activity_timeout_s` seconds
/// without traffic the client is pinged; after `PONG_GRACE_S` more it is
/// dropped. Any traffic restarts the timer.
pub struct Liveness {
    pub activity_timeout_s: u64,
    pub pinged: bool,
}

impl Liveness {
    /// A timer for a fresh connection.
    pub fn new(activity_timeout_s: u64) -> (l: Self)
        ensures
            l.activity_timeout_s == activity_timeout_s,
            !l.pinged,
    {
        Liveness { activity_timeout_s, pinged: false }
    }

    /// Traffic from the client; returns the seconds until the next deadline.
    pub fn on_traffic(&mut self) -> (wait_s: u64)
        ensures
            !final(self).pinged,
            final(self).pinged == live_step(old(self).pinged, Activity::Traffic),
            final(self).activity_timeout_s == old(self).activity_timeout_s,
            wait_s == old(self).activity_timeout_s,
    {
        self.pinged = false;
        self.activity_timeout_s
    }

    /// The deadline passed without traffic.
    pub fn on_deadline(&mut self) -> (t: Tick)
        ensures
            final(self).activity_timeout_s == old(self).activity_timeout_s,
            final(self).pinged == live_step(old(self).pinged, Activity::Deadline),
            old(self).pinged ==> t is Close,
            !old(self).pinged ==> final(self).pinged && (t matches Tick::Ping { frame, wait_s } && frame@
                == ping_frame() && wait_s == PONG_GRACE_S),
    {
        if self.pinged {
            return Tick::Close;
        }
        self.pinged = true;
        Tick::Ping { frame: frame("pusher:ping", None, "{}".as_bytes()), wait_s: PONG_GRACE_S }
    }
}

} // verus!
