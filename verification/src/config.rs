//! The server's configuration: its defaults, the apps and limits that the
//! configuration file describes, and the browser origins it admits.

use vstd::prelude::*;
use vstd::string::StringExecFns;
use crate::bytes::{utf8, parse_u64, parse_u64_spec};
use crate::state::{App, Limits, string_views};
use crate::channels::contains_str;

verus! {

/// The address the server listens on unless configured otherwise.
pub fn default_host() -> (host: String)
    ensures
        host@ == "0.0.0.0"@,
{
    String::from_str("0.0.0.0")
}

/// The port the server listens on unless configured otherwise.
pub fn default_port() -> (port: u16)
    ensures
        port == 8080,
{
    8080
}

/// The largest client message, in KiB, unless configured otherwise.
pub fn default_msg_kb() -> (kb: usize)
    ensures
        kb == 10,
{
    10
}

/// Client events per connection and second, unless configured otherwise.
pub fn default_client_event_rate() -> (rate: u32)
    ensures
        rate == 10,
{
    10
}

/// The activity timeout in seconds, unless configured otherwise.
pub fn default_timeout() -> (seconds: u64)
    ensures
        seconds == 120,
{
    120
}

/// Channels per connection, unless configured otherwise.
pub fn default_max_channels() -> (n: usize)
    ensures
        n == 100,
{
    100
}

/// Where the server listens.
pub struct Server {
    pub host: String,
    pub port: u16,
}

impl Default for Server {
    fn default() -> (s: Self)
        ensures
            s.host@ == "0.0.0.0"@,
            s.port == 8080,
    {
        Server { host: default_host(), port: default_port() }
    }
}

/// An app as the configuration file describes it.
pub struct AppCfg {
    pub id: String,
    pub key: String,
    pub secret: String,
    pub max_connections: usize,
    pub webhook_url: Option<String>,
}

impl AppCfg {
    /// The configured app.
    pub fn into_app(self) -> (app: App)
        ensures
            app.id == self.id,
            app.key == self.key,
            app.secret == self.secret,
            app.max_connections == self.max_connections,
            app.webhook_url == self.webhook_url,
    {
        App {
            id: self.id,
            key: self.key,
            secret: self.secret,
            max_connections: self.max_connections,
            webhook_url: self.webhook_url,
        }
    }
}

/// The limits as the configuration file describes them.
pub struct LimitsCfg {
    pub max_message_size_kb: usize,
    pub activity_timeout_s: u64,
    pub max_channels_per_connection: usize,
    pub allowed_origins: Vec<String>,
    pub client_event_rate: u32,
}

impl Default for LimitsCfg {
    fn default() -> (l: Self)
        ensures
            l.max_message_size_kb == 10,
            l.activity_timeout_s == 120,
            l.max_channels_per_connection == 100,
            l.allowed_origins@.len() == 0,
            l.client_event_rate == 10,
    {
        LimitsCfg {
            max_message_size_kb: default_msg_kb(),
            activity_timeout_s: default_timeout(),
            max_channels_per_connection: default_max_channels(),
            allowed_origins: Vec::new(),
            client_event_rate: default_client_event_rate(),
        }
    }
}

impl LimitsCfg {
    /// The server's limits: the message size in bytes, the rest as given.
    pub fn limits(self) -> (l: Limits)
        requires
            self.max_message_size_kb * 1024 <= usize::MAX,
        ensures
            l.max_message_size == self.max_message_size_kb * 1024,
            l.activity_timeout_s == self.activity_timeout_s,
            l.max_channels_per_connection == self.max_channels_per_connection,
            l.allowed_origins == self.allowed_origins,
            l.client_event_rate == self.client_event_rate,
    {
        Limits {
            max_message_size: self.max_message_size_kb * 1024,
            activity_timeout_s: self.activity_timeout_s,
            max_channels_per_connection: self.max_channels_per_connection,
            allowed_origins: self.allowed_origins,
            client_event_rate: self.client_event_rate,
        }
    }
}

/// Whether a browser connection is admitted: every origin is when the list
/// is empty, and so is a request without an origin.
pub open spec fn origin_admitted(allowed: Seq<Seq<char>>, origin: Option<Seq<char>>) -> bool {
    allowed.len() == 0 || match origin {
        None => true,
        Some(o) => allowed.contains(o),
    }
}

/// Decides whether a WebSocket upgrade from `origin` is admitted.
pub fn origin_allowed(allowed: &Vec<String>, origin: Option<&str>) -> (ok: bool)
    ensures
        ok == origin_admitted(string_views(allowed@), crate::bytes::str_opt(origin)),
{
    if allowed.len() == 0 {
        return true;
    }
    match origin {
        None => true,
        Some(o) => contains_str(allowed, o),
    }
}

/// Whether a character is white space in Unicode's sense (what
/// `char::is_whitespace` tests).
pub open spec fn is_white(c: char) -> bool {
    let v = c as u32;
    (9 <= v <= 13) || v == 32 || v == 0x85 || v == 0xa0 || v == 0x1680 || (0x2000 <= v <= 0x200a) || v == 0x2028
        || v == 0x2029 || v == 0x202f || v == 0x205f || v == 0x3000
}

/// The text without its leading white space.
pub open spec fn trim_start(s: Seq<char>) -> Seq<char>
    decreases s.len(),
{
    if s.len() > 0 && is_white(s[0]) {
        trim_start(s.drop_first())
    } else {
        s
    }
}

/// The text without its trailing white space.
pub open spec fn trim_end(s: Seq<char>) -> Seq<char>
    decreases s.len(),
{
    if s.len() > 0 && is_white(s.last()) {
        trim_end(s.drop_last())
    } else {
        s
    }
}

/// The pieces of a text between its commas (one piece when it has none).
pub open spec fn comma_pieces(s: Seq<char>) -> Seq<Seq<char>>
    decreases s.len(),
{
    if s.len() == 0 {
        seq![s]
    } else if s.last() == ',' {
        comma_pieces(s.drop_last()).push(Seq::<char>::empty())
    } else {
        let ps = comma_pieces(s.drop_last());
        ps.update(ps.len() - 1, ps.last().push(s.last()))
    }
}

/// The nonempty trimmed pieces, in order.
pub open spec fn kept_origins(ps: Seq<Seq<char>>) -> Seq<Seq<char>>
    decreases ps.len(),
{
    if ps.len() == 0 {
        seq![]
    } else {
        let t = trim_end(trim_start(ps.last()));
        if t.len() == 0 {
            kept_origins(ps.drop_last())
        } else {
            kept_origins(ps.drop_last()).push(t)
        }
    }
}

/// `str::split(',')`, each piece copied out. The contract claims the pieces
/// are those between the commas, as std documents.
#[verifier::external_body]
fn split_commas(s: &str) -> (pieces: Vec<String>)
    ensures
        string_views(pieces@) == comma_pieces(s@),
{
    s.split(',').map(String::from).collect()
}

/// `str::trim`, copied out. The contract claims the result is the text
/// without its leading and trailing white space, as std documents.
#[verifier::external_body]
fn trim_white(s: &str) -> (t: String)
    ensures
        t@ == trim_end(trim_start(s@)),
{
    String::from(s.trim())
}

/// The origins of a comma-separated list: each piece trimmed, the empty
/// ones dropped.
pub fn origin_list(v: &str) -> (origins: Vec<String>)
    ensures
        string_views(origins@) == kept_origins(comma_pieces(v@)),
{
    let pieces = split_commas(v);
    let ghost ps = string_views(pieces@);
    let mut out: Vec<String> = Vec::new();
    let mut i: usize = 0;
    assert(ps.take(0) =~= Seq::<Seq<char>>::empty());
    while i < pieces.len()
        invariant
            i <= ps.len(),
            ps == string_views(pieces@),
            string_views(out@) == kept_origins(ps.take(i as int)),
        decreases ps.len() - i,
    {
        let ghost cur = ps.take(i + 1);
        assert(cur.drop_last() =~= ps.take(i as int));
        assert(cur.last() == pieces@[i as int]@);
        let t = trim_white(pieces[i].as_str());
        if !t.as_str().is_empty() {
            let ghost before = out@;
            out.push(t);
            assert(string_views(out@) =~= string_views(before).push(t@));
        }
        i = i + 1;
    }
    assert(ps.take(i as int) =~= ps);
    out
}

/// The port a text names, as `str::parse::<u16>` reads it.
pub open spec fn port_spec(s: Seq<u8>) -> Option<u16> {
    match parse_u64_spec(s) {
        Some(v) => if v <= 65535 {
            Some(v as u16)
        } else {
            None
        },
        None => None,
    }
}

/// Reads a port number.
pub fn parse_port(s: &str) -> (r: Option<u16>)
    ensures
        r == port_spec(utf8(s@)),
{
    match parse_u64(s.as_bytes()) {
        Some(v) => if v <= 65535 {
            Some(v as u16)
        } else {
            None
        },
        None => None,
    }
}

} // verus!
