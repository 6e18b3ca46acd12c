//! Private and presence channel authorization: the client presents
//! `auth = "{key}:{hex signature}"`, where the signature is HMAC-SHA256 under
//! the app secret of `socket_id:channel` (presence: `socket_id:channel:channel_data`).

use vstd::prelude::*;
use crate::bytes::{utf8, str_opt, first_index, find_byte, bytes_equal, append_bytes};
use crate::crypto::{hmac_sha256, hex_lower, sign, ct_eq_bytes};
use crate::state::App;

verus! {

/// The text a channel authorization signs.
pub open spec fn channel_sign_input(socket_id: Seq<char>, channel: Seq<char>, channel_data: Option<Seq<char>>) -> Seq<u8> {
    match channel_data {
        Some(cd) => utf8(socket_id) + seq![58u8] + utf8(channel) + seq![58u8] + utf8(cd),
        None => utf8(socket_id) + seq![58u8] + utf8(channel),
    }
}

/// An `auth` value split at its first `:` into key and signature.
pub open spec fn auth_parts(auth: Seq<u8>) -> Option<(Seq<u8>, Seq<u8>)> {
    match first_index(auth, 58u8) {
        Some(i) => Some((auth.take(i), auth.skip(i + 1))),
        None => None,
    }
}

/// Whether `auth` names the app's key and carries the expected signature.
pub open spec fn auth_matches(app_key: Seq<char>, auth: Option<Seq<char>>, expected: Seq<u8>) -> bool {
    match auth {
        None => false,
        Some(a) => match auth_parts(utf8(a)) {
            None => false,
            Some(parts) => parts.0 == utf8(app_key) && parts.1 == expected,
        },
    }
}

/// Whether a subscription is authorized for the app.
pub open spec fn channel_auth_valid(
    app_key: Seq<char>,
    app_secret: Seq<char>,
    socket_id: Seq<char>,
    channel: Seq<char>,
    auth: Option<Seq<char>>,
    channel_data: Option<Seq<char>>,
) -> bool {
    auth_matches(
        app_key,
        auth,
        hex_lower(hmac_sha256(utf8(app_secret), channel_sign_input(socket_id, channel, channel_data))),
    )
}

/// Splits an `auth` value at its first colon.
fn split_auth(a: &str) -> (r: Option<(&[u8], &[u8])>)
    ensures
        match r {
            Some(p) => auth_parts(utf8(a@)) == Some((p.0@, p.1@)),
            None => auth_parts(utf8(a@)) is None,
        },
{
    let b = a.as_bytes();
    match find_byte(b, 58u8) {
        Some(i) => {
            let k = vstd::slice::slice_subrange(b, 0, i);
            let p = vstd::slice::slice_subrange(b, i + 1, b.len());
            assert(k@ =~= b@.take(i as int));
            assert(p@ =~= b@.skip(i + 1));
            Some((k, p))
        },
        None => None,
    }
}

/// Whether `auth` names `app_key` (the check made before any signing).
fn auth_names_key(app_key: &str, auth: Option<&str>) -> (r: bool)
    ensures
        r == match auth {
            None => false,
            Some(a) => match auth_parts(utf8(a@)) {
                None => false,
                Some(parts) => parts.0 == utf8(app_key@),
            },
        },
{
    match auth {
        None => false,
        Some(a) => match split_auth(a) {
            None => false,
            Some(p) => bytes_equal(p.0, app_key.as_bytes()),
        },
    }
}

/// Checks `auth` against the app's key and an expected hex signature; the
/// signature is compared in constant time.
pub fn check_channel_auth(app_key: &str, auth: Option<&str>, expected: &[u8]) -> (r: bool)
    ensures
        r == auth_matches(app_key@, str_opt(auth), expected@),
{
    match auth {
        None => false,
        Some(a) => match split_auth(a) {
            None => false,
            Some(p) => {
                if !bytes_equal(p.0, app_key.as_bytes()) {
                    return false;
                }
                ct_eq_bytes(p.1, expected)
            },
        },
    }
}

/// Builds the text a channel authorization signs.
pub fn channel_signing_input(socket_id: &str, channel: &str, channel_data: Option<&str>) -> (t: Vec<u8>)
    ensures
        t@ == channel_sign_input(socket_id@, channel@, str_opt(channel_data)),
{
    let mut t: Vec<u8> = Vec::new();
    append_bytes(&mut t, socket_id.as_bytes());
    t.push(58u8);
    append_bytes(&mut t, channel.as_bytes());
    match channel_data {
        Some(cd) => {
            t.push(58u8);
            append_bytes(&mut t, cd.as_bytes());
        },
        None => {},
    }
    assert(t@ =~= channel_sign_input(socket_id@, channel@, str_opt(channel_data)));
    t
}

/// Verifies a subscription's `auth` for the app. No signature is computed
/// unless `auth` names the app's key.
pub fn auth_ok(app: &App, socket_id: &str, channel: &str, auth: Option<&str>, channel_data: Option<&str>) -> (r: bool)
    ensures
        r == channel_auth_valid(
            app.key@,
            app.secret@,
            socket_id@,
            channel@,
            str_opt(auth),
            str_opt(channel_data),
        ),
        r ==> (auth matches Some(a) && auth_parts(utf8(a@)) matches Some(p) && p.0 == utf8(app.key@) && p.1.len()
            == 64),
{
    if !auth_names_key(app.key.as_str(), auth) {
        return false;
    }
    let to_sign = channel_signing_input(socket_id, channel, channel_data);
    let expected = sign(app.secret.as_str().as_bytes(), to_sign.as_slice());
    check_channel_auth(app.key.as_str(), auth, expected.as_str().as_bytes())
}

} // verus!
