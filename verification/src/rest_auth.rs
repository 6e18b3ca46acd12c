//! The Pusher REST authentication scheme (what `pusher-php-server` signs):
//! `auth_key`, `auth_timestamp` within 600 seconds, `body_md5` for every
//! request that has a body, and `auth_signature` = hex HMAC-SHA256 of
//! `METHOD\nPATH\n<sorted query without auth_signature>`.

use vstd::prelude::*;
use crate::bytes::{utf8, parse_u64, parse_u64_spec, bytes_equal, append_bytes, lemma_utf8_injective};
use crate::crypto::{hmac_sha256, md5, hex_lower, sign, md5_hex, ct_eq_bytes};
use crate::query::{Query, lookup};
use crate::clock::{unix_time, clock_reading, reading_seconds};

verus! {

/// Why a REST request is refused.
#[derive(PartialEq, Eq, Structural, Clone, Copy, Debug)]
pub enum AuthError {
    MissingAuthKey,
    BadAuthKey,
    MissingTimestamp,
    StaleTimestamp,
    MissingBodyMd5,
    BodyMd5Mismatch,
    MissingSignature,
    SignatureMismatch,
}

/// The text the API answers a refusal with.
pub open spec fn auth_error_text(e: AuthError) -> Seq<char> {
    match e {
        AuthError::MissingAuthKey => "Missing auth_key"@,
        AuthError::BadAuthKey => "Bad auth_key"@,
        AuthError::MissingTimestamp => "Missing auth_timestamp"@,
        AuthError::StaleTimestamp => "Stale auth_timestamp"@,
        AuthError::MissingBodyMd5 => "Missing body_md5"@,
        AuthError::BodyMd5Mismatch => "body_md5 mismatch"@,
        AuthError::MissingSignature => "Missing auth_signature"@,
        AuthError::SignatureMismatch => "Signature mismatch"@,
    }
}

impl AuthError {
    /// The text the API answers with.
    pub fn message(&self) -> (text: &'static str)
        ensures
            text@ == auth_error_text(*self),
    {
        match self {
            AuthError::MissingAuthKey => "Missing auth_key",
            AuthError::BadAuthKey => "Bad auth_key",
            AuthError::MissingTimestamp => "Missing auth_timestamp",
            AuthError::StaleTimestamp => "Stale auth_timestamp",
            AuthError::MissingBodyMd5 => "Missing body_md5",
            AuthError::BodyMd5Mismatch => "body_md5 mismatch",
            AuthError::MissingSignature => "Missing auth_signature",
            AuthError::SignatureMismatch => "Signature mismatch",
        }
    }
}

/// The greatest accepted distance, in seconds, between a request's
/// `auth_timestamp` and the server's clock.
pub const TIMESTAMP_TOLERANCE_S: u64 = 600;

/// The `key=value` items that the signature covers, in key order.
pub open spec fn signed_params(q: Seq<(Seq<char>, Seq<char>)>) -> Seq<Seq<u8>>
    decreases q.len(),
{
    if q.len() == 0 {
        seq![]
    } else {
        let rest = signed_params(q.drop_last());
        if q.last().0 == "auth_signature"@ {
            rest
        } else {
            rest.push(utf8(q.last().0) + seq![61u8] + utf8(q.last().1))
        }
    }
}

/// Items joined by `&`.
pub open spec fn join_amp(p: Seq<Seq<u8>>) -> Seq<u8>
    decreases p.len(),
{
    if p.len() == 0 {
        seq![]
    } else if p.len() == 1 {
        p[0]
    } else {
        join_amp(p.drop_last()) + seq![38u8] + p.last()
    }
}

/// `METHOD\nPATH\nk1=v1&k2=v2...`, the text a request's signature covers.
pub open spec fn string_to_sign_spec(method: Seq<char>, path: Seq<char>, q: Seq<(Seq<char>, Seq<char>)>) -> Seq<u8> {
    utf8(method) + seq![10u8] + utf8(path) + seq![10u8] + join_amp(signed_params(q))
}

/// Builds the text that a request's signature covers.
pub fn string_to_sign(method: &str, path: &str, q: &Query) -> (text: Vec<u8>)
    requires
        q.wf(),
    ensures
        text@ == string_to_sign_spec(method@, path@, q@),
{
    let mut out: Vec<u8> = Vec::new();
    append_bytes(&mut out, method.as_bytes());
    out.push(10u8);
    append_bytes(&mut out, path.as_bytes());
    out.push(10u8);
    let ghost head = out@;
    assert(head =~= utf8(method@) + seq![10u8] + utf8(path@) + seq![10u8]);
    let sig_key = "auth_signature".as_bytes();
    let mut first = true;
    let mut i: usize = 0;
    assert(q@.take(0) =~= Seq::<(Seq<char>, Seq<char>)>::empty());
    while i < q.len()
        invariant
            i <= q@.len(),
            sig_key@ == utf8("auth_signature"@),
            out@ == head + join_amp(signed_params(q@.take(i as int))),
            first == (signed_params(q@.take(i as int)).len() == 0),
        decreases q@.len() - i,
    {
        let k = q.key_at(i);
        let v = q.value_at(i);
        let ghost pre = q@.take(i as int);
        let ghost cur = q@.take(i + 1);
        assert(cur.drop_last() =~= pre);
        assert(cur.last() == q@[i as int]);
        let kb = k.as_str().as_bytes();
        if bytes_equal(kb, sig_key) {
            proof {
                lemma_utf8_injective(k@, "auth_signature"@);
            }
        } else {
            let ghost item = utf8(k@) + seq![61u8] + utf8(v@);
            if !first {
                out.push(38u8);
            }
            append_bytes(&mut out, kb);
            out.push(61u8);
            append_bytes(&mut out, v.as_str().as_bytes());
            first = false;
            proof {
                let sp = signed_params(pre);
                assert(signed_params(cur) == sp.push(item));
                assert(sp.push(item).drop_last() =~= sp);
                if sp.len() == 0 {
                    assert(join_amp(sp.push(item)) == sp.push(item)[0]);
                }
                assert(out@ =~= head + join_amp(signed_params(cur)));
            }
        }
        i = i + 1;
    }
    assert(q@.take(i as int) =~= q@);
    out
}

/// The absolute difference of two clock readings.
pub open spec fn distance(a: u64, b: u64) -> nat {
    if a >= b {
        (a - b) as nat
    } else {
        (b - a) as nat
    }
}

/// The request's timestamp, when present and numeric.
pub open spec fn timestamp_of(q: Seq<(Seq<char>, Seq<char>)>) -> Option<u64> {
    match lookup(q, "auth_timestamp"@) {
        Some(t) => parse_u64_spec(utf8(t)),
        None => None,
    }
}

/// The checks made before any digest is computed.
pub open spec fn key_and_time_outcome(q: Seq<(Seq<char>, Seq<char>)>, key: Seq<char>, now: u64) -> Result<(), AuthError> {
    match lookup(q, "auth_key"@) {
        None => Err(AuthError::MissingAuthKey),
        Some(k) => if k != key {
            Err(AuthError::BadAuthKey)
        } else {
            match timestamp_of(q) {
                None => Err(AuthError::MissingTimestamp),
                Some(ts) => if distance(now, ts) > TIMESTAMP_TOLERANCE_S {
                    Err(AuthError::StaleTimestamp)
                } else {
                    Ok(())
                },
            }
        },
    }
}

/// The body check, given the hex MD5 of a nonempty body.
pub open spec fn body_outcome(q: Seq<(Seq<char>, Seq<char>)>, digest_hex: Seq<u8>) -> Result<(), AuthError> {
    match lookup(q, "body_md5"@) {
        None => Err(AuthError::MissingBodyMd5),
        Some(d) => if digest_hex != utf8(d) {
            Err(AuthError::BodyMd5Mismatch)
        } else {
            Ok(())
        },
    }
}

/// The signature check, given the expected hex signature.
pub open spec fn signature_outcome(q: Seq<(Seq<char>, Seq<char>)>, expected: Seq<u8>) -> Result<(), AuthError> {
    match lookup(q, "auth_signature"@) {
        None => Err(AuthError::MissingSignature),
        Some(p) => if utf8(p) != expected {
            Err(AuthError::SignatureMismatch)
        } else {
            Ok(())
        },
    }
}

/// The verdict on a request received at `now` (seconds since the epoch).
pub open spec fn rest_auth_outcome(
    key: Seq<char>,
    secret: Seq<char>,
    method: Seq<char>,
    path: Seq<char>,
    q: Seq<(Seq<char>, Seq<char>)>,
    body: Seq<u8>,
    now: u64,
) -> Result<(), AuthError> {
    match key_and_time_outcome(q, key, now) {
        Err(e) => Err(e),
        Ok(()) => if body.len() > 0 && body_outcome(q, hex_lower(md5(body))) is Err {
            body_outcome(q, hex_lower(md5(body)))
        } else {
            signature_outcome(
                q,
                hex_lower(hmac_sha256(utf8(secret), string_to_sign_spec(method, path, q))),
            )
        },
    }
}

/// Checks `auth_key` against the app's key and `auth_timestamp` against `now`.
pub fn check_key_and_time(q: &Query, key: &str, now: u64) -> (r: Result<(), AuthError>)
    requires
        q.wf(),
    ensures
        r == key_and_time_outcome(q@, key@, now),
{
    let auth_key = match q.get("auth_key") {
        Some(k) => k,
        None => return Err(AuthError::MissingAuthKey),
    };
    if !bytes_equal(auth_key.as_str().as_bytes(), key.as_bytes()) {
        return Err(AuthError::BadAuthKey);
    }
    proof {
        lemma_utf8_injective(auth_key@, key@);
    }
    let ts = match q.get("auth_timestamp") {
        Some(t) => match parse_u64(t.as_str().as_bytes()) {
            Some(v) => v,
            None => return Err(AuthError::MissingTimestamp),
        },
        None => return Err(AuthError::MissingTimestamp),
    };
    let d = if now >= ts {
        now - ts
    } else {
        ts - now
    };
    if d > TIMESTAMP_TOLERANCE_S {
        return Err(AuthError::StaleTimestamp);
    }
    Ok(())
}

/// Checks `body_md5` against the hex MD5 of a nonempty body.
pub fn check_body_digest(q: &Query, digest_hex: &[u8]) -> (r: Result<(), AuthError>)
    requires
        q.wf(),
    ensures
        r == body_outcome(q@, digest_hex@),
{
    let expected = match q.get("body_md5") {
        Some(d) => d,
        None => return Err(AuthError::MissingBodyMd5),
    };
    if !ct_eq_bytes(digest_hex, expected.as_str().as_bytes()) {
        return Err(AuthError::BodyMd5Mismatch);
    }
    Ok(())
}

/// Checks `auth_signature` against the expected hex signature.
pub fn check_signature(q: &Query, expected: &[u8]) -> (r: Result<(), AuthError>)
    requires
        q.wf(),
    ensures
        r == signature_outcome(q@, expected@),
{
    let provided = match q.get("auth_signature") {
        Some(p) => p,
        None => return Err(AuthError::MissingSignature),
    };
    if !ct_eq_bytes(provided.as_str().as_bytes(), expected) {
        return Err(AuthError::SignatureMismatch);
    }
    Ok(())
}

/// Verifies a REST request received at `now` (seconds since the epoch). The
/// digests are computed only once the cheaper checks have passed.
pub fn verify_at(
    key: &str,
    secret: &str,
    method: &str,
    path: &str,
    q: &Query,
    body: &[u8],
    now: u64,
) -> (r: Result<(), AuthError>)
    requires
        q.wf(),
    ensures
        r == rest_auth_outcome(key@, secret@, method@, path@, q@, body@, now),
        r is Ok ==> (lookup(q@, "auth_signature"@) matches Some(sig) && utf8(sig).len() == 64),
{
    let pre = check_key_and_time(q, key, now);
    if pre.is_err() {
        return pre;
    }
    if body.len() > 0 {
        let digest = md5_hex(body);
        let b = check_body_digest(q, digest.as_str().as_bytes());
        if b.is_err() {
            return b;
        }
    }
    let sts = string_to_sign(method, path, q);
    let expected = sign(secret.as_bytes(), sts.as_slice());
    check_signature(q, expected.as_str().as_bytes())
}

/// Verifies a REST request against the server's clock (zero when the clock
/// reads before the epoch).
pub fn verify(key: &str, secret: &str, method: &str, path: &str, q: &Query, body: &[u8]) -> (r: Result<(), AuthError>)
    requires
        q.wf(),
    ensures
        exists|t: Option<(u64, u32)>| clock_reading(t) && r == rest_auth_outcome(key@, secret@, method@, path@, q@, body@, reading_seconds(t)),
{
    let t = unix_time();
    let now = match t {
        Some(r) => r.0,
        None => 0,
    };
    assert(clock_reading(t) && now == reading_seconds(t));
    verify_at(key, secret, method, path, q, body, now)
}

} // verus!
