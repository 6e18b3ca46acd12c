//! Hashing, message authentication and their hexadecimal rendering.
//!
//! HMAC-SHA256 and MD5 come from the `hmac`/`sha2` and `md-5` crates, the hex
//! rendering from `hex`, the constant-time comparison from `subtle`; each is
//! reached through one small trusted wrapper below.

use vstd::prelude::*;
use crate::bytes::utf8;
use hmac::Mac;
use md5::Digest;
use subtle::ConstantTimeEq;

verus! {

/// HMAC-SHA256 (RFC 2104 over FIPS 180-4 SHA-256) of `msg` under `key`.
pub uninterp spec fn hmac_sha256(key: Seq<u8>, msg: Seq<u8>) -> Seq<u8>;

/// The MD5 digest (RFC 1321) of `data`.
pub uninterp spec fn md5(data: Seq<u8>) -> Seq<u8>;

/// Lower-case hexadecimal digit for a value below sixteen.
pub open spec fn hex_digit(v: nat) -> u8 {
    if v < 10 {
        (48 + v) as u8
    } else {
        (87 + v) as u8
    }
}

/// Lower-case hexadecimal rendering, two digits per byte, high nibble first.
pub open spec fn hex_lower(data: Seq<u8>) -> Seq<u8>
    decreases data.len(),
{
    if data.len() == 0 {
        seq![]
    } else {
        hex_lower(data.drop_last()) + seq![
            hex_digit((data.last() / 16) as nat),
            hex_digit((data.last() % 16) as nat),
        ]
    }
}

/// Hex rendering takes two digits per byte.
pub proof fn lemma_hex_lower_len(data: Seq<u8>)
    ensures
        hex_lower(data).len() == 2 * data.len(),
    decreases data.len(),
{
    if data.len() > 0 {
        lemma_hex_lower_len(data.drop_last());
    }
}

/// Computes HMAC-SHA256 with `hmac::Hmac<sha2::Sha256>`: `new_from_slice`,
/// `update`, `finalize`. The contract claims the 32-byte tag is the named
/// `hmac_sha256` of key and message. `new_from_slice` accepts keys of any
/// length for HMAC, so its error arm is never taken.
#[verifier::external_body]
fn hmac_sha256_tag(key: &[u8], msg: &[u8]) -> (tag: Vec<u8>)
    ensures
        tag@ == hmac_sha256(key@, msg@),
        tag@.len() == 32,
{
    match hmac::Hmac::<sha2::Sha256>::new_from_slice(key) {
        Ok(mut mac) => {
            mac.update(msg);
            mac.finalize().into_bytes().to_vec()
        },
        Err(_) => Vec::new(),
    }
}

/// Computes MD5 with `md5::Md5::digest`. The contract claims the 16-byte
/// digest is the named `md5` of the input.
#[verifier::external_body]
fn md5_digest(data: &[u8]) -> (digest: Vec<u8>)
    ensures
        digest@ == md5(data@),
        digest@.len() == 16,
{
    md5::Md5::digest(data).to_vec()
}

/// Renders bytes with `hex::encode`, which writes two lower-case digits per
/// byte from the table `0123456789abcdef`. The contract claims the UTF-8
/// bytes of the result are `hex_lower` of the input.
#[verifier::external_body]
fn hex_encode(data: &[u8]) -> (text: String)
    ensures
        utf8(text@) == hex_lower(data@),
{
    hex::encode(data)
}

/// Compares two byte slices with `subtle::ConstantTimeEq::ct_eq`, which
/// yields 1 exactly when the lengths and all bytes agree. The contract
/// claims the boolean is that equality.
#[verifier::external_body]
pub(crate) fn ct_eq_bytes(a: &[u8], b: &[u8]) -> (same: bool)
    ensures
        same == (a@ == b@),
{
    a.ct_eq(b).into()
}

/// Lower-case hex HMAC-SHA256 of `msg` under `secret`: the signature of both
/// the REST API and channel authorization.
pub fn sign(secret: &[u8], msg: &[u8]) -> (signature: String)
    ensures
        utf8(signature@) == hex_lower(hmac_sha256(secret@, msg@)),
        utf8(signature@).len() == 64,
{
    let tag = hmac_sha256_tag(secret, msg);
    proof {
        lemma_hex_lower_len(tag@);
    }
    hex_encode(tag.as_slice())
}

/// Lower-case hex MD5 of `data`, as a REST request's `body_md5` carries it.
pub fn md5_hex(data: &[u8]) -> (digest: String)
    ensures
        utf8(digest@) == hex_lower(md5(data@)),
        utf8(digest@).len() == 32,
{
    let d = md5_digest(data);
    proof {
        lemma_hex_lower_len(d@);
    }
    hex_encode(d.as_slice())
}

} // verus!
