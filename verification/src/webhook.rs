//! Webhooks: the signed POST that tells an app's endpoint about a channel
//! or presence event, `{"events":[...],"time_ms":...}` with the app's key
//! and the hex HMAC-SHA256 of the body under its secret.

use vstd::prelude::*;
use crate::bytes::{utf8, decimal, push_decimal, append_bytes};
use crate::crypto::{hmac_sha256, hex_lower, sign};
use crate::json::push_text;
use crate::state::{App, app_named, find_app};
use crate::clock::{unix_time, clock_reading, reading_millis};

verus! {

/// A webhook delivery: where to, the key header, the body and its signature.
pub struct WebhookRequest {
    pub url: String,
    pub key: String,
    pub body: Vec<u8>,
    pub signature: String,
}

/// The body of a webhook carrying one event, stamped in milliseconds.
pub open spec fn webhook_body(event: Seq<u8>, time_ms: u64) -> Seq<u8> {
    utf8("{\"events\":["@) + event + utf8("],\"time_ms\":"@) + decimal(time_ms as nat) + utf8("}"@)
}

/// `r` is the webhook delivery of `event` for the app with the given id,
/// stamped `time_ms`: none for an unknown app or one without an endpoint.
pub open spec fn is_webhook_for(apps: Seq<App>, app_id: Seq<char>, event: Seq<u8>, time_ms: u64, r: Option<WebhookRequest>) -> bool {
    match app_named(apps, app_id) {
        None => r is None,
        Some(app) => match app.webhook_url {
            None => r is None,
            Some(url) => r matches Some(w) && w.url@ == url@ && w.key@ == app.key@ && w.body@ == webhook_body(
                event,
                time_ms,
            ) && utf8(w.signature@) == hex_lower(hmac_sha256(utf8(app.secret@), w.body@)),
        },
    }
}

/// The delivery of `event` (a JSON object) for the app `app_id`, stamped
/// `time_ms`.
pub fn webhook_request_at(apps: &Vec<App>, app_id: &str, event: &[u8], time_ms: u64) -> (r: Option<WebhookRequest>)
    ensures
        is_webhook_for(apps@, app_id@, event@, time_ms, r),
{
    let app = match find_app(apps, app_id, false) {
        Some(a) => a,
        None => return None,
    };
    let url = match &app.webhook_url {
        Some(u) => u,
        None => return None,
    };
    let mut body: Vec<u8> = Vec::new();
    push_text(&mut body, "{\"events\":[");
    append_bytes(&mut body, event);
    push_text(&mut body, "],\"time_ms\":");
    push_decimal(&mut body, time_ms);
    push_text(&mut body, "}");
    assert(body@ =~= webhook_body(event@, time_ms));
    let signature = sign(app.secret.as_str().as_bytes(), body.as_slice());
    Some(WebhookRequest { url: url.clone(), key: app.key.clone(), body, signature })
}

/// Milliseconds since the epoch on the server's clock (zero before the
/// epoch), truncated to 64 bits.
fn clock_millis() -> (ms: u64)
    ensures
        exists|t: Option<(u64, u32)>| clock_reading(t) && ms == reading_millis(t),
{
    let t = unix_time();
    assert(clock_reading(t));
    match t {
        Some(t) => {
            let ms: u128 = (t.0 as u128) * 1000 + (t.1 as u128) / 1_000_000;
            ms as u64
        },
        None => 0,
    }
}

/// The delivery of `event` for the app `app_id`, stamped with the clock.
pub fn webhook_request(apps: &Vec<App>, app_id: &str, event: &[u8]) -> (r: Option<WebhookRequest>)
    ensures
        exists|t: Option<(u64, u32)>| clock_reading(t) && is_webhook_for(apps@, app_id@, event@, reading_millis(t), r),
{
    let now = clock_millis();
    webhook_request_at(apps, app_id, event, now)
}

} // verus!
