//! JSON text the server writes: string literals with the escapes serde_json
//! uses, and the Pusher frames (`{"channel":..,"data":..,"event":..}`, whose
//! `data` is itself a JSON document carried as a string).

use vstd::prelude::*;
use crate::bytes::{utf8, append_bytes, push_decimal, decimal};
use crate::crypto::hex_digit;

verus! {

/// How one byte is written inside a JSON string: `"` and `\` are escaped,
/// the control characters get their short escape or `\u00XX` with lower-case
/// hex, everything else (including every byte of a multi-byte character) is
/// copied.
pub open spec fn escape_byte(b: u8) -> Seq<u8> {
    if b == 34 {
        seq![92u8, 34u8]
    } else if b == 92 {
        seq![92u8, 92u8]
    } else if b == 8 {
        seq![92u8, 98u8]
    } else if b == 12 {
        seq![92u8, 102u8]
    } else if b == 10 {
        seq![92u8, 110u8]
    } else if b == 13 {
        seq![92u8, 114u8]
    } else if b == 9 {
        seq![92u8, 116u8]
    } else if b < 32 {
        seq![92u8, 117u8, 48u8, 48u8, hex_digit((b / 16) as nat), hex_digit((b % 16) as nat)]
    } else {
        seq![b]
    }
}

/// The escaped body of a JSON string.
pub open spec fn escaped(s: Seq<u8>) -> Seq<u8>
    decreases s.len(),
{
    if s.len() == 0 {
        seq![]
    } else {
        escaped(s.drop_last()) + escape_byte(s.last())
    }
}

/// A JSON string literal holding the text `s`.
pub open spec fn json_str(s: Seq<u8>) -> Seq<u8> {
    seq![34u8] + escaped(s) + seq![34u8]
}

fn push_escaped_byte(out: &mut Vec<u8>, b: u8)
    ensures
        final(out)@ == old(out)@ + escape_byte(b),
{
    let ghost start = out@;
    if b == 34 {
        out.push(92u8);
        out.push(34u8);
    } else if b == 92 {
        out.push(92u8);
        out.push(92u8);
    } else if b == 8 {
        out.push(92u8);
        out.push(98u8);
    } else if b == 12 {
        out.push(92u8);
        out.push(102u8);
    } else if b == 10 {
        out.push(92u8);
        out.push(110u8);
    } else if b == 13 {
        out.push(92u8);
        out.push(114u8);
    } else if b == 9 {
        out.push(92u8);
        out.push(116u8);
    } else if b < 32 {
        let hi = b / 16;
        let lo = b % 16;
        out.push(92u8);
        out.push(117u8);
        out.push(48u8);
        out.push(48u8);
        out.push(48u8 + hi);
        if lo < 10 {
            out.push(48u8 + lo);
        } else {
            out.push(87u8 + lo);
        }
    } else {
        out.push(b);
    }
    assert(out@ =~= start + escape_byte(b));
}

/// Appends `s` as a JSON string literal.
pub fn push_json_str(out: &mut Vec<u8>, s: &[u8])
    ensures
        final(out)@ == old(out)@ + json_str(s@),
{
    let ghost start = out@;
    out.push(34u8);
    let mut i: usize = 0;
    assert(s@.take(0) =~= Seq::<u8>::empty());
    while i < s.len()
        invariant
            i <= s.len(),
            out@ == start + seq![34u8] + escaped(s@.take(i as int)),
        decreases s.len() - i,
    {
        push_escaped_byte(out, s[i]);
        assert(s@.take(i + 1).drop_last() =~= s@.take(i as int));
        assert(out@ =~= start + seq![34u8] + escaped(s@.take(i + 1)));
        i = i + 1;
    }
    assert(s@.take(i as int) =~= s@);
    out.push(34u8);
    assert(out@ =~= start + json_str(s@));
}

/// Appends the UTF-8 bytes of a fixed piece of text.
pub fn push_text(out: &mut Vec<u8>, text: &str)
    ensures
        final(out)@ == old(out)@ + utf8(text@),
{
    append_bytes(out, text.as_bytes());
}

/// A Pusher frame: the event name, the channel when there is one, and the
/// `data` document double-encoded as a JSON string (members in key order).
pub open spec fn frame_spec(event: Seq<u8>, channel: Option<Seq<u8>>, data: Seq<u8>) -> Seq<u8> {
    match channel {
        Some(c) => utf8("{\"channel\":"@) + json_str(c) + utf8(",\"data\":"@) + json_str(data) + utf8(
            ",\"event\":"@,
        ) + json_str(event) + utf8("}"@),
        None => utf8("{\"data\":"@) + json_str(data) + utf8(",\"event\":"@) + json_str(event) + utf8("}"@),
    }
}

/// Builds an outer Pusher frame. `data` is embedded as a JSON-encoded string
/// (Pusher's double encoding: a bare object breaks clients).
pub fn frame(event: &str, channel: Option<&str>, data: &[u8]) -> (f: Vec<u8>)
    ensures
        f@ == frame_spec(
            utf8(event@),
            match channel {
                Some(c) => Some(utf8(c@)),
                None => None,
            },
            data@,
        ),
{
    let mut out: Vec<u8> = Vec::new();
    match channel {
        Some(c) => {
            push_text(&mut out, "{\"channel\":");
            push_json_str(&mut out, c.as_bytes());
            push_text(&mut out, ",\"data\":");
        },
        None => {
            push_text(&mut out, "{\"data\":");
        },
    }
    push_json_str(&mut out, data);
    push_text(&mut out, ",\"event\":");
    push_json_str(&mut out, event.as_bytes());
    push_text(&mut out, "}");
    assert(out@ =~= frame_spec(
        utf8(event@),
        match channel {
            Some(c) => Some(utf8(c@)),
            None => None,
        },
        data@,
    ));
    out
}

/// The `data` document of a `pusher:error` frame.
pub open spec fn error_data(code: u16, message: Seq<u8>) -> Seq<u8> {
    utf8("{\"code\":"@) + decimal(code as nat) + utf8(",\"message\":"@) + json_str(message) + utf8("}"@)
}

/// A `pusher:error` frame with a protocol error code and message.
pub fn error_frame(code: u16, message: &str) -> (f: Vec<u8>)
    ensures
        f@ == frame_spec(utf8("pusher:error"@), None, error_data(code, utf8(message@))),
{
    let mut data: Vec<u8> = Vec::new();
    push_text(&mut data, "{\"code\":");
    push_decimal(&mut data, code as u64);
    push_text(&mut data, ",\"message\":");
    push_json_str(&mut data, message.as_bytes());
    push_text(&mut data, "}");
    assert(data@ =~= error_data(code, utf8(message@)));
    frame("pusher:error", None, data.as_slice())
}

} // verus!
