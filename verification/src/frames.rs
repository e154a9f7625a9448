//! Outbound protocol frames: UTF-8 JSON texts built byte by byte, with JSON
//! string escaping and decimal number rendering specified exactly.

use vstd::prelude::*;
use vstd::string::StringSliceAdditionalSpecFns;

verus! {

/// The lower-case hex digit byte for a nibble.
pub open spec fn hex_digit_byte(n: u8) -> u8 {
    if n < 10 {
        (48 + n) as u8
    } else {
        (87 + n) as u8
    }
}

/// How one byte of a JSON string is written: quote and backslash get a
/// backslash, control bytes become `\u00XX`, everything else stands as it
/// is. Multi-byte UTF-8 sequences only hold bytes over 0x7f, so escaping
/// byte by byte is sound.
pub open spec fn esc_byte(b: u8) -> Seq<u8> {
    if b == 34 {
        seq![92u8, 34u8]
    } else if b == 92 {
        seq![92u8, 92u8]
    } else if b < 32 {
        seq![92u8, 117u8, 48u8, 48u8, hex_digit_byte(b / 16), hex_digit_byte(b % 16)]
    } else {
        seq![b]
    }
}

/// The JSON escaping of a byte string.
pub open spec fn json_escape(s: Seq<u8>) -> Seq<u8>
    decreases s.len(),
{
    if s.len() == 0 {
        Seq::empty()
    } else {
        json_escape(s.drop_last()) + esc_byte(s.last())
    }
}

/// A byte string as a JSON string literal: quoted and escaped.
pub open spec fn json_str(s: Seq<u8>) -> Seq<u8> {
    seq![34u8] + json_escape(s) + seq![34u8]
}

/// The decimal writing of a number.
pub open spec fn dec_of(n: nat) -> Seq<u8>
    decreases n,
{
    if n < 10 {
        seq![(48 + n) as u8]
    } else {
        dec_of(n / 10) + seq![(48 + n % 10) as u8]
    }
}

pub fn push_escaped_byte(out: &mut Vec<u8>, b: u8)
    ensures
        final(out)@ == old(out)@ + esc_byte(b),
{
    if b == 34 {
        out.push(92);
        out.push(34);
    } else if b == 92 {
        out.push(92);
        out.push(92);
    } else if b < 32 {
        out.push(92);
        out.push(117);
        out.push(48);
        out.push(48);
        let hi = b / 16;
        let lo = b % 16;
        out.push(if hi < 10 { 48 + hi } else { 87 + hi });
        out.push(if lo < 10 { 48 + lo } else { 87 + lo });
    } else {
        out.push(b);
    }
    proof {
        assert(out@ =~= old(out)@ + esc_byte(b));
    }
}

/// Append the bytes `bytes` as a JSON string literal (quotes and escapes
/// included).
pub fn push_json_bytes(out: &mut Vec<u8>, bytes: &[u8])
    ensures
        final(out)@ == old(out)@ + json_str(bytes@),
{
    let n = bytes.len();
    out.push(34);
    let mut i: usize = 0;
    while i < n
        invariant
            i <= n,
            n == bytes@.len(),
            out@ == old(out)@ + seq![34u8] + json_escape(bytes@.subrange(0, i as int)),
        decreases n - i,
    {
        let ghost pre = bytes@.subrange(0, i as int);
        push_escaped_byte(out, bytes[i]);
        proof {
            assert(bytes@.subrange(0, i + 1).drop_last() =~= pre);
            assert(json_escape(bytes@.subrange(0, i + 1)) =~= json_escape(pre) + esc_byte(
                bytes@[i as int],
            ));
            assert(out@ =~= old(out)@ + seq![34u8] + json_escape(bytes@.subrange(0, i + 1)));
        }
        i = i + 1;
    }
    out.push(34);
    proof {
        assert(bytes@.subrange(0, n as int) =~= bytes@);
        assert(out@ =~= old(out)@ + json_str(bytes@));
    }
}

/// Append `s` as a JSON string literal.
pub fn push_json_str(out: &mut Vec<u8>, s: &str)
    ensures
        final(out)@ == old(out)@ + json_str(s.spec_bytes()),
{
    push_json_bytes(out, s.as_bytes());
}

/// Append the decimal writing of `n`.
pub fn push_dec(out: &mut Vec<u8>, n: u64)
    ensures
        final(out)@ == old(out)@ + dec_of(n as nat),
    decreases n,
{
    if n < 10 {
        out.push(48 + n as u8);
        proof {
            assert(out@ =~= old(out)@ + dec_of(n as nat));
        }
    } else {
        push_dec(out, n / 10);
        out.push(48 + (n % 10) as u8);
        proof {
            assert(out@ =~= old(out)@ + dec_of(n as nat));
        }
    }
}

pub fn push_lit(out: &mut Vec<u8>, lit: &str)
    ensures
        final(out)@ == old(out)@ + lit.spec_bytes(),
{
    let bytes = lit.as_bytes();
    let n = bytes.len();
    let mut i: usize = 0;
    while i < n
        invariant
            i <= n,
            n == bytes@.len(),
            bytes@ == lit.spec_bytes(),
            out@ == old(out)@ + bytes@.subrange(0, i as int),
        decreases n - i,
    {
        out.push(bytes[i]);
        proof {
            assert(out@ =~= old(out)@ + bytes@.subrange(0, i + 1));
        }
        i = i + 1;
    }
    proof {
        assert(bytes@.subrange(0, n as int) =~= bytes@);
    }
}

/// The frame `{"event":<event>,"data":<data>}`, both as JSON strings.
pub open spec fn spec_event_frame(event: Seq<u8>, data: Seq<u8>) -> Seq<u8> {
    ("{\"event\":").spec_bytes() + json_str(event) + (",\"data\":").spec_bytes() + json_str(data)
        + ("}").spec_bytes()
}

/// The frame `{"event":<event>,"channel":<channel>,"data":<data>}`.
pub open spec fn spec_channel_event_frame(
    event: Seq<u8>,
    channel: Seq<u8>,
    data: Seq<u8>,
) -> Seq<u8> {
    ("{\"event\":").spec_bytes() + json_str(event) + (",\"channel\":").spec_bytes() + json_str(
        channel,
    ) + (",\"data\":").spec_bytes() + json_str(data) + ("}").spec_bytes()
}

/// The inner JSON an error frame's data string carries: the code as a
/// number, then the message.
pub open spec fn spec_error_data(code: nat, message: Seq<u8>) -> Seq<u8> {
    ("{\"code\":").spec_bytes() + dec_of(code) + (",\"message\":").spec_bytes() + json_str(
        message,
    ) + ("}").spec_bytes()
}

/// The `pusher:error` frame: the data field is the inner JSON as a string.
pub open spec fn spec_error_frame(code: nat, message: Seq<u8>) -> Seq<u8> {
    spec_event_frame(("pusher:error").spec_bytes(), spec_error_data(code, message))
}

/// Build `{"event":<event>,"data":<data>}`, the data bytes carried as a
/// JSON string.
pub fn event_frame(event: &str, data: &[u8]) -> (r: Vec<u8>)
    ensures
        r@ == spec_event_frame(event.spec_bytes(), data@),
{
    let mut out: Vec<u8> = Vec::new();
    push_lit(&mut out, "{\"event\":");
    push_json_str(&mut out, event);
    push_lit(&mut out, ",\"data\":");
    push_json_bytes(&mut out, data);
    push_lit(&mut out, "}");
    proof {
        assert(out@ =~= spec_event_frame(event.spec_bytes(), data@));
    }
    out
}

/// Build the `pusher:error` frame for a protocol code and message.
pub fn error_frame(code: u64, message: &str) -> (r: Vec<u8>)
    ensures
        r@ == spec_error_frame(code as nat, message.spec_bytes()),
{
    let mut inner: Vec<u8> = Vec::new();
    push_lit(&mut inner, "{\"code\":");
    push_dec(&mut inner, code);
    push_lit(&mut inner, ",\"message\":");
    push_json_str(&mut inner, message);
    push_lit(&mut inner, "}");
    proof {
        assert(inner@ =~= spec_error_data(code as nat, message.spec_bytes()));
    }
    event_frame("pusher:error", inner.as_slice())
}

/// Build `{"event":<event>,"channel":<channel>,"data":<data>}`, the data
/// bytes carried as a JSON string.
pub fn channel_event_frame(event: &str, channel: &str, data: &[u8]) -> (r: Vec<u8>)
    ensures
        r@ == spec_channel_event_frame(event.spec_bytes(), channel.spec_bytes(), data@),
{
    let mut out: Vec<u8> = Vec::new();
    push_lit(&mut out, "{\"event\":");
    push_json_str(&mut out, event);
    push_lit(&mut out, ",\"channel\":");
    push_json_str(&mut out, channel);
    push_lit(&mut out, ",\"data\":");
    push_json_bytes(&mut out, data);
    push_lit(&mut out, "}");
    proof {
        assert(out@ =~= spec_channel_event_frame(
            event.spec_bytes(),
            channel.spec_bytes(),
            data@,
        ));
    }
    out
}

} // verus!
