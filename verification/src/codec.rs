//! The wire codec: length-delimited frames around JSON-encoded envelopes.
//!
//! Every frame is a 4-byte big-endian length prefix followed by a JSON
//! object with exactly two fields, `magic` and `msg`. The encoder emits
//! one canonical byte form per message, described exactly by
//! [`envelope_bytes`]; the decoder accepts exactly that form.
//!
//! Strings on the wire are ASCII without quotes, backslashes or control
//! characters; identifiers and signatures render as multibase-Base58Btc,
//! git object identifiers as lowercase hex.
//!
//! The decoder's verified guarantee is one-sided: whatever it accepts
//! was byte-for-byte the canonical form, because every parse is checked
//! by re-encoding. That it also accepts every canonical form rests on
//! the parser itself and is exercised by the round-trip tests, not
//! proved.

use vstd::prelude::*;
use vstd::string::StringSliceAdditionalSpecFns;

use crate::identity::{b58_of, Oid, ProjId, PublicKey};
use crate::message::{Addr, Message, RefEntry, Signature};

verus! {

/// Frames longer than this many payload bytes are rejected.
pub const MAX_FRAME: usize = 65536;

/// The decimal digits of a number, most significant first.
pub open spec fn dec_u64(n: u64) -> Seq<u8>
    decreases n,
{
    if n < 10 {
        seq![(0x30 + n) as u8]
    } else {
        dec_u64(n / 10).push((0x30 + n % 10) as u8)
    }
}

/// The UTF-8 bytes of a character string.
pub open spec fn str_utf8(s: Seq<char>) -> Seq<u8> {
    vstd::utf8::encode_utf8(s)
}

/// A JSON string holding the multibase-Base58Btc rendering of bytes.
pub open spec fn quoted_b58(b: Seq<u8>) -> Seq<u8> {
    seq![0x22u8] + str_utf8(b58_of(b)) + seq![0x22u8]
}

/// A JSON array of identifiers, each a quoted Base58Btc string.
pub open spec fn ids_bytes(v: Seq<ProjId>) -> Seq<u8>
    decreases v.len(),
{
    if v.len() == 0 {
        Seq::empty()
    } else if v.len() == 1 {
        quoted_b58(v[0]@)
    } else {
        ids_bytes(v.drop_last()) + seq![0x2cu8] + quoted_b58(v.last()@)
    }
}

/// The text form of an address: dotted quad, a colon, and the port.
pub open spec fn addr_bytes(a: Addr) -> Seq<u8> {
    dec_u64((a.ip / 16777216) as u64) + seq![0x2eu8] + dec_u64(((a.ip / 65536) % 256) as u64)
        + seq![0x2eu8] + dec_u64(((a.ip / 256) % 256) as u64) + seq![0x2eu8] + dec_u64(
        (a.ip % 256) as u64,
    ) + seq![0x3au8] + dec_u64(a.port as u64)
}

/// A JSON array of addresses, each quoted.
pub open spec fn addrs_bytes(v: Seq<Addr>) -> Seq<u8>
    decreases v.len(),
{
    if v.len() == 0 {
        Seq::empty()
    } else if v.len() == 1 {
        seq![0x22u8] + addr_bytes(v[0]) + seq![0x22u8]
    } else {
        addrs_bytes(v.drop_last()) + seq![0x2cu8, 0x22u8] + addr_bytes(v.last()) + seq![0x22u8]
    }
}

/// One lowercase hex digit.
pub open spec fn hex_digit(n: u8) -> u8 {
    if n < 10 {
        (0x30 + n) as u8
    } else {
        (0x57 + n) as u8
    }
}

/// The lowercase hex rendering of bytes.
pub open spec fn hex_bytes(b: Seq<u8>) -> Seq<u8>
    decreases b.len(),
{
    if b.len() == 0 {
        Seq::empty()
    } else {
        hex_bytes(b.drop_last()) + seq![hex_digit(b.last() / 16), hex_digit(b.last() % 16)]
    }
}

/// A JSON object of reference names and hex object identifiers.
pub open spec fn refs_bytes(v: Seq<RefEntry>) -> Seq<u8>
    decreases v.len(),
{
    if v.len() == 0 {
        Seq::empty()
    } else if v.len() == 1 {
        seq![0x22u8] + str_utf8(v[0].name@) + seq![0x22u8, 0x3au8, 0x22u8] + hex_bytes(v[0].oid@)
            + seq![0x22u8]
    } else {
        refs_bytes(v.drop_last()) + seq![0x2cu8, 0x22u8] + str_utf8(v.last().name@) + seq![
            0x22u8,
            0x3au8,
            0x22u8,
        ] + hex_bytes(v.last().oid@) + seq![0x22u8]
    }
}

/// The canonical byte form of a message.
pub open spec fn message_bytes(m: Message) -> Seq<u8> {
    match m {
        Message::Hello { id, timestamp, addrs, git_url, version, signature } => "{\"type\":\"hello\",\"id\":".spec_bytes()
            + quoted_b58(id@) + ",\"timestamp\":".spec_bytes() + dec_u64(timestamp)
            + ",\"addrs\":[".spec_bytes() + addrs_bytes(addrs@) + "],\"git_url\":\"".spec_bytes()
            + str_utf8(git_url@) + "\",\"version\":".spec_bytes() + dec_u64(version as u64)
            + ",\"signature\":".spec_bytes() + quoted_b58(signature@) + "}".spec_bytes(),
        Message::GetInventory { ids } => "{\"type\":\"get-inventory\",\"ids\":[".spec_bytes()
            + ids_bytes(ids@) + "]}".spec_bytes(),
        Message::Inventory { timestamp, inv, origin } => "{\"type\":\"inventory\",\"timestamp\":".spec_bytes()
            + dec_u64(timestamp) + ",\"inv\":[".spec_bytes() + ids_bytes(inv@)
            + "],\"origin\":".spec_bytes() + (match origin {
            Some(p) => quoted_b58(p@),
            None => "null".spec_bytes(),
        }) + "}".spec_bytes(),
        Message::GetRefs { proj } => "{\"type\":\"get-refs\",\"proj\":".spec_bytes() + quoted_b58(
            proj@,
        ) + "}".spec_bytes(),
        Message::Refs { proj, refs, signature } => "{\"type\":\"refs\",\"proj\":".spec_bytes()
            + quoted_b58(proj@) + ",\"refs\":{".spec_bytes() + refs_bytes(refs@)
            + "},\"signature\":".spec_bytes() + quoted_b58(signature@) + "}".spec_bytes(),
        Message::Ping { nonce } => "{\"type\":\"ping\",\"nonce\":".spec_bytes() + dec_u64(nonce)
            + "}".spec_bytes(),
        Message::Pong { nonce } => "{\"type\":\"pong\",\"nonce\":".spec_bytes() + dec_u64(nonce)
            + "}".spec_bytes(),
        Message::Disconnect { reason } => "{\"type\":\"disconnect\",\"reason\":\"".spec_bytes()
            + str_utf8(reason@) + "\"}".spec_bytes(),
    }
}

/// The canonical byte form of an envelope.
pub open spec fn envelope_bytes(magic: u32, m: Message) -> Seq<u8> {
    "{\"magic\":".spec_bytes() + dec_u64(magic as u64) + ",\"msg\":".spec_bytes() + message_bytes(
        m,
    ) + "}".spec_bytes()
}

/// The 4-byte big-endian form of a length.
pub open spec fn be32(n: u32) -> Seq<u8> {
    seq![
        (n / 16777216) as u8,
        ((n / 65536) % 256) as u8,
        ((n / 256) % 256) as u8,
        (n % 256) as u8,
    ]
}

/// A complete frame: length prefix, then the envelope.
pub open spec fn frame_bytes(magic: u32, m: Message) -> Seq<u8> {
    be32(envelope_bytes(magic, m).len() as u32) + envelope_bytes(magic, m)
}

/// The length a 4-byte big-endian prefix announces.
pub open spec fn be32_val(b: Seq<u8>) -> int {
    b[0] * 16777216 + b[1] * 65536 + b[2] * 256 + b[3]
}

/// Whether the buffer begins with a complete frame within the size
/// bound: enough bytes for the announced, bounded length.
pub open spec fn has_complete_frame(b: Seq<u8>) -> bool {
    b.len() >= 4 && be32_val(b) <= MAX_FRAME && b.len() >= 4 + be32_val(b)
}

/// The concatenated frames of a sequence of envelopes, in order.
pub open spec fn frames_bytes(v: Seq<Envelope>) -> Seq<u8>
    decreases v.len(),
{
    if v.len() == 0 {
        Seq::empty()
    } else {
        frame_bytes(v[0].magic, v[0].msg) + frames_bytes(v.drop_first())
    }
}

/// Appending an envelope appends its frame's bytes.
pub proof fn lemma_frames_bytes_push(v: Seq<Envelope>, e: Envelope)
    ensures
        frames_bytes(v.push(e)) == frames_bytes(v) + frame_bytes(e.magic, e.msg),
    decreases v.len(),
{
    if v.len() == 0 {
        assert(v.push(e)[0] == e);
        assert(v.push(e).drop_first() =~= Seq::<Envelope>::empty());
        assert(frames_bytes(v.push(e).drop_first()) =~= Seq::<u8>::empty());
        assert(frames_bytes(v.push(e)) == frame_bytes(e.magic, e.msg) + frames_bytes(
            v.push(e).drop_first(),
        ));
        assert(frames_bytes(v) =~= Seq::<u8>::empty());
        assert(frames_bytes(v.push(e)) =~= frames_bytes(v) + frame_bytes(e.magic, e.msg));
    } else {
        assert(v.push(e)[0] == v[0]);
        assert(v.push(e).drop_first() =~= v.drop_first().push(e));
        lemma_frames_bytes_push(v.drop_first(), e);
        assert(frames_bytes(v.push(e)) == frame_bytes(v[0].magic, v[0].msg) + frames_bytes(
            v.drop_first().push(e),
        ));
        assert(frames_bytes(v.push(e)) =~= frames_bytes(v) + frame_bytes(e.magic, e.msg));
    }
}

/// Append the UTF-8 bytes of a string.
fn push_str(out: &mut Vec<u8>, s: &str)
    ensures
        final(out)@ == old(out)@ + s.spec_bytes(),
{
    let b = s.as_bytes();
    let mut i: usize = 0;
    while i < b.len()
        invariant
            0 <= i <= b@.len(),
            b@ == s.spec_bytes(),
            out@ == old(out)@ + b@.take(i as int),
        decreases b@.len() - i,
    {
        out.push(b[i]);
        proof {
            assert(out@ =~= old(out)@ + b@.take(i as int + 1));
        }
        i += 1;
    }
    proof {
        assert(old(out)@ + b@.take(b@.len() as int) =~= old(out)@ + s.spec_bytes());
    }
}

/// Append the decimal digits of a number.
fn push_u64(out: &mut Vec<u8>, n: u64)
    ensures
        final(out)@ == old(out)@ + dec_u64(n),
    decreases n,
{
    if n < 10 {
        out.push((0x30 + n) as u8);
        proof {
            assert(out@ =~= old(out)@ + dec_u64(n));
        }
    } else {
        push_u64(out, n / 10);
        out.push((0x30 + n % 10) as u8);
        proof {
            assert(out@ =~= old(out)@ + dec_u64(n));
        }
    }
}

/// Append a quoted Base58Btc rendering of bytes.
fn push_quoted_b58(out: &mut Vec<u8>, b: &[u8])
    ensures
        final(out)@ == old(out)@ + quoted_b58(b@),
{
    let s = crate::identity::multibase_encode(b);
    out.push(0x22);
    push_str(out, s.as_str());
    out.push(0x22);
    proof {
        assert(out@ =~= old(out)@ + quoted_b58(b@));
    }
}

/// Append a JSON array body of identifiers.
fn push_ids(out: &mut Vec<u8>, v: &Vec<ProjId>)
    ensures
        final(out)@ == old(out)@ + ids_bytes(v@),
{
    let mut i: usize = 0;
    while i < v.len()
        invariant
            0 <= i <= v@.len(),
            out@ == old(out)@ + ids_bytes(v@.take(i as int)),
        decreases v@.len() - i,
    {
        let ghost pre = v@.take(i as int);
        let ghost cur = v@.take(i as int + 1);
        proof {
            assert(cur.drop_last() =~= pre);
            assert(cur.last() == v@[i as int]);
        }
        if i > 0 {
            out.push(0x2c);
        }
        push_quoted_b58(out, v[i].digest.as_slice());
        proof {
            assert(out@ =~= old(out)@ + ids_bytes(cur));
        }
        i += 1;
    }
    proof {
        assert(v@.take(v@.len() as int) =~= v@);
    }
}

/// Append the text form of an address.
fn push_addr(out: &mut Vec<u8>, a: Addr)
    ensures
        final(out)@ == old(out)@ + addr_bytes(a),
{
    push_u64(out, (a.ip / 16777216) as u64);
    out.push(0x2e);
    push_u64(out, ((a.ip / 65536) % 256) as u64);
    out.push(0x2e);
    push_u64(out, ((a.ip / 256) % 256) as u64);
    out.push(0x2e);
    push_u64(out, (a.ip % 256) as u64);
    out.push(0x3a);
    push_u64(out, a.port as u64);
    proof {
        assert(out@ =~= old(out)@ + addr_bytes(a));
    }
}

/// Append a JSON array body of quoted addresses.
fn push_addrs(out: &mut Vec<u8>, v: &Vec<Addr>)
    ensures
        final(out)@ == old(out)@ + addrs_bytes(v@),
{
    let mut i: usize = 0;
    while i < v.len()
        invariant
            0 <= i <= v@.len(),
            out@ == old(out)@ + addrs_bytes(v@.take(i as int)),
        decreases v@.len() - i,
    {
        let ghost pre = v@.take(i as int);
        let ghost cur = v@.take(i as int + 1);
        proof {
            assert(cur.drop_last() =~= pre);
            assert(cur.last() == v@[i as int]);
        }
        if i > 0 {
            out.push(0x2c);
        }
        out.push(0x22);
        push_addr(out, v[i]);
        out.push(0x22);
        proof {
            assert(out@ =~= old(out)@ + addrs_bytes(cur));
        }
        i += 1;
    }
    proof {
        assert(v@.take(v@.len() as int) =~= v@);
    }
}

/// Append the lowercase hex rendering of bytes.
fn push_hex(out: &mut Vec<u8>, b: &[u8])
    ensures
        final(out)@ == old(out)@ + hex_bytes(b@),
{
    let mut i: usize = 0;
    while i < b.len()
        invariant
            0 <= i <= b@.len(),
            out@ == old(out)@ + hex_bytes(b@.take(i as int)),
        decreases b@.len() - i,
    {
        let ghost pre = b@.take(i as int);
        let ghost cur = b@.take(i as int + 1);
        proof {
            assert(cur.drop_last() =~= pre);
            assert(cur.last() == b@[i as int]);
        }
        let x = b[i];
        let hi = x / 16;
        let lo = x % 16;
        out.push(if hi < 10 { 0x30 + hi } else { 0x57 + hi });
        out.push(if lo < 10 { 0x30 + lo } else { 0x57 + lo });
        proof {
            assert(out@ =~= old(out)@ + hex_bytes(cur));
        }
        i += 1;
    }
    proof {
        assert(b@.take(b@.len() as int) =~= b@);
    }
}

/// Append a JSON object body of references.
fn push_refs(out: &mut Vec<u8>, v: &Vec<RefEntry>)
    ensures
        final(out)@ == old(out)@ + refs_bytes(v@),
{
    let mut i: usize = 0;
    while i < v.len()
        invariant
            0 <= i <= v@.len(),
            out@ == old(out)@ + refs_bytes(v@.take(i as int)),
        decreases v@.len() - i,
    {
        let ghost pre = v@.take(i as int);
        let ghost cur = v@.take(i as int + 1);
        proof {
            assert(cur.drop_last() =~= pre);
            assert(cur.last() == v@[i as int]);
        }
        if i > 0 {
            out.push(0x2c);
        }
        out.push(0x22);
        push_str(out, v[i].name.as_str());
        out.push(0x22);
        out.push(0x3a);
        out.push(0x22);
        push_hex(out, v[i].oid.bytes.as_slice());
        out.push(0x22);
        proof {
            assert(out@ =~= old(out)@ + refs_bytes(cur));
        }
        i += 1;
    }
    proof {
        assert(v@.take(v@.len() as int) =~= v@);
    }
}

/// Encode a message into its canonical byte form.
#[verifier::rlimit(40)]
fn push_message(out: &mut Vec<u8>, m: &Message)
    ensures
        final(out)@ == old(out)@ + message_bytes(*m),
{
    match m {
        Message::Hello { id, timestamp, addrs, git_url, version, signature } => {
            push_str(out, "{\"type\":\"hello\",\"id\":");
            push_quoted_b58(out, id.bytes.as_slice());
            push_str(out, ",\"timestamp\":");
            push_u64(out, *timestamp);
            push_str(out, ",\"addrs\":[");
            push_addrs(out, addrs);
            push_str(out, "],\"git_url\":\"");
            push_str(out, git_url.as_str());
            push_str(out, "\",\"version\":");
            push_u64(out, *version as u64);
            push_str(out, ",\"signature\":");
            push_quoted_b58(out, signature.bytes.as_slice());
            push_str(out, "}");
            proof {
                assert(out@ =~= old(out)@ + message_bytes(*m));
            }
        },
        Message::GetInventory { ids } => {
            push_str(out, "{\"type\":\"get-inventory\",\"ids\":[");
            push_ids(out, ids);
            push_str(out, "]}");
            proof {
                assert(out@ =~= old(out)@ + message_bytes(*m));
            }
        },
        Message::Inventory { timestamp, inv, origin } => {
            push_str(out, "{\"type\":\"inventory\",\"timestamp\":");
            push_u64(out, *timestamp);
            push_str(out, ",\"inv\":[");
            push_ids(out, inv);
            push_str(out, "],\"origin\":");
            match origin {
                Some(p) => push_quoted_b58(out, p.bytes.as_slice()),
                None => push_str(out, "null"),
            }
            push_str(out, "}");
            proof {
                assert(out@ =~= old(out)@ + message_bytes(*m));
            }
        },
        Message::GetRefs { proj } => {
            push_str(out, "{\"type\":\"get-refs\",\"proj\":");
            push_quoted_b58(out, proj.digest.as_slice());
            push_str(out, "}");
            proof {
                assert(out@ =~= old(out)@ + message_bytes(*m));
            }
        },
        Message::Refs { proj, refs, signature } => {
            push_str(out, "{\"type\":\"refs\",\"proj\":");
            push_quoted_b58(out, proj.digest.as_slice());
            push_str(out, ",\"refs\":{");
            push_refs(out, refs);
            push_str(out, "},\"signature\":");
            push_quoted_b58(out, signature.bytes.as_slice());
            push_str(out, "}");
            proof {
                assert(out@ =~= old(out)@ + message_bytes(*m));
            }
        },
        Message::Ping { nonce } => {
            push_str(out, "{\"type\":\"ping\",\"nonce\":");
            push_u64(out, *nonce);
            push_str(out, "}");
            proof {
                assert(out@ =~= old(out)@ + message_bytes(*m));
            }
        },
        Message::Pong { nonce } => {
            push_str(out, "{\"type\":\"pong\",\"nonce\":");
            push_u64(out, *nonce);
            push_str(out, "}");
            proof {
                assert(out@ =~= old(out)@ + message_bytes(*m));
            }
        },
        Message::Disconnect { reason } => {
            push_str(out, "{\"type\":\"disconnect\",\"reason\":\"");
            push_str(out, reason.as_str());
            push_str(out, "\"}");
            proof {
                assert(out@ =~= old(out)@ + message_bytes(*m));
            }
        },
    }
}

/// Encode an envelope into its canonical byte form.
pub fn encode_envelope(magic: u32, m: &Message) -> (r: Vec<u8>)
    ensures
        r@ == envelope_bytes(magic, *m),
{
    let mut out: Vec<u8> = Vec::new();
    push_str(&mut out, "{\"magic\":");
    push_u64(&mut out, magic as u64);
    push_str(&mut out, ",\"msg\":");
    push_message(&mut out, m);
    push_str(&mut out, "}");
    proof {
        assert(out@ =~= envelope_bytes(magic, *m));
    }
    out
}

/// Frame an envelope with its big-endian length prefix. Envelopes past
/// the frame limit are refused.
pub fn encode_frame(magic: u32, m: &Message) -> (r: Option<Vec<u8>>)
    ensures
        r matches Some(b) ==> b@ == frame_bytes(magic, *m) && envelope_bytes(magic, *m).len()
            <= MAX_FRAME,
        r is None ==> envelope_bytes(magic, *m).len() > MAX_FRAME,
{
    let payload = encode_envelope(magic, m);
    if payload.len() > MAX_FRAME {
        return None;
    }
    let n = payload.len() as u32;
    let mut out: Vec<u8> = Vec::new();
    out.push((n / 16777216) as u8);
    out.push(((n / 65536) % 256) as u8);
    out.push(((n / 256) % 256) as u8);
    out.push((n % 256) as u8);
    let mut i: usize = 0;
    while i < payload.len()
        invariant
            0 <= i <= payload@.len(),
            payload@ == envelope_bytes(magic, *m),
            payload@.len() <= MAX_FRAME,
            out@ == be32(payload@.len() as u32) + payload@.take(i as int),
        decreases payload@.len() - i,
    {
        out.push(payload[i]);
        proof {
            assert(out@ =~= be32(payload@.len() as u32) + payload@.take(i as int + 1));
        }
        i += 1;
    }
    proof {
        assert(out@ =~= frame_bytes(magic, *m));
    }
    Some(out)
}


/// A wire envelope: the network magic and one message.
#[derive(Clone, Debug)]
pub struct Envelope {
    pub magic: u32,
    pub msg: Message,
}

/// Relies on `String::from_utf8` to turn parsed bytes back into text.
/// Nothing is claimed of the result: the decoder checks what it parses
/// by re-encoding it.
#[verifier::external_body]
fn bytes_to_string(b: Vec<u8>) -> (r: Option<String>)
{
    match String::from_utf8(b) {
        Ok(s) => Some(s),
        Err(_) => None,
    }
}

/// Match a literal at the given position; the position after it.
fn take_lit(b: &[u8], pos: usize, lit: &str) -> (r: Option<usize>)
    ensures
        r matches Some(p) ==> pos <= p <= b@.len(),
{
    let l = lit.as_bytes();
    if pos > b.len() || b.len() - pos < l.len() {
        return None;
    }
    let mut i: usize = 0;
    while i < l.len()
        invariant
            0 <= i <= l@.len(),
            pos + l@.len() <= b@.len(),
            b@.len() <= usize::MAX,
        decreases l@.len() - i,
    {
        if b[pos + i] != l[i] {
            return None;
        }
        i += 1;
    }
    Some(pos + l.len())
}

/// Parse a decimal number; the value and the position after it.
fn take_u64(b: &[u8], pos: usize) -> (r: Option<(u64, usize)>)
    ensures
        r matches Some(t) ==> pos <= t.1 <= b@.len(),
{
    let mut p = pos;
    let mut acc: u64 = 0;
    let mut any = false;
    if p > b.len() {
        return None;
    }
    while p < b.len() && b[p] >= 0x30 && b[p] <= 0x39
        invariant
            pos <= p <= b@.len(),
        decreases b@.len() - p,
    {
        let d = (b[p] - 0x30) as u64;
        if acc > 1844674407370955161 {
            return None;
        }
        if acc == 1844674407370955161 && d > 5 {
            return None;
        }
        acc = acc * 10 + d;
        any = true;
        p += 1;
    }
    if any {
        Some((acc, p))
    } else {
        None
    }
}

/// Parse a string body up to the closing quote, which is not consumed.
/// Only ASCII without quotes, backslashes and control characters.
fn take_str_body(b: &[u8], pos: usize) -> (r: Option<(String, usize)>)
    ensures
        r matches Some(t) ==> pos <= t.1 <= b@.len(),
{
    let mut p = pos;
    let mut body: Vec<u8> = Vec::new();
    if p > b.len() {
        return None;
    }
    while p < b.len() && b[p] != 0x22
        invariant
            pos <= p <= b@.len(),
        decreases b@.len() - p,
    {
        let c = b[p];
        if c < 0x20 || c == 0x5c || c >= 0x80 {
            return None;
        }
        body.push(c);
        p += 1;
    }
    if p == b.len() {
        return None;
    }
    match bytes_to_string(body) {
        Some(s) => Some((s, p)),
        None => None,
    }
}

/// Parse a quoted string, consuming both quotes.
fn take_quoted(b: &[u8], pos: usize) -> (r: Option<(String, usize)>)
    ensures
        r matches Some(t) ==> pos <= t.1 <= b@.len(),
{
    if !(pos < b.len() && b[pos] == 0x22) {
        return None;
    }
    match take_str_body(b, pos + 1) {
        Some((s, p)) => {
            if p < b.len() && b[p] == 0x22 {
                Some((s, p + 1))
            } else {
                None
            }
        },
        None => None,
    }
}

/// Parse a quoted Base58Btc public key.
fn take_key(b: &[u8], pos: usize) -> (r: Option<(PublicKey, usize)>)
    ensures
        r matches Some(t) ==> pos <= t.1 <= b@.len(),
{
    match take_quoted(b, pos) {
        Some((s, p)) => match PublicKey::decode(s.as_str()) {
            Some(k) => Some((k, p)),
            None => None,
        },
        None => None,
    }
}

/// Parse a quoted Base58Btc project identifier.
fn take_proj(b: &[u8], pos: usize) -> (r: Option<(ProjId, usize)>)
    ensures
        r matches Some(t) ==> pos <= t.1 <= b@.len(),
{
    match take_key(b, pos) {
        Some((k, p)) => Some((ProjId { digest: k.bytes }, p)),
        None => None,
    }
}

/// Parse a quoted Base58Btc signature of 64 bytes.
fn take_sig(b: &[u8], pos: usize) -> (r: Option<(Signature, usize)>)
    ensures
        r matches Some(t) ==> pos <= t.1 <= b@.len(),
{
    match take_quoted(b, pos) {
        Some((s, p)) => match crate::identity::multibase_decode(s.as_str()) {
            Some(raw) => {
                if raw.len() != 64 {
                    return None;
                }
                let mut bytes: [u8; 64] = vstd::array::array_fill_for_copy_types(0u8);
                let mut i: usize = 0;
                while i < 64
                    invariant
                        0 <= i <= 64,
                        raw@.len() == 64,
                    decreases 64 - i,
                {
                    bytes[i] = raw[i];
                    i += 1;
                }
                Some((Signature { bytes }, p))
            },
            None => None,
        },
        None => None,
    }
}

/// Parse a quoted 40-digit lowercase hex object identifier.
fn take_oid(b: &[u8], pos: usize) -> (r: Option<(Oid, usize)>)
    ensures
        r matches Some(t) ==> pos <= t.1 <= b@.len(),
{
    if pos > b.len() || b.len() - pos < 40 {
        return None;
    }
    let mut bytes: [u8; 20] = vstd::array::array_fill_for_copy_types(0u8);
    let mut i: usize = 0;
    while i < 20
        invariant
            0 <= i <= 20,
            pos + 40 <= b@.len(),
            b@.len() <= usize::MAX,
        decreases 20 - i,
    {
        let hi = b[pos + 2 * i];
        let lo = b[pos + 2 * i + 1];
        let h: u8 = if hi >= 0x30 && hi <= 0x39 {
            hi - 0x30
        } else if hi >= 0x61 && hi <= 0x66 {
            hi - 0x57
        } else {
            return None;
        };
        let l: u8 = if lo >= 0x30 && lo <= 0x39 {
            lo - 0x30
        } else if lo >= 0x61 && lo <= 0x66 {
            lo - 0x57
        } else {
            return None;
        };
        bytes[i] = h * 16 + l;
        i += 1;
    }
    Some((Oid { bytes }, pos + 40))
}

/// Parse a dotted-quad address and port out of a string body.
fn take_addr(b: &[u8], pos: usize) -> (r: Option<(Addr, usize)>)
    ensures
        r matches Some(t) ==> pos <= t.1 <= b@.len(),
{
    let (o0, p0) = match take_u64(b, pos) {
        Some(t) => t,
        None => {
            return None;
        },
    };
    let p0b = match take_lit(b, p0, ".") {
        Some(p) => p,
        None => {
            return None;
        },
    };
    let (o1, p1) = match take_u64(b, p0b) {
        Some(t) => t,
        None => {
            return None;
        },
    };
    let p1b = match take_lit(b, p1, ".") {
        Some(p) => p,
        None => {
            return None;
        },
    };
    let (o2, p2) = match take_u64(b, p1b) {
        Some(t) => t,
        None => {
            return None;
        },
    };
    let p2b = match take_lit(b, p2, ".") {
        Some(p) => p,
        None => {
            return None;
        },
    };
    let (o3, p3) = match take_u64(b, p2b) {
        Some(t) => t,
        None => {
            return None;
        },
    };
    let p3b = match take_lit(b, p3, ":") {
        Some(p) => p,
        None => {
            return None;
        },
    };
    let (port, p4) = match take_u64(b, p3b) {
        Some(t) => t,
        None => {
            return None;
        },
    };
    if o0 > 255 || o1 > 255 || o2 > 255 || o3 > 255 || port > 65535 {
        return None;
    }
    let ip: u32 = (o0 as u32) * 16777216 + (o1 as u32) * 65536 + (o2 as u32) * 256 + (o3 as u32);
    Some((Addr { ip, port: port as u16 }, p4))
}

/// Parse an array body of identifiers, up to the closing bracket,
/// which is not consumed.
fn take_ids(b: &[u8], pos: usize) -> (r: Option<(Vec<ProjId>, usize)>)
    ensures
        r matches Some(t) ==> pos <= t.1 <= b@.len(),
{
    let mut out: Vec<ProjId> = Vec::new();
    let mut p = pos;
    if p >= b.len() {
        return None;
    }
    if b[p] == 0x5d {
        return Some((out, p));
    }
    loop
        invariant
            pos <= p <= b@.len(),
        decreases b@.len() - p,
    {
        let (id, p2) = match take_proj(b, p) {
            Some(t) => t,
            None => {
                return None;
            },
        };
        out.push(id);
        if p2 >= b.len() {
            return None;
        }
        if b[p2] == 0x5d {
            return Some((out, p2));
        }
        if b[p2] != 0x2c {
            return None;
        }
        if p2 + 1 <= p {
            return None;
        }
        p = p2 + 1;
    }
}

/// Parse an array body of quoted addresses, up to the closing bracket,
/// which is not consumed.
fn take_addrs(b: &[u8], pos: usize) -> (r: Option<(Vec<Addr>, usize)>)
    ensures
        r matches Some(t) ==> pos <= t.1 <= b@.len(),
{
    let mut out: Vec<Addr> = Vec::new();
    let mut p = pos;
    if p >= b.len() {
        return None;
    }
    if b[p] == 0x5d {
        return Some((out, p));
    }
    loop
        invariant
            pos <= p <= b@.len(),
        decreases b@.len() - p,
    {
        if !(p < b.len() && b[p] == 0x22) {
            return None;
        }
        let (a, p2) = match take_addr(b, p + 1) {
            Some(t) => t,
            None => {
                return None;
            },
        };
        if !(p2 < b.len() && b[p2] == 0x22) {
            return None;
        }
        out.push(a);
        let p3 = p2 + 1;
        if p3 >= b.len() {
            return None;
        }
        if b[p3] == 0x5d {
            return Some((out, p3));
        }
        if b[p3] != 0x2c {
            return None;
        }
        if p3 + 1 <= p {
            return None;
        }
        p = p3 + 1;
    }
}

/// Parse an object body of references, up to the closing brace, which
/// is not consumed.
fn take_refs(b: &[u8], pos: usize) -> (r: Option<(Vec<RefEntry>, usize)>)
    ensures
        r matches Some(t) ==> pos <= t.1 <= b@.len(),
{
    let mut out: Vec<RefEntry> = Vec::new();
    let mut p = pos;
    if p >= b.len() {
        return None;
    }
    if b[p] == 0x7d {
        return Some((out, p));
    }
    loop
        invariant
            pos <= p <= b@.len(),
        decreases b@.len() - p,
    {
        let (name, p2) = match take_quoted(b, p) {
            Some(t) => t,
            None => {
                return None;
            },
        };
        let p3 = match take_lit(b, p2, ":\"") {
            Some(t) => t,
            None => {
                return None;
            },
        };
        let (oid, p4) = match take_oid(b, p3) {
            Some(t) => t,
            None => {
                return None;
            },
        };
        if !(p4 < b.len() && b[p4] == 0x22) {
            return None;
        }
        out.push(RefEntry { name, oid });
        let p5 = p4 + 1;
        if p5 >= b.len() {
            return None;
        }
        if b[p5] == 0x7d {
            return Some((out, p5));
        }
        if b[p5] != 0x2c {
            return None;
        }
        if p5 + 1 <= p {
            return None;
        }
        p = p5 + 1;
    }
}

/// Parse one message object; the position after it.
fn parse_message(b: &[u8], pos: usize) -> (r: Option<(Message, usize)>)
    ensures
        r matches Some(t) ==> pos <= t.1 <= b@.len(),
{
    match take_lit(b, pos, "{\"type\":\"hello\",\"id\":") {
        Some(p) => {
            let (id, p1) = match take_key(b, p) {
                Some(t) => t,
                None => {
                    return None;
                },
            };
            let p2 = match take_lit(b, p1, ",\"timestamp\":") {
                Some(t) => t,
                None => {
                    return None;
                },
            };
            let (timestamp, p3) = match take_u64(b, p2) {
                Some(t) => t,
                None => {
                    return None;
                },
            };
            let p4 = match take_lit(b, p3, ",\"addrs\":[") {
                Some(t) => t,
                None => {
                    return None;
                },
            };
            let (addrs, p5) = match take_addrs(b, p4) {
                Some(t) => t,
                None => {
                    return None;
                },
            };
            let p6 = match take_lit(b, p5, "],\"git_url\":\"") {
                Some(t) => t,
                None => {
                    return None;
                },
            };
            let (git_url, p7) = match take_str_body(b, p6) {
                Some(t) => t,
                None => {
                    return None;
                },
            };
            let p8 = match take_lit(b, p7, "\",\"version\":") {
                Some(t) => t,
                None => {
                    return None;
                },
            };
            let (version, p9) = match take_u64(b, p8) {
                Some(t) => t,
                None => {
                    return None;
                },
            };
            if version > 0xffffffff {
                return None;
            }
            let p10 = match take_lit(b, p9, ",\"signature\":") {
                Some(t) => t,
                None => {
                    return None;
                },
            };
            let (signature, p11) = match take_sig(b, p10) {
                Some(t) => t,
                None => {
                    return None;
                },
            };
            let p12 = match take_lit(b, p11, "}") {
                Some(t) => t,
                None => {
                    return None;
                },
            };
            Some(
                (
                    Message::Hello {
                        id,
                        timestamp,
                        addrs,
                        git_url,
                        version: version as u32,
                        signature,
                    },
                    p12,
                ),
            )
        },
        None => match take_lit(b, pos, "{\"type\":\"get-inventory\",\"ids\":[") {
            Some(p) => {
                let (ids, p1) = match take_ids(b, p) {
                    Some(t) => t,
                    None => {
                        return None;
                    },
                };
                let p2 = match take_lit(b, p1, "]}") {
                    Some(t) => t,
                    None => {
                        return None;
                    },
                };
                Some((Message::GetInventory { ids }, p2))
            },
            None => match take_lit(b, pos, "{\"type\":\"inventory\",\"timestamp\":") {
                Some(p) => {
                    let (timestamp, p1) = match take_u64(b, p) {
                        Some(t) => t,
                        None => {
                            return None;
                        },
                    };
                    let p2 = match take_lit(b, p1, ",\"inv\":[") {
                        Some(t) => t,
                        None => {
                            return None;
                        },
                    };
                    let (inv, p3) = match take_ids(b, p2) {
                        Some(t) => t,
                        None => {
                            return None;
                        },
                    };
                    let p4 = match take_lit(b, p3, "],\"origin\":") {
                        Some(t) => t,
                        None => {
                            return None;
                        },
                    };
                    let (origin, p5): (Option<PublicKey>, usize) = match take_lit(b, p4, "null") {
                        Some(t) => (None, t),
                        None => match take_key(b, p4) {
                            Some((k, t)) => (Some(k), t),
                            None => {
                                return None;
                            },
                        },
                    };
                    let p6 = match take_lit(b, p5, "}") {
                        Some(t) => t,
                        None => {
                            return None;
                        },
                    };
                    Some((Message::Inventory { timestamp, inv, origin }, p6))
                },
                None => match take_lit(b, pos, "{\"type\":\"get-refs\",\"proj\":") {
                    Some(p) => {
                        let (proj, p1) = match take_proj(b, p) {
                            Some(t) => t,
                            None => {
                                return None;
                            },
                        };
                        let p2 = match take_lit(b, p1, "}") {
                            Some(t) => t,
                            None => {
                                return None;
                            },
                        };
                        Some((Message::GetRefs { proj }, p2))
                    },
                    None => match take_lit(b, pos, "{\"type\":\"refs\",\"proj\":") {
                        Some(p) => {
                            let (proj, p1) = match take_proj(b, p) {
                                Some(t) => t,
                                None => {
                                    return None;
                                },
                            };
                            let p2 = match take_lit(b, p1, ",\"refs\":{") {
                                Some(t) => t,
                                None => {
                                    return None;
                                },
                            };
                            let (refs, p3) = match take_refs(b, p2) {
                                Some(t) => t,
                                None => {
                                    return None;
                                },
                            };
                            let p4 = match take_lit(b, p3, "},\"signature\":") {
                                Some(t) => t,
                                None => {
                                    return None;
                                },
                            };
                            let (signature, p5) = match take_sig(b, p4) {
                                Some(t) => t,
                                None => {
                                    return None;
                                },
                            };
                            let p6 = match take_lit(b, p5, "}") {
                                Some(t) => t,
                                None => {
                                    return None;
                                },
                            };
                            Some((Message::Refs { proj, refs, signature }, p6))
                        },
                        None => match take_lit(b, pos, "{\"type\":\"ping\",\"nonce\":") {
                            Some(p) => {
                                let (nonce, p1) = match take_u64(b, p) {
                                    Some(t) => t,
                                    None => {
                                        return None;
                                    },
                                };
                                let p2 = match take_lit(b, p1, "}") {
                                    Some(t) => t,
                                    None => {
                                        return None;
                                    },
                                };
                                Some((Message::Ping { nonce }, p2))
                            },
                            None => match take_lit(b, pos, "{\"type\":\"pong\",\"nonce\":") {
                                Some(p) => {
                                    let (nonce, p1) = match take_u64(b, p) {
                                        Some(t) => t,
                                        None => {
                                            return None;
                                        },
                                    };
                                    let p2 = match take_lit(b, p1, "}") {
                                        Some(t) => t,
                                        None => {
                                            return None;
                                        },
                                    };
                                    Some((Message::Pong { nonce }, p2))
                                },
                                None => match take_lit(
                                    b,
                                    pos,
                                    "{\"type\":\"disconnect\",\"reason\":\"",
                                ) {
                                    Some(p) => {
                                        let (reason, p1) = match take_str_body(b, p) {
                                            Some(t) => t,
                                            None => {
                                                return None;
                                            },
                                        };
                                        let p2 = match take_lit(b, p1, "\"}") {
                                            Some(t) => t,
                                            None => {
                                                return None;
                                            },
                                        };
                                        Some((Message::Disconnect { reason }, p2))
                                    },
                                    None => None,
                                },
                            },
                        },
                    },
                },
            },
        },
    }
}

/// Whether two byte strings hold the same bytes.
fn bytes_eq(a: &Vec<u8>, b: &[u8]) -> (r: bool)
    ensures
        r <==> a@ == b@,
{
    if a.len() != b.len() {
        return false;
    }
    let mut i: usize = 0;
    while i < a.len()
        invariant
            0 <= i <= a@.len(),
            a@.len() == b@.len(),
            forall|j: int| 0 <= j < i ==> a@[j] == b@[j],
        decreases a@.len() - i,
    {
        if a[i] != b[i] {
            return false;
        }
        i += 1;
    }
    proof {
        assert(a@ =~= b@);
    }
    true
}

/// Decode one envelope from its canonical byte form. Succeeds only on
/// exactly the bytes the encoder emits: whatever parses is re-encoded
/// and compared against the input.
pub fn decode_envelope(b: &[u8]) -> (r: Option<Envelope>)
    ensures
        r matches Some(env) ==> b@ == envelope_bytes(env.magic, env.msg),
{
    let p0 = match take_lit(b, 0, "{\"magic\":") {
        Some(t) => t,
        None => {
            return None;
        },
    };
    let (magic, p1) = match take_u64(b, p0) {
        Some(t) => t,
        None => {
            return None;
        },
    };
    if magic > 0xffffffff {
        return None;
    }
    let p2 = match take_lit(b, p1, ",\"msg\":") {
        Some(t) => t,
        None => {
            return None;
        },
    };
    let (msg, p3) = match parse_message(b, p2) {
        Some(t) => t,
        None => {
            return None;
        },
    };
    let p4 = match take_lit(b, p3, "}") {
        Some(t) => t,
        None => {
            return None;
        },
    };
    if p4 != b.len() {
        return None;
    }
    let canon = encode_envelope(magic as u32, &msg);
    if bytes_eq(&canon, b) {
        Some(Envelope { magic: magic as u32, msg })
    } else {
        None
    }
}

/// What one step of the streaming decoder produced.
#[derive(Debug)]
pub enum Decoded {
    /// A complete, canonical envelope.
    Envelope(Envelope),
    /// Not enough buffered bytes for a complete frame.
    Incomplete,
    /// The buffered bytes are not a canonical frame.
    Malformed,
}

/// A streaming frame decoder: buffers inbound bytes and hands out one
/// enveloped message at a time.
#[derive(Clone, Debug)]
pub struct Decoder {
    pub buf: Vec<u8>,
}

impl Decoder {
    /// An empty decoder.
    pub fn new() -> (r: Decoder)
        ensures
            r.buf@.len() == 0,
    {
        Decoder { buf: Vec::new() }
    }

    /// Buffer more inbound bytes.
    pub fn input(&mut self, bytes: &[u8])
        ensures
            final(self).buf@ == old(self).buf@ + bytes@,
    {
        let mut i: usize = 0;
        while i < bytes.len()
            invariant
                0 <= i <= bytes@.len(),
                self.buf@ == old(self).buf@ + bytes@.take(i as int),
            decreases bytes@.len() - i,
        {
            self.buf.push(bytes[i]);
            proof {
                assert(self.buf@ =~= old(self).buf@ + bytes@.take(i as int + 1));
            }
            i += 1;
        }
        proof {
            assert(old(self).buf@ + bytes@.take(bytes@.len() as int) =~= old(self).buf@ + bytes@);
        }
    }

    /// Try to pop one frame off the buffer. A decoded envelope is sound:
    /// the consumed prefix was exactly its canonical frame.
    pub fn decode_next(&mut self) -> (r: Decoded)
        ensures
            final(self).buf@.len() <= old(self).buf@.len(),
            r matches Decoded::Envelope(env) ==> old(self).buf@ == frame_bytes(env.magic, env.msg)
                + final(self).buf@,
            !(r matches Decoded::Envelope(env)) ==> final(self).buf@ == old(self).buf@,
            has_complete_frame(old(self).buf@) ==> !(r is Incomplete),
            r is Incomplete ==> !has_complete_frame(old(self).buf@),
            old(self).buf@.len() >= 4 && be32_val(old(self).buf@) > MAX_FRAME ==> r is Malformed,
            r is Malformed ==> old(self).buf@.len() >= 4 && (be32_val(old(self).buf@) > MAX_FRAME
                || has_complete_frame(old(self).buf@)),
    {
        if self.buf.len() < 4 {
            return Decoded::Incomplete;
        }
        let n: u32 = (self.buf[0] as u32) * 16777216 + (self.buf[1] as u32) * 65536 + (
        self.buf[2] as u32) * 256 + (self.buf[3] as u32);
        proof {
            assert(n as int == be32_val(self.buf@));
        }
        if n > 65536 {
            return Decoded::Malformed;
        }
        let need: usize = 4 + (n as usize);
        if self.buf.len() < need {
            return Decoded::Incomplete;
        }
        let mut payload: Vec<u8> = Vec::new();
        let mut i: usize = 4;
        while i < need
            invariant
                4 <= i <= need,
                need <= self.buf@.len(),
                self.buf@ == old(self).buf@,
                payload@ == self.buf@.subrange(4, i as int),
            decreases need - i,
        {
            payload.push(self.buf[i]);
            proof {
                assert(payload@ =~= self.buf@.subrange(4, i as int + 1));
            }
            i += 1;
        }
        match decode_envelope(payload.as_slice()) {
            Some(env) => {
                let mut rest: Vec<u8> = Vec::new();
                let mut k: usize = need;
                while k < self.buf.len()
                    invariant
                        need <= k <= self.buf@.len(),
                        self.buf@ == old(self).buf@,
                        need <= self.buf@.len(),
                        rest@ == self.buf@.subrange(need as int, k as int),
                    decreases self.buf@.len() - k,
                {
                    rest.push(self.buf[k]);
                    proof {
                        assert(rest@ =~= self.buf@.subrange(need as int, k as int + 1));
                    }
                    k += 1;
                }
                proof {
                    assert(rest@ =~= self.buf@.subrange(need as int, self.buf@.len() as int));
                }
                let ghost buf0 = self.buf@;
                self.buf = rest;
                proof {
                    assert(payload@ == envelope_bytes(env.magic, env.msg));
                    assert(payload@.len() == n as int);
                    assert(be32(payload@.len() as u32) =~= buf0.subrange(0, 4)) by {
                        assert(buf0[0] == ((n / 16777216) as u8)) by (nonlinear_arith)
                            requires
                                n == (buf0[0] as u32) * 16777216 + (buf0[1] as u32) * 65536 + (
                                buf0[2] as u32) * 256 + (buf0[3] as u32),
                                buf0[0] < 256,
                                buf0[1] < 256,
                                buf0[2] < 256,
                                buf0[3] < 256,
                        ;
                        assert(buf0[1] == (((n / 65536) % 256) as u8)) by (nonlinear_arith)
                            requires
                                n == (buf0[0] as u32) * 16777216 + (buf0[1] as u32) * 65536 + (
                                buf0[2] as u32) * 256 + (buf0[3] as u32),
                                buf0[0] < 256,
                                buf0[1] < 256,
                                buf0[2] < 256,
                                buf0[3] < 256,
                        ;
                        assert(buf0[2] == (((n / 256) % 256) as u8)) by (nonlinear_arith)
                            requires
                                n == (buf0[0] as u32) * 16777216 + (buf0[1] as u32) * 65536 + (
                                buf0[2] as u32) * 256 + (buf0[3] as u32),
                                buf0[0] < 256,
                                buf0[1] < 256,
                                buf0[2] < 256,
                                buf0[3] < 256,
                        ;
                        assert(buf0[3] == ((n % 256) as u8)) by (nonlinear_arith)
                            requires
                                n == (buf0[0] as u32) * 16777216 + (buf0[1] as u32) * 65536 + (
                                buf0[2] as u32) * 256 + (buf0[3] as u32),
                                buf0[0] < 256,
                                buf0[1] < 256,
                                buf0[2] < 256,
                                buf0[3] < 256,
                        ;
                    }
                    assert(buf0 =~= frame_bytes(env.magic, env.msg) + self.buf@);
                }
                Decoded::Envelope(env)
            },
            None => Decoded::Malformed,
        }
    }
}

} // verus!
