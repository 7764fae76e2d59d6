//! Wire frames: a 4-byte big-endian length prefix followed by that many bytes
//! of UTF-8 text. Encoding and decoding are exact inverses (see the round-trip
//! lemmas), which is the correctness core of the session socket protocol.
use vstd::prelude::*;
use vstd::string::{StrSliceExecFns, StringSliceAdditionalSpecFns};
use vstd::utf8::{decode_utf8, encode_utf8, encode_utf8_decode_utf8, encode_utf8_valid_utf8,
    valid_utf8};

verus! {

/// The four big-endian base-256 digits of a 32-bit length.
pub open spec fn be32(n: u32) -> Seq<u8> {
    seq![
        (n / 0x1000000) as u8,
        ((n / 0x10000) % 0x100) as u8,
        ((n / 0x100) % 0x100) as u8,
        (n % 0x100) as u8,
    ]
}

/// The 32-bit value held by four big-endian base-256 digits.
pub open spec fn from_be32(s: Seq<u8>) -> u32
    recommends
        s.len() == 4,
{
    ((s[0] as int) * 0x1000000 + (s[1] as int) * 0x10000 + (s[2] as int) * 0x100 + (
    s[3] as int)) as u32
}

pub proof fn lemma_be32_round_trip(n: u32)
    ensures
        be32(n).len() == 4,
        from_be32(be32(n)) == n,
{
    assert(n == (n / 0x100) * 0x100 + n % 0x100);
    assert(n / 0x100 == (n / 0x10000) * 0x100 + (n / 0x100) % 0x100);
    assert(n / 0x10000 == (n / 0x1000000) * 0x100 + (n / 0x10000) % 0x100);
    assert(n / 0x1000000 < 0x100);
}

/// A complete frame: the length prefix, then the payload bytes.
pub open spec fn frame_bytes(payload: Seq<u8>) -> Seq<u8>
    recommends
        payload.len() <= u32::MAX,
{
    be32(payload.len() as u32) + payload
}

/// Reads one complete frame back out of its bytes; `None` when the prefix
/// does not match the number of bytes that follow it.
pub open spec fn parse_frame(b: Seq<u8>) -> Option<Seq<u8>> {
    if b.len() < 4 {
        None
    } else if from_be32(b.take(4)) as int != b.len() - 4 {
        None
    } else {
        Some(b.skip(4))
    }
}

/// Decoding a frame recovers exactly the payload that was encoded.
pub proof fn lemma_frame_round_trip(payload: Seq<u8>)
    requires
        payload.len() <= u32::MAX,
    ensures
        parse_frame(frame_bytes(payload)) == Some(payload),
{
    let n = payload.len() as u32;
    lemma_be32_round_trip(n);
    let b = frame_bytes(payload);
    assert(b.take(4) =~= be32(n));
    assert(b.skip(4) =~= payload);
}

/// A text frame: the UTF-8 encoding of the text, framed.
pub open spec fn text_frame(s: Seq<char>) -> Seq<u8>
    recommends
        encode_utf8(s).len() <= u32::MAX,
{
    frame_bytes(encode_utf8(s))
}

/// Reads the text carried by one complete frame; `None` when the frame is
/// incomplete or its payload is not valid UTF-8.
pub open spec fn parse_text_frame(b: Seq<u8>) -> Option<Seq<char>> {
    match parse_frame(b) {
        None => None,
        Some(p) => if valid_utf8(p) {
            Some(decode_utf8(p))
        } else {
            None
        },
    }
}

/// Encoding a text payload into a frame and decoding the frame reproduces the
/// original text exactly.
pub proof fn lemma_text_frame_round_trip(s: Seq<char>)
    requires
        encode_utf8(s).len() <= u32::MAX,
    ensures
        parse_text_frame(text_frame(s)) == Some(s),
{
    let p = encode_utf8(s);
    lemma_frame_round_trip(p);
    encode_utf8_valid_utf8(s);
    encode_utf8_decode_utf8(s);
}

/// A sent text frame is exactly the big-endian byte-length prefix followed
/// by the text's UTF-8 bytes, and reading it back yields the text.
pub proof fn lemma_sent_frame_exact(s: Seq<char>)
    requires
        encode_utf8(s).len() <= u32::MAX,
    ensures
        text_frame(s) == be32(encode_utf8(s).len() as u32) + encode_utf8(s),
        parse_text_frame(text_frame(s)) == Some(s),
{
    lemma_text_frame_round_trip(s);
}

/// The length prefix of a frame, as bytes.
pub fn encode_len(n: u32) -> (r: Vec<u8>)
    ensures
        r@ == be32(n),
{
    let b0 = (n / 0x1000000) as u8;
    let b1 = ((n / 0x10000) % 0x100) as u8;
    let b2 = ((n / 0x100) % 0x100) as u8;
    let b3 = (n % 0x100) as u8;
    let r = vec![b0, b1, b2, b3];
    proof {
        assert(r@ =~= be32(n));
    }
    r
}

/// The 32-bit length held by the first four bytes of a buffer.
pub fn read_be32(b: &Vec<u8>) -> (r: u32)
    requires
        b@.len() >= 4,
    ensures
        r == from_be32(b@.take(4)),
{
    let r0 = (b[0] as u32) * 0x1000000;
    let r1 = (b[1] as u32) * 0x10000;
    let r2 = (b[2] as u32) * 0x100;
    let r3 = b[3] as u32;
    r0 + r1 + r2 + r3
}

/// Wraps a text payload into a frame; `None` when the payload is too long for
/// the 32-bit length prefix.
pub fn encode_text_frame(s: &str) -> (r: Option<Vec<u8>>)
    ensures
        match r {
            Some(v) => s.spec_bytes().len() <= u32::MAX && v@ == text_frame(s@),
            None => s.spec_bytes().len() > u32::MAX,
        },
{
    let mut bytes = s.as_bytes_vec();
    if bytes.len() > u32::MAX as usize {
        return None;
    }
    let n = bytes.len() as u32;
    let mut out = encode_len(n);
    out.append(&mut bytes);
    proof {
        assert(out@ =~= text_frame(s@));
    }
    Some(out)
}

/// Relies on str::from_utf8 (std): returns the text that the given bytes
/// encode as UTF-8, and an error exactly when they are not valid UTF-8.
#[verifier::external_body]
fn bytes_to_string(b: &Vec<u8>) -> (r: Option<String>)
    ensures
        match r {
            Some(s) => valid_utf8(b@) && s@ == decode_utf8(b@),
            None => !valid_utf8(b@),
        },
{
    match core::str::from_utf8(b.as_slice()) {
        Ok(s) => Some(s.to_string()),
        Err(_) => None,
    }
}

/// Reads the text carried by one complete frame; `None` when the frame is
/// incomplete, over-long, or not valid UTF-8.
pub fn decode_text_frame(buf: &Vec<u8>) -> (r: Option<String>)
    ensures
        match r {
            Some(t) => parse_text_frame(buf@) == Some(t@),
            None => parse_text_frame(buf@) is None,
        },
{
    if buf.len() < 4 {
        return None;
    }
    let n = read_be32(buf);
    if (buf.len() - 4) as u64 != n as u64 {
        return None;
    }
    let mut payload: Vec<u8> = Vec::new();
    let mut i: usize = 4;
    while i < buf.len()
        invariant
            4 <= i <= buf@.len(),
            payload@ =~= buf@.subrange(4, i as int),
        decreases buf@.len() - i,
    {
        payload.push(buf[i]);
        i = i + 1;
    }
    proof {
        assert(payload@ =~= buf@.skip(4));
    }
    bytes_to_string(&payload)
}

} // verus!
