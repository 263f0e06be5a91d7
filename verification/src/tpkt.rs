//! TPKT framing (RFC 1006): a 4-byte header — version `3`, one reserved byte,
//! and a big-endian 16-bit total length (header included) — followed by the
//! X.224 payload.

use vstd::prelude::*;
use crate::wire::{be16, get_be16, put_bytes, put_u16_be, put_u8, read_u16_be, slice_range};
use crate::{is_protocol, is_short, Error, Result};

verus! {

/// TPKT version byte — always 3.
pub const TPKT_VERSION: u8 = 3;
/// Size of the TPKT header in bytes.
pub const TPKT_HEADER_LEN: usize = 4;
/// Largest payload a single TPKT can carry (the u16 length minus the header).
pub const MAX_TPKT_PAYLOAD: usize = 65531;

/// The TPKT packet carrying `payload`.
pub open spec fn spec_encode(payload: Seq<u8>) -> Seq<u8> {
    seq![TPKT_VERSION, 0u8] + be16((payload.len() + 4) as u16) + payload
}

/// The total length a well-formed TPKT header declares, if any.
pub open spec fn spec_peek_total_len(buf: Seq<u8>) -> Option<nat> {
    if buf.len() < 4 || buf[0] != TPKT_VERSION || get_be16(buf, 2) < 4 {
        None
    } else {
        Some(get_be16(buf, 2) as nat)
    }
}

/// The X.224 payload of a complete TPKT packet, if `buf` holds one.
pub open spec fn spec_decode(buf: Seq<u8>) -> Option<Seq<u8>> {
    match spec_peek_total_len(buf) {
        Some(total) => if buf.len() < total {
            None
        } else {
            Some(buf.subrange(4, total as int))
        },
        None => None,
    }
}

/// Wrap `payload` in a TPKT header, returning the full packet.
pub fn encode(payload: &[u8]) -> (r: Result<Vec<u8>>)
    ensures
        payload.len() > MAX_TPKT_PAYLOAD <==> r is Err,
        r matches Err(e) ==> e is Protocol,
        r matches Ok(v) ==> v@ == spec_encode(payload@),
{
    if payload.len() > MAX_TPKT_PAYLOAD {
        return Err(Error::Protocol("TPKT payload exceeds u16 length"));
    }
    let total = (payload.len() + TPKT_HEADER_LEN) as u16;
    let mut out: Vec<u8> = Vec::with_capacity(total as usize);
    put_u8(&mut out, TPKT_VERSION);
    put_u8(&mut out, 0);
    put_u16_be(&mut out, total);
    put_bytes(&mut out, payload);
    Ok(out)
}

/// Parse a TPKT header off the front of `buf` and return the declared total
/// packet length (header + payload). Does not consume.
pub fn peek_total_len(buf: &[u8]) -> (r: Result<usize>)
    ensures
        r matches Ok(n) ==> spec_peek_total_len(buf@) == Some(n as nat),
        r is Err ==> spec_peek_total_len(buf@) is None,
        buf.len() < 4 ==> is_short(r, 4, buf.len() as int),
        buf.len() >= 4 && spec_peek_total_len(buf@) is None ==> is_protocol(r),
{
    if buf.len() < TPKT_HEADER_LEN {
        return Err(Error::Short { need: TPKT_HEADER_LEN, have: buf.len() });
    }
    if buf[0] != TPKT_VERSION {
        return Err(Error::Protocol("bad TPKT version"));
    }
    let total = read_u16_be(buf, 2) as usize;
    if total < TPKT_HEADER_LEN {
        return Err(Error::Protocol("TPKT length shorter than header"));
    }
    Ok(total)
}

/// Strip the TPKT header from a complete packet, returning the X.224 payload.
pub fn decode(buf: &[u8]) -> (r: Result<&[u8]>)
    ensures
        r matches Ok(p) ==> spec_decode(buf@) == Some(p@),
        r is Err ==> spec_decode(buf@) is None,
        buf.len() < 4 ==> is_short(r, 4, buf.len() as int),
        buf.len() >= 4 && spec_peek_total_len(buf@) is None ==> is_protocol(r),
        spec_peek_total_len(buf@) is Some && buf.len() < spec_peek_total_len(buf@)->0 ==> is_short(
            r,
            spec_peek_total_len(buf@)->0 as int,
            buf.len() as int,
        ),
{
    let total = peek_total_len(buf)?;
    if buf.len() < total {
        return Err(Error::Short { need: total, have: buf.len() });
    }
    Ok(slice_range(buf, TPKT_HEADER_LEN, total))
}

/// Decoding an encoded packet gives back the payload.
pub proof fn lemma_decode_encode(payload: Seq<u8>)
    requires
        payload.len() <= MAX_TPKT_PAYLOAD,
    ensures
        spec_decode(spec_encode(payload)) == Some(payload),
        spec_peek_total_len(spec_encode(payload)) == Some(payload.len() + 4),
{
    let e = spec_encode(payload);
    let t = (payload.len() + 4) as u16;
    assert(e[2] == be16(t)[0]);
    assert(e[3] == be16(t)[1]);
    assert(get_be16(e, 2) == t);
    assert(e.subrange(4, e.len() as int) =~= payload);
}

} // verus!
