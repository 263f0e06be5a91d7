//! ASN.1 PER (ALIGNED) primitives for the MCS domain PDUs and the GCC
//! ConferenceCreate: length determinants, constrained integers and octet
//! strings. PER integers are big-endian.

use vstd::prelude::*;
use crate::wire::{be16, put_bytes, put_u16_be, put_u8, slice_range};
use crate::{is_protocol, is_short, Error, Result};

verus! {

/// The PER length determinant written for `n`: one byte below 0x80, two bytes
/// (`0x8000 | n`) below 0x4000, else the single-fragment marker `0xC1` and the
/// low 16 bits of `n`.
pub open spec fn spec_length(n: nat) -> Seq<u8> {
    if n < 0x80 {
        seq![n as u8]
    } else if n < 0x4000 {
        be16((n + 0x8000) as u16)
    } else {
        seq![0xC1u8] + be16((n % 65536) as u16)
    }
}

/// The length determinant at the front of `s` and how many bytes it takes.
pub open spec fn spec_read_length(s: Seq<u8>) -> Option<(usize, int)> {
    if s.len() == 0 {
        None
    } else if s[0] < 0x80 {
        Some((s[0] as usize, 1))
    } else if s[0] < 0xC0 {
        if s.len() < 2 {
            None
        } else {
            Some((((s[0] - 0x80) * 256 + s[1]) as usize, 2))
        }
    } else {
        None
    }
}

/// Write a PER length determinant (ALIGNED).
pub fn write_length(out: &mut Vec<u8>, n: usize)
    ensures
        final(out)@ == old(out)@ + spec_length(n as nat),
{
    if n < 0x80 {
        put_u8(out, n as u8);
    } else if n < 0x4000 {
        put_u16_be(out, (n + 0x8000) as u16);
    } else {
        put_u8(out, 0xC1);
        put_u16_be(out, (n % 65536) as u16);
    }
    proof {
        assert(final(out)@ =~= old(out)@ + spec_length(n as nat));
    }
}

/// Read a PER length determinant, advancing past it.
pub fn read_length(buf: &mut &[u8]) -> (r: Result<usize>)
    ensures
        r matches Ok(v) ==> spec_read_length(old(buf)@) matches Some((n, k)) && n == v
            && final(buf)@ == old(buf)@.subrange(k, old(buf)@.len() as int),
        r is Err <==> spec_read_length(old(buf)@) is None,
        old(buf)@.len() == 0 ==> is_short(r, 1, 0),
        old(buf)@.len() > 0 && old(buf)@[0] >= 0xC0 ==> is_protocol(r),
        old(buf)@.len() == 1 && 0x80 <= old(buf)@[0] < 0xC0 ==> is_short(r, 1, 0),
{
    let b: &[u8] = *buf;
    if b.len() == 0 {
        return Err(Error::Short { need: 1, have: 0 });
    }
    let first = b[0];
    *buf = slice_range(b, 1, b.len());
    if first < 0x80 {
        Ok(first as usize)
    } else if first < 0xC0 {
        if b.len() < 2 {
            return Err(Error::Short { need: 1, have: 0 });
        }
        let lo = b[1];
        *buf = slice_range(b, 2, b.len());
        Ok(((first - 0x80) as usize) * 256 + lo as usize)
    } else {
        Err(Error::Protocol("unsupported PER fragmented length"))
    }
}

/// Write a constrained INTEGER in the 16-bit range as a big-endian u16.
pub fn write_u16(out: &mut Vec<u8>, v: u16)
    ensures
        final(out)@ == old(out)@ + be16(v),
{
    put_u16_be(out, v);
}

/// Write a CHOICE index / small enumerated value as one byte.
pub fn write_u8(out: &mut Vec<u8>, v: u8)
    ensures
        final(out)@ == old(out)@.push(v),
{
    put_u8(out, v);
}

/// Encode an OBJECT IDENTIFIER as a PER octet string (length determinant + bytes).
pub fn write_object_identifier(out: &mut Vec<u8>, oid_encoded: &[u8])
    ensures
        final(out)@ == old(out)@ + spec_length(oid_encoded.len() as nat) + oid_encoded@,
{
    write_length(out, oid_encoded.len());
    put_bytes(out, oid_encoded);
}

/// Encode an OCTET STRING with a PER length determinant.
pub fn write_octet_string(out: &mut Vec<u8>, bytes: &[u8])
    ensures
        final(out)@ == old(out)@ + spec_length(bytes.len() as nat) + bytes@,
{
    write_length(out, bytes.len());
    put_bytes(out, bytes);
}

/// Reading back a written length gives the length, for every length the
/// one- and two-byte forms cover.
pub proof fn lemma_read_length(n: usize, rest: Seq<u8>)
    requires
        n < 0x4000,
    ensures
        spec_read_length(spec_length(n as nat) + rest) == Some((n, spec_length(n as nat).len() as int)),
{
}

} // verus!
