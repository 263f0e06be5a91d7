//! Post-connection framing: after the connection sequence the server sends
//! either slow-path TPKT packets or fast-path output PDUs, told apart by their
//! first byte. Reading the bytes is the caller's I/O; the lengths to read are
//! computed here.

use vstd::prelude::*;
use crate::tpkt::TPKT_VERSION;
use crate::wire::{fold_usize, read_fold_usize};

verus! {

/// A post-connection frame from the server.
#[derive(Clone, Debug)]
pub enum Frame {
    /// Slow-path PDU: the MCS payload (X.224 already stripped).
    SlowPath(Vec<u8>),
    /// Fast-path output PDU (complete, including its header).
    FastPath(Vec<u8>),
}

/// Whether a frame whose first byte is `first` is a slow-path TPKT packet
/// (otherwise it is a fast-path PDU).
pub fn is_slow_path(first: u8) -> (r: bool)
    ensures
        r == (first == TPKT_VERSION),
{
    first == TPKT_VERSION
}

/// The total length of a fast-path PDU and how many length bytes it has, from
/// its first length byte and, when that byte's high bit is set, the second.
pub fn fast_path_length(first: u8, second: u8) -> (r: (usize, usize))
    ensures
        first < 0x80 ==> r == (first as usize, 1usize),
        first >= 0x80 ==> r == (((first - 0x80) * 256 + second) as usize, 2usize),
{
    if first & 0x80 == 0 {
        assert(first & 0x80 == 0 ==> first < 0x80) by (bit_vector);
        (first as usize, 1)
    } else {
        assert(first & 0x80 != 0 ==> first >= 0x80 && first & 0x7f == first - 0x80) by (bit_vector);
        let high: usize = (first & 0x7f) as usize;
        (high * 256 + second as usize, 2)
    }
}

/// The content length of a DER TLV, from the first length byte and, in the
/// long form, the length bytes that follow it (shifted in big-endian into a
/// word, high bytes falling off the top).
pub fn der_content_length(first: u8, len_bytes: &[u8]) -> (r: usize)
    ensures
        first < 0x80 ==> r == first,
        first >= 0x80 ==> r == fold_usize(len_bytes@),
{
    if first < 0x80 {
        first as usize
    } else {
        let r = read_fold_usize(len_bytes, 0, len_bytes.len());
        assert(len_bytes@.subrange(0, len_bytes.len() as int) =~= len_bytes@);
        r
    }
}

/// How many length bytes follow the first length byte of a DER TLV.
pub fn der_length_bytes(first: u8) -> (r: usize)
    ensures
        first < 0x80 ==> r == 0,
        first >= 0x80 ==> r == first - 0x80,
{
    if first < 0x80 {
        0
    } else {
        (first - 0x80) as usize
    }
}

} // verus!
