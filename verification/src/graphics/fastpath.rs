//! Fast-path server output PDU parsing. Fast-path is the compact framing the
//! server uses for graphics and pointer updates once the connection is active:
//! a 1-byte header, a 1- or 2-byte length, then a sequence of updates. Under
//! TLS there is no per-PDU signature.

use vstd::prelude::*;
use crate::wire::{get_le16, read_u16_le, slice_range, to_vec};
use crate::{is_protocol, is_short, Error, Result};

verus! {

/// Fast-path update codes.
pub const UPDATETYPE_ORDERS: u8 = 0x0;
pub const UPDATETYPE_BITMAP: u8 = 0x1;
pub const UPDATETYPE_PALETTE: u8 = 0x2;
pub const UPDATETYPE_SYNCHRONIZE: u8 = 0x3;
pub const UPDATETYPE_SURFCMDS: u8 = 0x4;
pub const UPDATETYPE_PTR_NULL: u8 = 0x5;
pub const UPDATETYPE_PTR_DEFAULT: u8 = 0x6;
pub const UPDATETYPE_PTR_POSITION: u8 = 0x8;
pub const UPDATETYPE_COLOR: u8 = 0x9;
pub const UPDATETYPE_CACHED: u8 = 0xA;
pub const UPDATETYPE_POINTER: u8 = 0xB;

/// Fragmentation states (updateHeader bits 4-5).
pub const FRAGMENT_SINGLE: u8 = 0x0;
pub const FRAGMENT_LAST: u8 = 0x1;
pub const FRAGMENT_FIRST: u8 = 0x2;
pub const FRAGMENT_NEXT: u8 = 0x3;

pub const FASTPATH_OUTPUT_COMPRESSION_USED: u8 = 0x2;

/// One parsed fast-path update: its code plus the raw update data.
#[derive(Clone, Debug, PartialEq, Eq)]
pub struct FastPathUpdate {
    pub update_code: u8,
    pub fragmentation: u8,
    pub data: Vec<u8>,
}

/// The contents of a fast-path update.
pub struct UpdateView {
    pub update_code: u8,
    pub fragmentation: u8,
    pub data: Seq<u8>,
}

impl View for FastPathUpdate {
    type V = UpdateView;

    open spec fn view(&self) -> UpdateView {
        UpdateView { update_code: self.update_code, fragmentation: self.fragmentation, data: self.data@ }
    }
}

/// The updates a vector holds.
pub open spec fn update_views(v: Seq<FastPathUpdate>) -> Seq<UpdateView> {
    Seq::new(v.len(), |i: int| v[i]@)
}

/// A fast-path length at the front of `s` and its size: one byte when the high
/// bit is clear, else two bytes big-endian with that bit masked off.
pub open spec fn spec_fp_length(s: Seq<u8>) -> core::result::Result<(nat, nat), (int, int)> {
    if s.len() == 0 {
        Err((1, 0))
    } else if s[0] & 0x80 == 0 {
        Ok((s[0] as nat, 1))
    } else if s.len() < 2 {
        Err((2, s.len() as int))
    } else {
        Ok(((s[0] & 0x7f) as nat * 256 + s[1] as nat, 2))
    }
}

fn read_fp_length(s: &[u8]) -> (r: Result<(usize, usize)>)
    ensures
        r matches Ok((n, k)) ==> spec_fp_length(s@) == Ok::<(nat, nat), (int, int)>((n as nat, k as nat)),
        r is Err ==> (spec_fp_length(s@) matches Err((n, h)) && is_short(r, n, h)),
{
    if s.len() == 0 {
        return Err(Error::Short { need: 1, have: 0 });
    }
    let b0 = s[0];
    if b0 & 0x80 == 0 {
        Ok((b0 as usize, 1))
    } else if s.len() < 2 {
        Err(Error::Short { need: 2, have: s.len() })
    } else {
        Ok(((b0 & 0x7f) as usize * 256 + s[1] as usize, 2))
    }
}

/// One update at the front of `b` and the bytes it takes: updateHeader (code,
/// fragmentation, compression), the compressionFlags byte when compression is
/// used, a 16-bit size and that many data bytes.
pub open spec fn spec_update(b: Seq<u8>) -> core::result::Result<(UpdateView, int), (int, int)> {
    let hdr = b[0];
    let skip: int = if (hdr >> 6) & 0x03 & FASTPATH_OUTPUT_COMPRESSION_USED != 0 { 1 } else { 0 };
    if b.len() - 1 < skip {
        Err((1, 0))
    } else if b.len() - 1 - skip < 2 {
        Err((2, b.len() - 1 - skip))
    } else {
        let size = get_le16(b, 1 + skip) as int;
        let start = 3 + skip;
        if b.len() - start < size {
            Err((size, b.len() - start))
        } else {
            Ok(
                (
                    UpdateView {
                        update_code: hdr & 0x0f,
                        fragmentation: (hdr >> 4) & 0x03,
                        data: b.subrange(start, start + size),
                    },
                    start + size,
                ),
            )
        }
    }
}

/// Every update of a fast-path body, in order.
pub open spec fn spec_updates(b: Seq<u8>) -> core::result::Result<Seq<UpdateView>, (int, int)>
    decreases b.len(),
{
    if b.len() == 0 {
        Ok(Seq::empty())
    } else {
        match spec_update(b) {
            Err(e) => Err(e),
            Ok((u, k)) => if 0 < k <= b.len() {
                match spec_updates(b.subrange(k, b.len() as int)) {
                    Err(e) => Err(e),
                    Ok(rest) => Ok(seq![u] + rest),
                }
            } else {
                Err((0, 0))
            },
        }
    }
}

/// What a fast-path output PDU holds: its updates, a short read (bytes needed
/// and available), or a protocol violation (a header that is not the fast-path
/// action, or one with security flags).
pub enum OutputPdu {
    Updates(Seq<UpdateView>),
    Short(int, int),
    Violation,
}

/// The updates of a fast-path output PDU. The length counts from the header;
/// a length smaller than the header takes the rest of the PDU.
pub open spec fn spec_parse_output_pdu(pdu: Seq<u8>) -> OutputPdu {
    if pdu.len() == 0 {
        OutputPdu::Short(1, 0)
    } else if pdu[0] & 0x03 != 0 || pdu[0] & 0xC0 != 0 {
        OutputPdu::Violation
    } else {
        let s = pdu.subrange(1, pdu.len() as int);
        match spec_fp_length(s) {
            Err((n, h)) => OutputPdu::Short(n, h),
            Ok((total, k)) => {
                let buf = s.subrange(k as int, s.len() as int);
                let consumed = 1 + k;
                let body_len: int = if total >= consumed { total - consumed } else { buf.len() as int };
                if buf.len() < body_len {
                    OutputPdu::Short(body_len, buf.len() as int)
                } else {
                    match spec_updates(buf.subrange(0, body_len)) {
                        Err((n, h)) => OutputPdu::Short(n, h),
                        Ok(us) => OutputPdu::Updates(us),
                    }
                }
            },
        }
    }
}

fn parse_update(b: &[u8]) -> (r: Result<(FastPathUpdate, usize)>)
    requires
        b.len() > 0,
    ensures
        r matches Ok((u, k)) ==> spec_update(b@) == Ok::<(UpdateView, int), (int, int)>((u@, k as int)),
        r is Err ==> (spec_update(b@) matches Err((n, h)) && is_short(r, n, h)),
{
    let hdr = b[0];
    let update_code = hdr & 0x0f;
    let fragmentation = (hdr >> 4) & 0x03;
    let compression = (hdr >> 6) & 0x03;
    let mut at: usize = 1;
    if compression & FASTPATH_OUTPUT_COMPRESSION_USED != 0 {
        if b.len() - 1 < 1 {
            return Err(Error::Short { need: 1, have: 0 });
        }
        at = 2;
    }
    if b.len() - at < 2 {
        return Err(Error::Short { need: 2, have: b.len() - at });
    }
    let size = read_u16_le(b, at) as usize;
    let start = at + 2;
    if b.len() - start < size {
        return Err(Error::Short { need: size, have: b.len() - start });
    }
    let data = to_vec(slice_range(b, start, start + size));
    Ok((FastPathUpdate { update_code, fragmentation, data }, start + size))
}

/// Parse a complete fast-path output PDU, returning all its updates. The
/// header's action bits must be 0 (fast-path) and its security flags clear.
pub fn parse_output_pdu(pdu: &[u8]) -> (r: Result<Vec<FastPathUpdate>>)
    ensures
        match spec_parse_output_pdu(pdu@) {
            OutputPdu::Updates(us) => r matches Ok(v) && update_views(v@) == us,
            OutputPdu::Short(n, h) => is_short(r, n, h),
            OutputPdu::Violation => is_protocol(r),
        },
{
    if pdu.len() == 0 {
        return Err(Error::Short { need: 1, have: 0 });
    }
    let header = pdu[0];
    if header & 0x03 != 0 {
        return Err(Error::Protocol("not a fast-path output PDU"));
    }
    if header & 0xC0 != 0 {
        return Err(Error::Protocol("unexpected fast-path security flags under TLS"));
    }
    let s = slice_range(pdu, 1, pdu.len());
    let (total_len, k) = read_fp_length(s)?;
    let buf = slice_range(s, k, s.len());
    let consumed = 1 + k;
    let body_len = if total_len >= consumed { total_len - consumed } else { buf.len() };
    if buf.len() < body_len {
        return Err(Error::Short { need: body_len, have: buf.len() });
    }
    let mut body = slice_range(buf, 0, body_len);
    let ghost body0 = body@;
    let mut updates: Vec<FastPathUpdate> = Vec::new();
    assert(spec_parse_output_pdu(pdu@) == (match spec_updates(body0) {
        Err((n, h)) => OutputPdu::Short(n, h),
        Ok(us) => OutputPdu::Updates(us),
    }));
    while body.len() > 0
        invariant
            spec_parse_output_pdu(pdu@) == (match spec_updates(body0) {
                Err((n, h)) => OutputPdu::Short(n, h),
                Ok(us) => OutputPdu::Updates(us),
            }),
            spec_updates(body0) == (match spec_updates(body@) {
                Err(e) => Err(e),
                Ok(tail) => Ok::<Seq<UpdateView>, (int, int)>(update_views(updates@) + tail),
            }),
        decreases body.len(),
    {
        let (u, n) = parse_update(body)?;
        let ghost prev = updates@;
        updates.push(u);
        proof {
            assert(update_views(updates@) =~= update_views(prev) + seq![u@]);
            match spec_updates(body@.subrange(n as int, body@.len() as int)) {
                Err(e) => {},
                Ok(tail) => {
                    assert(update_views(prev) + (seq![u@] + tail) =~= update_views(updates@) + tail);
                },
            }
        }
        body = slice_range(body, n, body.len());
    }
    proof {
        assert(update_views(updates@) + Seq::<UpdateView>::empty() =~= update_views(updates@));
    }
    Ok(updates)
}

/// The bytes before an update's data: updateHeader, compressionFlags when
/// compression is used, and the 16-bit size.
pub open spec fn update_header_len(hdr: u8) -> int {
    if (hdr >> 6) & 0x03 & FASTPATH_OUTPUT_COMPRESSION_USED != 0 {
        4
    } else {
        3
    }
}

/// The offset in `b` at which the `i`-th update starts: the first at 0, each
/// next one right after the previous one's data.
pub open spec fn update_offset(b: Seq<u8>, i: nat) -> int
    decreases b.len(),
{
    if i == 0 || b.len() == 0 {
        0
    } else {
        match spec_update(b) {
            Ok((_, k)) => if 0 < k <= b.len() {
                k + update_offset(b.subrange(k, b.len() as int), (i - 1) as nat)
            } else {
                0
            },
            Err(_) => 0,
        }
    }
}

/// `u` is the update framed at offset `o` of `b`, ending at `end`: its code
/// and fragmentation are the low and middle bits of the header byte there, the
/// 16-bit size before the data is the data's length, and the data fills the
/// bytes up to `end`.
pub open spec fn update_at(b: Seq<u8>, o: int, end: int, u: UpdateView) -> bool {
    let h = update_header_len(b[o]);
    &&& 0 <= o < b.len()
    &&& u.update_code == b[o] & 0x0f && u.update_code < 16
    &&& u.fragmentation == (b[o] >> 4) & 0x03 && u.fragmentation < 4
    &&& get_le16(b, o + h - 2) == u.data.len()
    &&& end == o + h + u.data.len() <= b.len()
    &&& u.data == b.subrange(o + h, end)
}

proof fn lemma_header_bits(hdr: u8)
    by (bit_vector)
    ensures
        hdr & 0x0f < 16,
        (hdr >> 4) & 0x03 < 4,
{
}

/// A fast-path body that parses is exactly its updates framed one after the
/// other: the `i`-th update is framed at `update_offset(b, i)` and ends where
/// the next one starts, and the last one ends at the end of the body. Every
/// update code is below 16 and every fragmentation below 4.
pub proof fn lemma_updates_framing(b: Seq<u8>, i: nat)
    ensures
        spec_updates(b) matches Ok(us) ==> {
            &&& update_offset(b, us.len()) == b.len()
            &&& i < us.len() ==> update_at(b, update_offset(b, i), update_offset(b, i + 1), us[i as int])
        },
    decreases b.len(),
{
    if b.len() > 0 {
        if let Ok((u, k)) = spec_update(b) {
            if 0 < k <= b.len() {
                let t = b.subrange(k, b.len() as int);
                lemma_updates_framing(t, (i - 1) as nat);
                if let Ok(rest) = spec_updates(t) {
                    let us = seq![u] + rest;
                    assert(spec_updates(b) == Ok::<Seq<UpdateView>, (int, int)>(us));
                    lemma_updates_framing(t, 0);
                    assert(update_offset(b, us.len()) == k + update_offset(t, rest.len()));
                    if i == 0 {
                        lemma_header_bits(b[0]);
                        assert(update_offset(b, 1) == k + update_offset(t, 0));
                        assert(update_at(b, 0, k, u));
                    } else if i < us.len() {
                        let o2 = update_offset(t, (i - 1) as nat);
                        let e2 = update_offset(t, i as nat);
                        assert(us[i as int] == rest[i - 1]);
                        assert(update_offset(b, i) == k + o2);
                        assert(update_offset(b, i + 1) == k + e2);
                        let h = update_header_len(t[o2]);
                        assert(t[o2] == b[k + o2]);
                        assert(get_le16(t, o2 + h - 2) == get_le16(b, k + o2 + h - 2));
                        assert(t.subrange(o2 + h, e2) =~= b.subrange(k + o2 + h, k + e2));
                        assert(update_at(b, k + o2, k + e2, us[i as int]));
                    }
                }
            }
        }
    }
}

/// The updates of a fast-path output PDU fill its body, framed one after the
/// other (see [`lemma_updates_framing`]); the body is the bytes after the
/// header and length, up to the length the header gives.
pub proof fn lemma_output_pdu_framing(pdu: Seq<u8>, i: nat)
    ensures
        spec_parse_output_pdu(pdu) matches OutputPdu::Updates(us) ==> {
            let s = pdu.subrange(1, pdu.len() as int);
            let k = spec_fp_length(s)->Ok_0.1;
            let total = spec_fp_length(s)->Ok_0.0;
            let buf = s.subrange(k as int, s.len() as int);
            let body_len: int = if total >= 1 + k { total - (1 + k) } else { buf.len() as int };
            let body = buf.subrange(0, body_len);
            &&& pdu[0] & 0x03 == 0 && pdu[0] & 0xC0 == 0
            &&& update_offset(body, us.len()) == body.len()
            &&& i < us.len() ==> update_at(body, update_offset(body, i), update_offset(body, i + 1), us[i as int])
        },
{
    if pdu.len() > 0 && !(pdu[0] & 0x03 != 0 || pdu[0] & 0xC0 != 0) {
        let s = pdu.subrange(1, pdu.len() as int);
        if let Ok((total, k)) = spec_fp_length(s) {
            let buf = s.subrange(k as int, s.len() as int);
            let body_len: int = if total >= 1 + k { total - (1 + k) } else { buf.len() as int };
            if buf.len() >= body_len {
                lemma_updates_framing(buf.subrange(0, body_len), i);
            }
        }
    }
}

} // verus!
