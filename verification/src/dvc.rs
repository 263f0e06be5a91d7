//! The dynamic virtual channel extension (DRDYNVC). It rides over the static
//! "drdynvc" virtual channel and multiplexes named dynamic channels (such as
//! the graphics channel). Each PDU starts with a header byte packing the
//! command (high nibble) and the channel-id width cbChId (low 2 bits).

use vstd::prelude::*;
use crate::text::{spec_utf8_lossy, utf8_lossy};
use crate::wire::{get_le16, get_le32, le16, le32, put_bytes, put_u16_le, put_u32_le, put_u8, read_u16_le, read_u32_le, slice_range, to_vec};
use crate::{is_short, Error, Result};

verus! {

pub const CMD_CREATE: u8 = 0x01;
pub const CMD_DATA_FIRST: u8 = 0x02;
pub const CMD_DATA: u8 = 0x03;
pub const CMD_CLOSE: u8 = 0x04;
pub const CMD_CAPABILITY: u8 = 0x05;
pub const CMD_SOFT_SYNC_REQUEST: u8 = 0x08;

/// The header byte: command, Sp and cbChId.
pub open spec fn spec_header_byte(cmd: u8, sp: u8, cb_chid: u8) -> u8 {
    (((cmd as int * 16) % 256) + (sp % 4) * 4 + cb_chid % 4) as u8
}

fn header_byte(cmd: u8, sp: u8, cb_chid: u8) -> (r: u8)
    ensures
        r == spec_header_byte(cmd, sp, cb_chid),
{
    let r = (cmd << 4) | ((sp & 0x03) << 2) | (cb_chid & 0x03);
    assert(r == (((cmd as int * 16) % 256) + (sp % 4) * 4 + cb_chid % 4) as u8) by (bit_vector)
        requires
            r == (cmd << 4) | ((sp & 0x03) << 2) | (cb_chid & 0x03),
    ;
    r
}

/// A channel id at the width `cb_chid` selects (0: 1 byte, 1: 2 bytes, else 4).
pub open spec fn spec_channel_id(id: u32, cb_chid: u8) -> Seq<u8> {
    if cb_chid == 0 {
        seq![(id % 256) as u8]
    } else if cb_chid == 1 {
        le16((id % 0x1_0000) as u16)
    } else {
        le32(id)
    }
}

fn write_channel_id(out: &mut Vec<u8>, id: u32, cb_chid: u8)
    ensures
        final(out)@ == old(out)@ + spec_channel_id(id, cb_chid),
{
    if cb_chid == 0 {
        put_u8(out, (id % 256) as u8);
    } else if cb_chid == 1 {
        put_u16_le(out, (id % 0x1_0000) as u16);
    } else {
        put_u32_le(out, id);
    }
}

/// The smallest cbChId that holds `id`.
pub open spec fn spec_cb_chid_for(id: u32) -> u8 {
    if id <= 0xFF {
        0
    } else if id <= 0xFFFF {
        1
    } else {
        2
    }
}

fn cb_chid_for(id: u32) -> (r: u8)
    ensures
        r == spec_cb_chid_for(id),
{
    if id <= 0xFF {
        0
    } else if id <= 0xFFFF {
        1
    } else {
        2
    }
}

/// The size of a field of width `cb` (0: 1 byte, 1: 2 bytes, else 4).
pub open spec fn id_width(cb: u8) -> nat {
    if cb == 0 {
        1
    } else if cb == 1 {
        2
    } else {
        4
    }
}

/// The little-endian value of width `cb` at the front of `b`.
pub open spec fn spec_read_id(b: Seq<u8>, cb: u8) -> u32 {
    if cb == 0 {
        b[0] as u32
    } else if cb == 1 {
        get_le16(b, 0) as u32
    } else {
        get_le32(b, 0)
    }
}

fn read_channel_id(buf: &[u8], cb_chid: u8) -> (r: Result<(u32, usize)>)
    ensures
        buf.len() < id_width(cb_chid) ==> is_short(r, id_width(cb_chid) as int, buf.len() as int),
        buf.len() >= id_width(cb_chid) ==> r == Ok::<(u32, usize), Error>(
            (spec_read_id(buf@, cb_chid), id_width(cb_chid) as usize),
        ),
{
    let need: usize = if cb_chid == 0 {
        1
    } else if cb_chid == 1 {
        2
    } else {
        4
    };
    if buf.len() < need {
        return Err(Error::Short { need, have: buf.len() });
    }
    let v = if cb_chid == 0 {
        buf[0] as u32
    } else if cb_chid == 1 {
        read_u16_le(buf, 0) as u32
    } else {
        read_u32_le(buf, 0)
    };
    Ok((v, need))
}

/// A parsed inbound dynamic channel PDU.
#[derive(Clone, Debug, PartialEq, Eq)]
pub enum DvcPdu {
    Capabilities { version: u16 },
    Create { channel_id: u32, name: String },
    Data { channel_id: u32, data: Vec<u8> },
    DataFirst { channel_id: u32, total_length: u32, data: Vec<u8> },
    Close { channel_id: u32 },
    Other { cmd: u8 },
}

/// The contents of a dynamic channel PDU.
pub enum DvcView {
    Capabilities { version: u16 },
    Create { channel_id: u32, name: Seq<char> },
    Data { channel_id: u32, data: Seq<u8> },
    DataFirst { channel_id: u32, total_length: u32, data: Seq<u8> },
    Close { channel_id: u32 },
    Other { cmd: u8 },
}

impl View for DvcPdu {
    type V = DvcView;

    open spec fn view(&self) -> DvcView {
        match self {
            DvcPdu::Capabilities { version } => DvcView::Capabilities { version: *version },
            DvcPdu::Create { channel_id, name } => DvcView::Create { channel_id: *channel_id, name: name@ },
            DvcPdu::Data { channel_id, data } => DvcView::Data { channel_id: *channel_id, data: data@ },
            DvcPdu::DataFirst { channel_id, total_length, data } => DvcView::DataFirst {
                channel_id: *channel_id,
                total_length: *total_length,
                data: data@,
            },
            DvcPdu::Close { channel_id } => DvcView::Close { channel_id: *channel_id },
            DvcPdu::Other { cmd } => DvcView::Other { cmd: *cmd },
        }
    }
}

/// The index of the first NUL of `b` at or after `i`, or `b.len()`.
pub open spec fn nul_at(b: Seq<u8>, i: nat) -> nat
    decreases b.len() - i,
{
    if i >= b.len() {
        b.len()
    } else if b[i as int] == 0 {
        i
    } else {
        nul_at(b, i + 1)
    }
}

fn find_nul(b: &[u8]) -> (r: usize)
    ensures
        r == nul_at(b@, 0),
        r <= b.len(),
{
    let mut i: usize = 0;
    while i < b.len()
        invariant
            i <= b.len(),
            nul_at(b@, 0) == nul_at(b@, i as nat),
        decreases b.len() - i,
    {
        if b[i] == 0 {
            return i;
        }
        i = i + 1;
    }
    i
}

/// What a dynamic channel PDU parses to, or the bytes needed and available.
pub open spec fn spec_parse(pdu: Seq<u8>) -> core::result::Result<DvcView, (int, int)> {
    if pdu.len() == 0 {
        Err((1, 0))
    } else {
        let header = pdu[0];
        let cmd = header / 16;
        let sp = (header / 4) % 4;
        let cb = header % 4;
        let b = pdu.subrange(1, pdu.len() as int);
        let w = id_width(cb);
        if cmd == CMD_CAPABILITY {
            if b.len() < 3 {
                Err((3, b.len() as int))
            } else {
                Ok(DvcView::Capabilities { version: get_le16(b, 1) })
            }
        } else if cmd == CMD_CREATE || cmd == CMD_DATA || cmd == CMD_DATA_FIRST || cmd == CMD_CLOSE {
            if b.len() < w {
                Err((w as int, b.len() as int))
            } else {
                let id = spec_read_id(b, cb);
                let rest = b.subrange(w as int, b.len() as int);
                if cmd == CMD_CREATE {
                    Ok(DvcView::Create { channel_id: id, name: spec_utf8_lossy(rest.subrange(0, nul_at(rest, 0) as int)) })
                } else if cmd == CMD_DATA {
                    Ok(DvcView::Data { channel_id: id, data: rest })
                } else if cmd == CMD_DATA_FIRST {
                    let lw = id_width(sp);
                    if rest.len() < lw {
                        Err((lw as int, rest.len() as int))
                    } else {
                        Ok(
                            DvcView::DataFirst {
                                channel_id: id,
                                total_length: spec_read_id(rest, sp),
                                data: rest.subrange(lw as int, rest.len() as int),
                            },
                        )
                    }
                } else {
                    Ok(DvcView::Close { channel_id: id })
                }
            }
        } else {
            Ok(DvcView::Other { cmd })
        }
    }
}

/// Parse an inbound dynamic channel PDU (the payload of a "drdynvc" message).
/// A Create request's channel name is NUL-terminated; its bytes are decoded
/// as UTF-8, invalid sequences replaced.
pub fn parse(pdu: &[u8]) -> (r: Result<DvcPdu>)
    ensures
        r matches Ok(v) ==> spec_parse(pdu@) == Ok::<DvcView, (int, int)>(v@),
        r is Err ==> (spec_parse(pdu@) matches Err((n, h)) && is_short(r, n, h)),
{
    if pdu.len() == 0 {
        return Err(Error::Short { need: 1, have: 0 });
    }
    let header = pdu[0];
    let cmd = header >> 4;
    let sp = (header >> 2) & 0x03;
    let cb_chid = header & 0x03;
    assert(cmd == header / 16 && sp == (header / 4) % 4 && cb_chid == header % 4) by (bit_vector)
        requires
            cmd == header >> 4,
            sp == (header >> 2) & 0x03,
            cb_chid == header & 0x03,
    ;
    let b = slice_range(pdu, 1, pdu.len());
    if cmd == CMD_CAPABILITY {
        if b.len() < 3 {
            return Err(Error::Short { need: 3, have: b.len() });
        }
        return Ok(DvcPdu::Capabilities { version: read_u16_le(b, 1) });
    }
    if cmd == CMD_CREATE || cmd == CMD_DATA || cmd == CMD_DATA_FIRST || cmd == CMD_CLOSE {
        let (channel_id, w) = read_channel_id(b, cb_chid)?;
        let rest = slice_range(b, w, b.len());
        if cmd == CMD_CREATE {
            let end = find_nul(rest);
            let name = utf8_lossy(slice_range(rest, 0, end));
            return Ok(DvcPdu::Create { channel_id, name });
        } else if cmd == CMD_DATA {
            return Ok(DvcPdu::Data { channel_id, data: to_vec(rest) });
        } else if cmd == CMD_DATA_FIRST {
            let (total_length, lw) = read_channel_id(rest, sp)?;
            return Ok(DvcPdu::DataFirst { channel_id, total_length, data: to_vec(slice_range(rest, lw, rest.len())) });
        } else {
            return Ok(DvcPdu::Close { channel_id });
        }
    }
    Ok(DvcPdu::Other { cmd })
}

/// A Capabilities Response selecting `version`.
pub open spec fn spec_capabilities_response(version: u16) -> Seq<u8> {
    seq![spec_header_byte(CMD_CAPABILITY, 0, 0), 0u8] + le16(version)
}

/// Build a Capabilities Response selecting `version`.
pub fn capabilities_response(version: u16) -> (r: Vec<u8>)
    ensures
        r@ == spec_capabilities_response(version),
{
    let mut out: Vec<u8> = Vec::new();
    put_u8(&mut out, header_byte(CMD_CAPABILITY, 0, 0));
    put_u8(&mut out, 0);
    put_u16_le(&mut out, version);
    proof {
        assert(out@ =~= spec_capabilities_response(version));
    }
    out
}

/// A Create Response for `channel_id` with `status` (0 is success).
pub open spec fn spec_create_response(channel_id: u32, status: i32) -> Seq<u8> {
    let cb = spec_cb_chid_for(channel_id);
    seq![spec_header_byte(CMD_CREATE, 0, cb)] + spec_channel_id(channel_id, cb) + le32(status as u32)
}

/// Build a Create Response for `channel_id` with the given status (0 = success).
pub fn create_response(channel_id: u32, status: i32) -> (r: Vec<u8>)
    ensures
        r@ == spec_create_response(channel_id, status),
{
    let cb = cb_chid_for(channel_id);
    let mut out: Vec<u8> = Vec::new();
    put_u8(&mut out, header_byte(CMD_CREATE, 0, cb));
    write_channel_id(&mut out, channel_id, cb);
    put_u32_le(&mut out, status as u32);
    out
}

/// A Data PDU carrying `payload` on `channel_id`.
pub open spec fn spec_data(channel_id: u32, payload: Seq<u8>) -> Seq<u8> {
    let cb = spec_cb_chid_for(channel_id);
    seq![spec_header_byte(CMD_DATA, 0, cb)] + spec_channel_id(channel_id, cb) + payload
}

/// Build a Data PDU carrying `payload` on `channel_id`.
pub fn data(channel_id: u32, payload: &[u8]) -> (r: Vec<u8>)
    ensures
        r@ == spec_data(channel_id, payload@),
{
    let cb = cb_chid_for(channel_id);
    let mut out: Vec<u8> = Vec::new();
    put_u8(&mut out, header_byte(CMD_DATA, 0, cb));
    write_channel_id(&mut out, channel_id, cb);
    put_bytes(&mut out, payload);
    out
}

/// A Data PDU parses back to its channel id and payload.
pub proof fn lemma_data_roundtrip(channel_id: u32, payload: Seq<u8>)
    ensures
        spec_parse(spec_data(channel_id, payload)) == Ok::<DvcView, (int, int)>(
            DvcView::Data { channel_id, data: payload },
        ),
{
    let cb = spec_cb_chid_for(channel_id);
    let p = spec_data(channel_id, payload);
    let h = spec_header_byte(CMD_DATA, 0, cb);
    assert(h / 16 == CMD_DATA && h % 4 == cb) by {
        assert(cb < 4);
    }
    let b = p.subrange(1, p.len() as int);
    let idb = spec_channel_id(channel_id, cb);
    assert(b =~= idb + payload);
    let w = id_width(cb);
    assert(idb.len() == w);
    assert(b.subrange(w as int, b.len() as int) =~= payload);
    if cb == 0 {
        assert(spec_read_id(b, cb) == channel_id);
    } else if cb == 1 {
        crate::wire::lemma_le16((channel_id % 0x1_0000) as u16);
        assert(b.subrange(0, 2) =~= idb);
        crate::wire::lemma_get_le16_at(b, 0, (channel_id % 0x1_0000) as u16);
        assert(spec_read_id(b, cb) == channel_id);
    } else {
        crate::wire::lemma_le32(channel_id);
        assert(b.subrange(0, 4) =~= idb);
        crate::wire::lemma_get_le32_at(b, 0, channel_id);
    }
}

/// A Capabilities Response parses back to its version.
pub proof fn lemma_capabilities_roundtrip(version: u16)
    ensures
        spec_parse(spec_capabilities_response(version)) == Ok::<DvcView, (int, int)>(
            DvcView::Capabilities { version },
        ),
{
    let p = spec_capabilities_response(version);
    let b = p.subrange(1, p.len() as int);
    crate::wire::lemma_le16(version);
    assert(b.subrange(1, 3) =~= le16(version));
    crate::wire::lemma_get_le16_at(b, 1, version);
}

} // verus!
