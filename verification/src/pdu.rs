//! RDP share PDU headers and the connection-finalization PDUs. Little-endian.
//! These ride inside MCS Send Data, inside the X.224 Data TPDU and TPKT.

use vstd::prelude::*;
use crate::wire::{get_le16, le16, le32, len16, len16_of, put_bytes, put_u16_le, put_u32_le, put_u8, read_u16_le, slice_range};
use crate::{is_protocol, is_short, Error, Result};

verus! {

/// TS_SHARECONTROLHEADER pduType of a Demand Active PDU.
pub const PDUTYPE_DEMANDACTIVE: u16 = 0x1;
/// TS_SHARECONTROLHEADER pduType of a Confirm Active PDU.
pub const PDUTYPE_CONFIRMACTIVE: u16 = 0x3;
/// TS_SHARECONTROLHEADER pduType of a Deactivate All PDU.
pub const PDUTYPE_DEACTIVATEALL: u16 = 0x6;
/// TS_SHARECONTROLHEADER pduType of a Data PDU.
pub const PDUTYPE_DATA: u16 = 0x7;
/// Protocol version bits carried in the high part of the pduType field.
pub const PROTOCOL_VERSION: u16 = 0x10;

/// TS_SHAREDATAHEADER pduType2 of an Update PDU.
pub const PDUTYPE2_UPDATE: u8 = 2;
/// TS_SHAREDATAHEADER pduType2 of a Control PDU.
pub const PDUTYPE2_CONTROL: u8 = 20;
/// TS_SHAREDATAHEADER pduType2 of a Synchronize PDU.
pub const PDUTYPE2_SYNCHRONIZE: u8 = 31;
/// TS_SHAREDATAHEADER pduType2 of a Font List PDU.
pub const PDUTYPE2_FONTLIST: u8 = 39;
/// TS_SHAREDATAHEADER pduType2 of a Font Map PDU.
pub const PDUTYPE2_FONTMAP: u8 = 40;
/// TS_SHAREDATAHEADER pduType2 of a Set Error Info PDU.
pub const PDUTYPE2_SET_ERROR_INFO: u8 = 47;

/// streamId STREAM_LOW.
pub const STREAM_LOW: u8 = 1;

/// A parsed TS_SHARECONTROLHEADER.
#[derive(Clone, Copy, Debug, PartialEq, Eq, Structural)]
pub struct ShareControlHeader {
    pub pdu_type: u16,
    pub pdu_source: u16,
}

/// `body` wrapped in a TS_SHARECONTROLHEADER.
pub open spec fn spec_share_control(pdu_type: u16, pdu_source: u16, body: Seq<u8>) -> Seq<u8> {
    le16(len16(body.len(), 6)) + le16(pdu_type | PROTOCOL_VERSION) + le16(pdu_source) + body
}

/// Wrap `body` in a TS_SHARECONTROLHEADER (totalLength is computed).
pub fn share_control(pdu_type: u16, pdu_source: u16, body: &[u8]) -> (r: Vec<u8>)
    ensures
        r@ == spec_share_control(pdu_type, pdu_source, body@),
{
    let mut out: Vec<u8> = Vec::new();
    put_u16_le(&mut out, len16_of(body.len(), 6));
    put_u16_le(&mut out, pdu_type | PROTOCOL_VERSION);
    put_u16_le(&mut out, pdu_source);
    put_bytes(&mut out, body);
    out
}

/// The header and inner body of a TS_SHARECONTROLHEADER-framed PDU, if any.
pub open spec fn spec_parse_share_control(buf: Seq<u8>) -> Option<(ShareControlHeader, Seq<u8>)> {
    let total = get_le16(buf, 0) as int;
    if buf.len() < 6 || total < 6 || buf.len() < total {
        None
    } else {
        Some(
            (
                ShareControlHeader { pdu_type: get_le16(buf, 2) & 0x0f, pdu_source: get_le16(buf, 4) },
                buf.subrange(6, total),
            ),
        )
    }
}

/// Parse a TS_SHARECONTROLHEADER, returning (header, inner body).
pub fn parse_share_control(buf: &[u8]) -> (r: Result<(ShareControlHeader, &[u8])>)
    ensures
        r matches Ok((h, b)) ==> spec_parse_share_control(buf@) == Some((h, b@)),
        r is Err <==> spec_parse_share_control(buf@) is None,
        buf.len() < 6 ==> is_short(r, 6, buf.len() as int),
        buf.len() >= 6 && r is Err ==> is_protocol(r),
{
    if buf.len() < 6 {
        return Err(Error::Short { need: 6, have: buf.len() });
    }
    let total = read_u16_le(buf, 0) as usize;
    let type_field = read_u16_le(buf, 2);
    let pdu_source = read_u16_le(buf, 4);
    if total < 6 || buf.len() < total {
        return Err(Error::Protocol("bad share control totalLength"));
    }
    Ok((ShareControlHeader { pdu_type: type_field & 0x0f, pdu_source }, slice_range(buf, 6, total)))
}

/// The TS_SHAREDATAHEADER fields preceding a data PDU body.
pub open spec fn spec_share_data_header(share_id: u32, pdu_type2: u8, body_len: nat) -> Seq<u8> {
    le32(share_id) + seq![0u8, STREAM_LOW] + le16(len16(body_len, 4)) + seq![pdu_type2, 0u8] + le16(0)
}

/// A full data PDU: TS_SHAREDATAHEADER inside a TS_SHARECONTROLHEADER of type DATA.
pub open spec fn spec_share_data(pdu_source: u16, share_id: u32, pdu_type2: u8, body: Seq<u8>) -> Seq<u8> {
    spec_share_control(PDUTYPE_DATA, pdu_source, spec_share_data_header(share_id, pdu_type2, body.len()) + body)
}

/// Wrap `body` in a full data PDU.
pub fn share_data(pdu_source: u16, share_id: u32, pdu_type2: u8, body: &[u8]) -> (r: Vec<u8>)
    ensures
        r@ == spec_share_data(pdu_source, share_id, pdu_type2, body@),
{
    let mut data: Vec<u8> = Vec::new();
    put_u32_le(&mut data, share_id);
    put_u8(&mut data, 0);
    put_u8(&mut data, STREAM_LOW);
    put_u16_le(&mut data, len16_of(body.len(), 4));
    put_u8(&mut data, pdu_type2);
    put_u8(&mut data, 0);
    put_u16_le(&mut data, 0);
    put_bytes(&mut data, body);
    proof {
        assert(data@ =~= spec_share_data_header(share_id, pdu_type2, body@.len()) + body@);
    }
    share_control(PDUTYPE_DATA, pdu_source, data.as_slice())
}

/// Parse a data PDU's TS_SHAREDATAHEADER, returning (pduType2, inner body).
pub fn parse_share_data(share_control_body: &[u8]) -> (r: Result<(u8, &[u8])>)
    ensures
        share_control_body.len() < 12 <==> r is Err,
        share_control_body.len() < 12 ==> is_short(r, 12, share_control_body.len() as int),
        r matches Ok((t, b)) ==> t == share_control_body@[8] && b@ == share_control_body@.subrange(
            12,
            share_control_body.len() as int,
        ),
{
    if share_control_body.len() < 12 {
        return Err(Error::Short { need: 12, have: share_control_body.len() });
    }
    let pdu_type2 = share_control_body[8];
    Ok((pdu_type2, slice_range(share_control_body, 12, share_control_body.len())))
}

/// TS_SYNCHRONIZE_PDU: messageType=1 (SYNC), targetUser.
pub fn synchronize(target_user: u16) -> (r: Vec<u8>)
    ensures
        r@ == le16(1) + le16(target_user),
{
    let mut b: Vec<u8> = Vec::new();
    put_u16_le(&mut b, 1);
    put_u16_le(&mut b, target_user);
    b
}

/// Control action: request control.
pub const CTRLACTION_REQUEST_CONTROL: u16 = 0x0001;
/// Control action: granted control.
pub const CTRLACTION_GRANTED_CONTROL: u16 = 0x0002;
/// Control action: detach.
pub const CTRLACTION_DETACH: u16 = 0x0003;
/// Control action: cooperate.
pub const CTRLACTION_COOPERATE: u16 = 0x0004;

/// TS_CONTROL_PDU: action, grantId, controlId.
pub fn control(action: u16, grant_id: u16, control_id: u32) -> (r: Vec<u8>)
    ensures
        r@ == le16(action) + le16(grant_id) + le32(control_id),
{
    let mut b: Vec<u8> = Vec::new();
    put_u16_le(&mut b, action);
    put_u16_le(&mut b, grant_id);
    put_u32_le(&mut b, control_id);
    b
}

/// TS_FONT_LIST_PDU: an empty font list (FONTLIST_FIRST | FONTLIST_LAST).
pub fn font_list() -> (r: Vec<u8>)
    ensures
        r@ == le16(0) + le16(0) + le16(0x0003) + le16(0x0032),
{
    let mut b: Vec<u8> = Vec::new();
    put_u16_le(&mut b, 0);
    put_u16_le(&mut b, 0);
    put_u16_le(&mut b, 0x0003);
    put_u16_le(&mut b, 0x0032);
    b
}

/// Parsing a share control PDU gives back its type (the low four bits), source
/// and body, whenever the total length fits the 16-bit field.
pub proof fn lemma_share_control_roundtrip(pdu_type: u16, pdu_source: u16, body: Seq<u8>)
    requires
        body.len() + 6 <= 0xFFFF,
    ensures
        spec_parse_share_control(spec_share_control(pdu_type, pdu_source, body)) == Some(
            (ShareControlHeader { pdu_type: pdu_type & 0x0f, pdu_source }, body),
        ),
{
    let s = spec_share_control(pdu_type, pdu_source, body);
    let t = pdu_type | PROTOCOL_VERSION;
    crate::wire::lemma_le16(len16(body.len(), 6));
    crate::wire::lemma_le16(t);
    crate::wire::lemma_le16(pdu_source);
    assert(s.subrange(0, 2) =~= le16(len16(body.len(), 6)));
    assert(s.subrange(2, 4) =~= le16(t));
    assert(s.subrange(4, 6) =~= le16(pdu_source));
    assert((pdu_type | 0x10u16) & 0x0fu16 == pdu_type & 0x0fu16) by (bit_vector);
    assert(s.subrange(6, s.len() as int) =~= body);
}

/// Parsing a data PDU's inner header gives back its pduType2 and body.
pub proof fn lemma_share_data_roundtrip(pdu_source: u16, share_id: u32, pdu_type2: u8, body: Seq<u8>)
    requires
        body.len() + 18 <= 0xFFFF,
    ensures
        spec_parse_share_control(spec_share_data(pdu_source, share_id, pdu_type2, body)) matches Some((h, inner))
            && h.pdu_type == PDUTYPE_DATA && inner.len() >= 12 && inner[8] == pdu_type2
            && inner.subrange(12, inner.len() as int) == body,
{
    let hdr = spec_share_data_header(share_id, pdu_type2, body.len());
    assert(hdr.len() == 12);
    assert(hdr[8] == pdu_type2);
    let inner = hdr + body;
    assert(inner[8] == pdu_type2);
    assert(inner.subrange(12, inner.len() as int) =~= body);
    lemma_share_control_roundtrip(PDUTYPE_DATA, pdu_source, inner);
    assert(7u16 & 0x0fu16 == 7u16) by (bit_vector);
}

} // verus!
