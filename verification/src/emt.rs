//! Multitransport tunnel PDUs. Once the side-band UDP connection is secured,
//! the client sends a Tunnel Create Request carrying the full 16-byte
//! securityCookie from the Initiate Multitransport Request; the server matches
//! it to the outstanding request and replies. Thereafter RDP data is wrapped in
//! Tunnel Data PDUs.
//!
//! Every PDU is prefixed by an RDP_TUNNEL_HEADER: `byte0 = (Flags << 4) | Action`,
//! a 16-bit PayloadLength (body bytes after the header), and an 8-bit
//! HeaderLength (at least 4). Little-endian.

use vstd::prelude::*;
use crate::wire::{get_le16, get_le32, le16, le32, put_bytes, put_u16_le, put_u32_le, put_u8, read_u16_le, read_u32_le, slice_range, to_vec};
use crate::{is_protocol, is_rejected, is_short, Error, Result};

verus! {

pub const ACTION_CREATEREQUEST: u8 = 0x0;
pub const ACTION_CREATERESPONSE: u8 = 0x1;
pub const ACTION_DATA: u8 = 0x2;

pub const MIN_HEADER_LEN: usize = 4;

/// A bare RDP_TUNNEL_HEADER (flags 0, no subheaders) and the body; the
/// PayloadLength is cut to 16 bits.
pub open spec fn spec_tunnel_pdu(action: u8, body: Seq<u8>) -> Seq<u8> {
    seq![action % 16] + le16((body.len() % 0x1_0000) as u16) + seq![MIN_HEADER_LEN as u8] + body
}

/// How many bytes follow a 4-byte RDP_TUNNEL_HEADER on the stream: the
/// subheaders up to HeaderLength, then PayloadLength body bytes. A
/// HeaderLength below the header's own size is refused.
pub fn tunnel_remaining_len(header: &[u8; 4]) -> (r: Result<usize>)
    ensures
        header[3] < 4 <==> r is Err,
        r is Err ==> is_protocol(r),
        r matches Ok(n) ==> n == (header[3] - 4) + get_le16(header@, 1),
{
    let payload_len = read_u16_le(header, 1) as usize;
    let header_len = header[3] as usize;
    if header_len < MIN_HEADER_LEN {
        return Err(Error::Protocol("bad tunnel HeaderLength"));
    }
    Ok((header_len - MIN_HEADER_LEN) + payload_len)
}

/// Write an RDP_TUNNEL_HEADER (bare, no subheaders) and the body.
pub fn tunnel_pdu(action: u8, body: &[u8]) -> (r: Vec<u8>)
    ensures
        r@ == spec_tunnel_pdu(action, body@),
{
    let mut out: Vec<u8> = Vec::new();
    put_u8(&mut out, action % 16);
    put_u16_le(&mut out, ((body.len() as u64) % 0x1_0000) as u16);
    put_u8(&mut out, MIN_HEADER_LEN as u8);
    put_bytes(&mut out, body);
    proof {
        assert(out@ =~= spec_tunnel_pdu(action, body@));
    }
    out
}

/// A Tunnel Create Request: requestId, reserved 0, securityCookie.
pub open spec fn spec_create_request(request_id: u32, security_cookie: Seq<u8>) -> Seq<u8> {
    spec_tunnel_pdu(ACTION_CREATEREQUEST, le32(request_id) + le32(0) + security_cookie)
}

/// Build a Tunnel Create Request binding this UDP tunnel to the main session.
pub fn create_request(request_id: u32, security_cookie: &[u8; 16]) -> (r: Vec<u8>)
    ensures
        r@ == spec_create_request(request_id, security_cookie@),
{
    let mut body: Vec<u8> = Vec::new();
    put_u32_le(&mut body, request_id);
    put_u32_le(&mut body, 0);
    put_bytes(&mut body, security_cookie);
    tunnel_pdu(ACTION_CREATEREQUEST, body.as_slice())
}

/// Build a Tunnel Data PDU wrapping a higher-layer RDP PDU.
pub fn data(higher_layer: &[u8]) -> (r: Vec<u8>)
    ensures
        r@ == spec_tunnel_pdu(ACTION_DATA, higher_layer@),
{
    tunnel_pdu(ACTION_DATA, higher_layer)
}

/// A parsed inbound tunnel PDU.
#[derive(Clone, Debug, PartialEq, Eq)]
pub enum TunnelPdu {
    CreateResponse { hr_response: u32 },
    Data { higher_layer: Vec<u8> },
    Other { action: u8 },
}

/// The contents of a tunnel PDU.
pub enum TunnelView {
    CreateResponse { hr_response: u32 },
    Data { higher_layer: Seq<u8> },
    Other { action: u8 },
}

impl View for TunnelPdu {
    type V = TunnelView;

    open spec fn view(&self) -> TunnelView {
        match self {
            TunnelPdu::CreateResponse { hr_response } => TunnelView::CreateResponse { hr_response: *hr_response },
            TunnelPdu::Data { higher_layer } => TunnelView::Data { higher_layer: higher_layer@ },
            TunnelPdu::Other { action } => TunnelView::Other { action: *action },
        }
    }
}

/// What a tunnel PDU parses to: a PDU, a short read (needed, available), or a
/// bad header length.
pub enum TunnelParse {
    Pdu(TunnelView),
    Short(int, int),
    BadLength,
}

/// The PDU an RDP_TUNNEL_HEADER-prefixed buffer holds; the body starts after
/// HeaderLength bytes (subheaders are skipped) and is PayloadLength long.
pub open spec fn spec_parse(pdu: Seq<u8>) -> TunnelParse {
    if pdu.len() < MIN_HEADER_LEN {
        TunnelParse::Short(MIN_HEADER_LEN as int, pdu.len() as int)
    } else {
        let action = pdu[0] % 16;
        let payload_len = get_le16(pdu, 1) as int;
        let header_len = pdu[3] as int;
        if header_len < MIN_HEADER_LEN || pdu.len() < header_len + payload_len {
            TunnelParse::BadLength
        } else {
            let body = pdu.subrange(header_len, header_len + payload_len);
            if action == ACTION_CREATERESPONSE {
                if body.len() < 4 {
                    TunnelParse::Short(4, body.len() as int)
                } else {
                    TunnelParse::Pdu(TunnelView::CreateResponse { hr_response: get_le32(body, 0) })
                }
            } else if action == ACTION_DATA {
                TunnelParse::Pdu(TunnelView::Data { higher_layer: body })
            } else {
                TunnelParse::Pdu(TunnelView::Other { action })
            }
        }
    }
}

/// Parse an RDP_TUNNEL_HEADER-prefixed PDU.
pub fn parse(pdu: &[u8]) -> (r: Result<TunnelPdu>)
    ensures
        match spec_parse(pdu@) {
            TunnelParse::Pdu(v) => r matches Ok(p) && p@ == v,
            TunnelParse::Short(n, h) => is_short(r, n, h),
            TunnelParse::BadLength => is_protocol(r),
        },
{
    if pdu.len() < MIN_HEADER_LEN {
        return Err(Error::Short { need: MIN_HEADER_LEN, have: pdu.len() });
    }
    let action = pdu[0] % 16;
    let payload_len = read_u16_le(pdu, 1) as usize;
    let header_len = pdu[3] as usize;
    if header_len < MIN_HEADER_LEN || pdu.len() < header_len + payload_len {
        return Err(Error::Protocol("bad RDP_TUNNEL_HEADER length"));
    }
    let body = slice_range(pdu, header_len, header_len + payload_len);
    if action == ACTION_CREATERESPONSE {
        if body.len() < 4 {
            return Err(Error::Short { need: 4, have: body.len() });
        }
        Ok(TunnelPdu::CreateResponse { hr_response: read_u32_le(body, 0) })
    } else if action == ACTION_DATA {
        Ok(TunnelPdu::Data { higher_layer: to_vec(body) })
    } else {
        Ok(TunnelPdu::Other { action })
    }
}

/// Check the server's reply to a Tunnel Create Request: a Create Response with
/// HRESULT 0 accepts the tunnel, one with any other HRESULT refuses it (a
/// negotiation failure), and any other PDU is a protocol error.
pub fn check_create_response(reply: &[u8]) -> (r: Result<()>)
    ensures
        match spec_parse(reply@) {
            TunnelParse::Pdu(TunnelView::CreateResponse { hr_response }) => if hr_response == 0 {
                r is Ok
            } else {
                is_rejected(r)
            },
            TunnelParse::Pdu(_) => is_protocol(r),
            TunnelParse::Short(n, h) => is_short(r, n, h),
            TunnelParse::BadLength => is_protocol(r),
        },
{
    match parse(reply)? {
        TunnelPdu::CreateResponse { hr_response } => {
            if hr_response == 0 {
                Ok(())
            } else {
                Err(Error::NegotiationFailure("UDP tunnel create rejected"))
            }
        },
        _ => Err(Error::Protocol("unexpected UDP tunnel reply")),
    }
}

/// A Data PDU parses back to what it wraps, when that fits the 16-bit length.
pub proof fn lemma_data_roundtrip(higher_layer: Seq<u8>)
    requires
        higher_layer.len() < 0x1_0000,
    ensures
        spec_parse(spec_tunnel_pdu(ACTION_DATA, higher_layer)) == TunnelParse::Pdu(
            TunnelView::Data { higher_layer },
        ),
{
    let p = spec_tunnel_pdu(ACTION_DATA, higher_layer);
    let l = higher_layer.len() as u16;
    crate::wire::lemma_le16(l);
    assert(p.subrange(1, 3) =~= le16(l));
    crate::wire::lemma_get_le16_at(p, 1, l);
    assert(p.subrange(4, 4 + higher_layer.len() as int) =~= higher_layer);
}

} // verus!
