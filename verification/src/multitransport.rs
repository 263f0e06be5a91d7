//! The multitransport bootstrap: the mechanism that hands the UDP transport
//! its security cookie so an RDP session can move onto UDP.
//!
//! The server sends a Server Initiate Multitransport Request with a 16-byte
//! securityCookie; the client opens an RDP-UDP connection whose SYN echoes
//! `SHA-256(securityCookie)` as the cookieHash, binding the UDP flow to this
//! TCP session; the full cookie is later sent again in the Tunnel Create
//! Request as the authoritative bind.

use vstd::prelude::*;
use crate::nla::crypto::{sha256, spec_sha256};
use crate::wire::{get_le16, get_le32, le32, put_u32_le, read_u16_le, read_u32_le, slice_range, to_array16};
use crate::{is_short, Error, Result};

verus! {

/// requestedProtocol values.
pub const PROTOCOL_UDPFECR: u16 = 0x01;
pub const PROTOCOL_UDPFECL: u16 = 0x02;

/// TS_UD_CS_MULTITRANSPORTCHANNELDATA flags.
pub const TRANSPORTTYPE_UDPFECR: u32 = 0x01;
pub const TRANSPORTTYPE_UDPFECL: u32 = 0x04;
pub const TRANSPORTTYPE_UDP_PREFERRED: u32 = 0x100;
pub const TRANSPORTTYPE_SOFTSYNC: u32 = 0x200;

/// Basic security header flag marking a Server Initiate Multitransport Request.
pub const SEC_TRANSPORT_REQ: u16 = 0x0002;

/// The request a PDU carries after a basic security header flagged
/// `SEC_TRANSPORT_REQ`, if it is long enough to hold one.
pub open spec fn spec_detect(pdu: Seq<u8>) -> Option<(u32, u16, Seq<u8>)> {
    if pdu.len() < 28 || get_le16(pdu, 0) & SEC_TRANSPORT_REQ == 0 {
        None
    } else {
        Some((get_le32(pdu, 4), get_le16(pdu, 8), pdu.subrange(12, 28)))
    }
}

/// A parsed Server Initiate Multitransport Request.
#[derive(Clone, Debug, PartialEq, Eq)]
pub struct InitiateRequest {
    pub request_id: u32,
    pub requested_protocol: u16,
    pub security_cookie: [u8; 16],
}

impl InitiateRequest {
    /// Parse the PDU body: requestId, requestedProtocol, reserved, securityCookie.
    pub fn parse(buf: &[u8]) -> (r: Result<InitiateRequest>)
        ensures
            buf.len() < 24 ==> is_short(r, 24, buf.len() as int),
            buf.len() >= 24 ==> (r matches Ok(v) && v.request_id == get_le32(buf@, 0) && v.requested_protocol
                == get_le16(buf@, 4) && v.security_cookie@ == buf@.subrange(8, 24)),
    {
        if buf.len() < 24 {
            return Err(Error::Short { need: 24, have: buf.len() });
        }
        let request_id = read_u32_le(buf, 0);
        let requested_protocol = read_u16_le(buf, 4);
        let security_cookie = to_array16(slice_range(buf, 8, 24));
        Ok(InitiateRequest { request_id, requested_protocol, security_cookie })
    }

    /// The (requestId, requestedProtocol, securityCookie) this request holds.
    pub open spec fn fields(self) -> (u32, u16, Seq<u8>) {
        (self.request_id, self.requested_protocol, self.security_cookie@)
    }

    /// Recognise a Server Initiate Multitransport Request in a PDU received on
    /// the I/O channel: a basic security header whose flags carry
    /// `SEC_TRANSPORT_REQ`, followed by the request body.
    pub fn detect(pdu: &[u8]) -> (r: Option<InitiateRequest>)
        ensures
            r matches Some(v) ==> spec_detect(pdu@) == Some(v.fields()),
            r is None <==> spec_detect(pdu@) is None,
    {
        if pdu.len() < 4 || read_u16_le(pdu, 0) & SEC_TRANSPORT_REQ == 0 {
            return None;
        }
        match InitiateRequest::parse(slice_range(pdu, 4, pdu.len())) {
            Ok(v) => {
                proof {
                    assert(pdu@.subrange(4, pdu.len() as int).subrange(8, 24) =~= pdu@.subrange(12, 28));
                }
                Some(v)
            },
            Err(_) => None,
        }
    }

    /// The cookieHash to echo in the RDP-UDP SYN: SHA-256 of the raw 16-byte
    /// securityCookie, with no salt or prefix.
    pub fn cookie_hash(&self) -> (r: [u8; 32])
        ensures
            r@ == spec_sha256(self.security_cookie@),
    {
        sha256(&self.security_cookie)
    }
}

/// Build the Client Initiate Multitransport Response: requestId and
/// hrResponse (0 is S_OK).
pub fn initiate_response(request_id: u32, hr_response: u32) -> (r: Vec<u8>)
    ensures
        r@ == le32(request_id) + le32(hr_response),
{
    let mut out: Vec<u8> = Vec::new();
    put_u32_le(&mut out, request_id);
    put_u32_le(&mut out, hr_response);
    out
}

} // verus!
