//! RDP security-protocol negotiation: the RDP_NEG_REQ / RDP_NEG_RSP /
//! RDP_NEG_FAILURE structures carried in the X.224 Connection Request/Confirm
//! user data. Fields are little-endian.

use vstd::prelude::*;
use crate::text::{all_ascii, ascii_chars, ascii_string, hex8, push_hex8};
use crate::wire::{get_le32, le16, le32, put_bytes, put_u16_le, put_u32_le, put_u8, read_u32_le, slice_range};
use crate::{is_protocol, is_short, Error, Result};

verus! {

/// Requested/selected security protocols (a bitmask).
#[derive(Clone, Copy, PartialEq, Eq, Default, Debug, Structural)]
pub struct SecurityProtocol(pub u32);

impl SecurityProtocol {
    /// Standard RDP security (no external security protocol).
    pub const RDP: u32 = 0x0000_0000;
    /// TLS 1.x.
    pub const SSL: u32 = 0x0000_0001;
    /// CredSSP (Network Level Authentication).
    pub const HYBRID: u32 = 0x0000_0002;
    /// RDSTLS.
    pub const RDSTLS: u32 = 0x0000_0004;
    /// CredSSP with early user authorization.
    pub const HYBRID_EX: u32 = 0x0000_0008;

    /// Whether `bit` is set (the empty mask `RDP` is always "set").
    pub fn has(self, bit: u32) -> (r: bool)
        ensures
            r == (bit == 0 || self.0 & bit != 0),
    {
        bit == 0 || self.0 & bit != 0
    }

    /// This mask with `bit` added.
    pub fn with(self, bit: u32) -> (r: Self)
        ensures
            r.0 == self.0 | bit,
    {
        SecurityProtocol(self.0 | bit)
    }
}

/// `"SSL"`.
pub open spec fn name_ssl() -> Seq<u8> {
    seq![83u8, 83, 76]
}

/// `"HYBRID"`.
pub open spec fn name_hybrid() -> Seq<u8> {
    seq![72u8, 89, 66, 82, 73, 68]
}

/// `"RDSTLS"`.
pub open spec fn name_rdstls() -> Seq<u8> {
    seq![82u8, 68, 83, 84, 76, 83]
}

/// `"HYBRID_EX"`.
pub open spec fn name_hybrid_ex() -> Seq<u8> {
    seq![72u8, 89, 66, 82, 73, 68, 95, 69, 88]
}

/// `"RDP"`.
pub open spec fn name_rdp() -> Seq<u8> {
    seq![82u8, 68, 80]
}

/// `"SecurityProtocol(0x"`.
pub open spec fn describe_prefix() -> Seq<u8> {
    seq![83u8, 101, 99, 117, 114, 105, 116, 121, 80, 114, 111, 116, 111, 99, 111, 108, 40, 48, 120]
}

/// `name` as a one-element list when `set`, else no element.
pub open spec fn name_if(set: bool, name: Seq<u8>) -> Seq<Seq<u8>> {
    if set {
        seq![name]
    } else {
        Seq::empty()
    }
}

/// The names of the protocols set in `v`, in bit order, or `RDP` when none is.
pub open spec fn protocol_names(v: u32) -> Seq<Seq<u8>> {
    let names = name_if(v & SecurityProtocol::SSL != 0, name_ssl()) + name_if(
        v & SecurityProtocol::HYBRID != 0,
        name_hybrid(),
    ) + name_if(v & SecurityProtocol::RDSTLS != 0, name_rdstls()) + name_if(
        v & SecurityProtocol::HYBRID_EX != 0,
        name_hybrid_ex(),
    );
    if names.len() == 0 {
        seq![name_rdp()]
    } else {
        names
    }
}

/// `parts` joined with `|`.
pub open spec fn join_bars(parts: Seq<Seq<u8>>) -> Seq<u8>
    decreases parts.len(),
{
    if parts.len() == 0 {
        Seq::empty()
    } else if parts.len() == 1 {
        parts[0]
    } else {
        join_bars(parts.drop_last()) + seq![124u8] + parts.last()
    }
}

/// The text of a protocol mask: `SecurityProtocol(0x%08x [NAME|NAME])`.
pub open spec fn spec_describe(v: u32) -> Seq<u8> {
    describe_prefix() + hex8(v) + seq![32u8, 91] + join_bars(protocol_names(v)) + seq![93u8, 41]
}

/// Append `name` to the `|`-joined list in `out`, whose parts so far are `parts`.
fn push_name(out: &mut Vec<u8>, head: Ghost<Seq<u8>>, parts: Ghost<Seq<Seq<u8>>>, any: bool, name: &[u8])
    requires
        any == (parts@.len() > 0),
        old(out)@ == head@ + join_bars(parts@),
        all_ascii(old(out)@),
        all_ascii(name@),
    ensures
        final(out)@ == head@ + join_bars(parts@.push(name@)),
        all_ascii(final(out)@),
{
    if any {
        put_u8(out, 124);
    }
    put_bytes(out, name);
    proof {
        let p2 = parts@.push(name@);
        assert(p2.drop_last() =~= parts@);
        if parts@.len() == 0 {
            assert(join_bars(p2) == name@);
        }
    }
}

impl SecurityProtocol {
    /// The text of this mask: `SecurityProtocol(0x%08x [NAME|NAME])`, naming
    /// the protocols set, or `RDP` when none is.
    pub fn describe(&self) -> (r: String)
        ensures
            r@ == ascii_chars(spec_describe(self.0)),
    {
        let v = self.0;
        let prefix: [u8; 19] = [83, 101, 99, 117, 114, 105, 116, 121, 80, 114, 111, 116, 111, 99, 111, 108, 40, 48, 120];
        let mut b: Vec<u8> = Vec::new();
        put_bytes(&mut b, &prefix);
        proof {
            assert(prefix@ =~= describe_prefix());
        }
        push_hex8(&mut b, v);
        put_u8(&mut b, 32);
        put_u8(&mut b, 91);
        let ghost head = b@;
        proof {
            assert(b@ =~= head + join_bars(Seq::<Seq<u8>>::empty()));
        }
        let ghost mut parts: Seq<Seq<u8>> = Seq::empty();
        let mut any = false;
        if v & Self::SSL != 0 {
            let n: [u8; 3] = [83, 83, 76];
            proof {
                assert(n@ =~= name_ssl());
            }
            push_name(&mut b, Ghost(head), Ghost(parts), any, &n);
            any = true;
            proof {
                parts = parts.push(name_ssl());
            }
        }
        proof {
            assert(parts =~= name_if(v & Self::SSL != 0, name_ssl()));
        }
        if v & Self::HYBRID != 0 {
            let n: [u8; 6] = [72, 89, 66, 82, 73, 68];
            proof {
                assert(n@ =~= name_hybrid());
            }
            push_name(&mut b, Ghost(head), Ghost(parts), any, &n);
            any = true;
            proof {
                parts = parts.push(name_hybrid());
            }
        }
        proof {
            assert(parts =~= name_if(v & Self::SSL != 0, name_ssl()) + name_if(v & Self::HYBRID != 0, name_hybrid()));
        }
        if v & Self::RDSTLS != 0 {
            let n: [u8; 6] = [82, 68, 83, 84, 76, 83];
            proof {
                assert(n@ =~= name_rdstls());
            }
            push_name(&mut b, Ghost(head), Ghost(parts), any, &n);
            any = true;
            proof {
                parts = parts.push(name_rdstls());
            }
        }
        proof {
            assert(parts =~= name_if(v & Self::SSL != 0, name_ssl()) + name_if(v & Self::HYBRID != 0, name_hybrid())
                + name_if(v & Self::RDSTLS != 0, name_rdstls()));
        }
        if v & Self::HYBRID_EX != 0 {
            let n: [u8; 9] = [72, 89, 66, 82, 73, 68, 95, 69, 88];
            proof {
                assert(n@ =~= name_hybrid_ex());
            }
            push_name(&mut b, Ghost(head), Ghost(parts), any, &n);
            any = true;
            proof {
                parts = parts.push(name_hybrid_ex());
            }
        }
        proof {
            assert(parts =~= name_if(v & Self::SSL != 0, name_ssl()) + name_if(v & Self::HYBRID != 0, name_hybrid())
                + name_if(v & Self::RDSTLS != 0, name_rdstls()) + name_if(v & Self::HYBRID_EX != 0, name_hybrid_ex()));
        }
        if !any {
            let n: [u8; 3] = [82, 68, 80];
            proof {
                assert(n@ =~= name_rdp());
            }
            push_name(&mut b, Ghost(head), Ghost(parts), any, &n);
            any = true;
            proof {
                parts = parts.push(name_rdp());
                assert(parts =~= seq![name_rdp()]);
            }
        }
        put_u8(&mut b, 93);
        put_u8(&mut b, 41);
        proof {
            assert(parts == protocol_names(v));
            assert(b@ =~= spec_describe(v));
        }
        ascii_string(b.as_slice())
    }
}

/// Type byte of an RDP_NEG_REQ.
pub const TYPE_RDP_NEG_REQ: u8 = 0x01;
/// Type byte of an RDP_NEG_RSP.
pub const TYPE_RDP_NEG_RSP: u8 = 0x02;
/// Type byte of an RDP_NEG_FAILURE.
pub const TYPE_RDP_NEG_FAILURE: u8 = 0x03;
/// Every negotiation structure is a fixed 8 bytes.
pub const NEG_LEN: u16 = 8;

/// RDP_NEG_REQ — the client's requested protocols.
#[derive(Clone, Copy, Debug, PartialEq, Eq, Structural)]
pub struct NegotiationRequest {
    pub flags: u8,
    pub requested: SecurityProtocol,
}

/// The 8 wire bytes of an RDP_NEG_REQ.
pub open spec fn spec_request_bytes(r: NegotiationRequest) -> Seq<u8> {
    seq![TYPE_RDP_NEG_REQ, r.flags] + le16(NEG_LEN) + le32(r.requested.0)
}

/// The RDP_NEG_REQ at the front of `s`, if `s` starts with one.
pub open spec fn spec_read_request(s: Seq<u8>) -> Option<NegotiationRequest> {
    if s.len() < 8 || s[0] != TYPE_RDP_NEG_REQ {
        None
    } else {
        Some(NegotiationRequest { flags: s[1], requested: SecurityProtocol(get_le32(s, 4)) })
    }
}

impl NegotiationRequest {
    /// Size of the structure on the wire.
    pub const SIZE: usize = 8;

    /// Append the wire form to `out`.
    pub fn write(&self, out: &mut Vec<u8>)
        ensures
            final(out)@ == old(out)@ + spec_request_bytes(*self),
    {
        put_u8(out, TYPE_RDP_NEG_REQ);
        put_u8(out, self.flags);
        put_u16_le(out, NEG_LEN);
        put_u32_le(out, self.requested.0);
    }

    /// Read an RDP_NEG_REQ from the front of `buf`, advancing it past the
    /// structure on success.
    pub fn read(buf: &mut &[u8]) -> (r: Result<NegotiationRequest>)
        ensures
            r matches Ok(v) ==> spec_read_request(old(buf)@) == Some(v) && final(buf)@
                == old(buf)@.subrange(8, old(buf)@.len() as int),
            r is Err ==> spec_read_request(old(buf)@) is None,
            old(buf)@.len() < 8 ==> is_short(r, 8, old(buf)@.len() as int) && final(buf)@ == old(buf)@,
            old(buf)@.len() >= 8 && r is Err ==> is_protocol(r) && final(buf)@ == old(buf)@.subrange(
                1,
                old(buf)@.len() as int,
            ),
    {
        let b: &[u8] = *buf;
        if b.len() < Self::SIZE {
            return Err(Error::Short { need: Self::SIZE, have: b.len() });
        }
        if b[0] != TYPE_RDP_NEG_REQ {
            *buf = slice_range(b, 1, b.len());
            return Err(Error::Protocol("not an RDP_NEG_REQ"));
        }
        let flags = b[1];
        let requested = read_u32_le(b, 4);
        *buf = slice_range(b, 8, b.len());
        Ok(NegotiationRequest { flags, requested: SecurityProtocol(requested) })
    }
}

/// The server's answer to negotiation: either the selected protocol or a failure.
#[derive(Clone, Copy, Debug, PartialEq, Eq, Structural)]
pub enum NegotiationResponse {
    Selected { flags: u8, protocol: SecurityProtocol },
    Failure { code: u32 },
}

/// The 8 wire bytes of an RDP_NEG_RSP or RDP_NEG_FAILURE.
pub open spec fn spec_response_bytes(r: NegotiationResponse) -> Seq<u8> {
    match r {
        NegotiationResponse::Selected { flags, protocol } => seq![TYPE_RDP_NEG_RSP, flags]
            + le16(NEG_LEN) + le32(protocol.0),
        NegotiationResponse::Failure { code } => seq![TYPE_RDP_NEG_FAILURE, 0u8] + le16(NEG_LEN)
            + le32(code),
    }
}

/// The RDP_NEG_RSP / RDP_NEG_FAILURE at the front of `s`, if any.
pub open spec fn spec_read_response(s: Seq<u8>) -> Option<NegotiationResponse> {
    if s.len() < 8 {
        None
    } else if s[0] == TYPE_RDP_NEG_RSP {
        Some(NegotiationResponse::Selected { flags: s[1], protocol: SecurityProtocol(get_le32(s, 4)) })
    } else if s[0] == TYPE_RDP_NEG_FAILURE {
        Some(NegotiationResponse::Failure { code: get_le32(s, 4) })
    } else {
        None
    }
}

impl NegotiationResponse {
    /// Size of the structure on the wire.
    pub const SIZE: usize = 8;

    /// Append the wire form to `out`.
    pub fn write(&self, out: &mut Vec<u8>)
        ensures
            final(out)@ == old(out)@ + spec_response_bytes(*self),
    {
        match self {
            NegotiationResponse::Selected { flags, protocol } => {
                put_u8(out, TYPE_RDP_NEG_RSP);
                put_u8(out, *flags);
                put_u16_le(out, NEG_LEN);
                put_u32_le(out, protocol.0);
            },
            NegotiationResponse::Failure { code } => {
                put_u8(out, TYPE_RDP_NEG_FAILURE);
                put_u8(out, 0);
                put_u16_le(out, NEG_LEN);
                put_u32_le(out, *code);
            },
        }
    }

    /// Read a response from the front of `buf`, advancing it by 8 bytes when at
    /// least 8 are present.
    pub fn read(buf: &mut &[u8]) -> (r: Result<NegotiationResponse>)
        ensures
            r matches Ok(v) ==> spec_read_response(old(buf)@) == Some(v),
            r is Err ==> spec_read_response(old(buf)@) is None,
            old(buf)@.len() >= 8 ==> final(buf)@ == old(buf)@.subrange(8, old(buf)@.len() as int),
            old(buf)@.len() < 8 ==> is_short(r, 8, old(buf)@.len() as int) && final(buf)@ == old(buf)@,
            old(buf)@.len() >= 8 && r is Err ==> is_protocol(r),
    {
        let b: &[u8] = *buf;
        if b.len() < Self::SIZE {
            return Err(Error::Short { need: Self::SIZE, have: b.len() });
        }
        let ty = b[0];
        let flags = b[1];
        let value = read_u32_le(b, 4);
        *buf = slice_range(b, 8, b.len());
        if ty == TYPE_RDP_NEG_RSP {
            Ok(NegotiationResponse::Selected { flags, protocol: SecurityProtocol(value) })
        } else if ty == TYPE_RDP_NEG_FAILURE {
            Ok(NegotiationResponse::Failure { code: value })
        } else {
            Err(Error::Protocol("not an RDP_NEG_RSP/FAILURE"))
        }
    }

    /// Human-readable name for an RDP_NEG_FAILURE code.
    pub fn failure_reason(code: u32) -> (r: &'static str)
        ensures
            code == 1 ==> r == "SSL_REQUIRED_BY_SERVER",
            code == 2 ==> r == "SSL_NOT_ALLOWED_BY_SERVER",
            code == 3 ==> r == "SSL_CERT_NOT_ON_SERVER",
            code == 4 ==> r == "INCONSISTENT_FLAGS",
            code == 5 ==> r == "HYBRID_REQUIRED_BY_SERVER",
            code == 6 ==> r == "SSL_WITH_USER_AUTH_REQUIRED_BY_SERVER",
            code == 0 || code > 6 ==> r == "unknown negotiation failure",
    {
        match code {
            1 => "SSL_REQUIRED_BY_SERVER",
            2 => "SSL_NOT_ALLOWED_BY_SERVER",
            3 => "SSL_CERT_NOT_ON_SERVER",
            4 => "INCONSISTENT_FLAGS",
            5 => "HYBRID_REQUIRED_BY_SERVER",
            6 => "SSL_WITH_USER_AUTH_REQUIRED_BY_SERVER",
            _ => "unknown negotiation failure",
        }
    }
}

/// Reading back a written RDP_NEG_REQ (followed by anything) gives the request.
pub proof fn lemma_request_roundtrip(r: NegotiationRequest, rest: Seq<u8>)
    ensures
        spec_request_bytes(r).len() == 8,
        spec_read_request(spec_request_bytes(r) + rest) == Some(r),
{
    let s = spec_request_bytes(r) + rest;
    crate::wire::lemma_le32(r.requested.0);
    assert(s.subrange(4, 8) =~= le32(r.requested.0));
    assert(get_le32(s, 4) == get_le32(le32(r.requested.0), 0));
}

/// Reading back a written response (followed by anything) gives the response.
pub proof fn lemma_response_roundtrip(r: NegotiationResponse, rest: Seq<u8>)
    ensures
        spec_response_bytes(r).len() == 8,
        spec_read_response(spec_response_bytes(r) + rest) == Some(r),
{
    let s = spec_response_bytes(r) + rest;
    let v = match r {
        NegotiationResponse::Selected { protocol, .. } => protocol.0,
        NegotiationResponse::Failure { code } => code,
    };
    crate::wire::lemma_le32(v);
    assert(get_le32(s, 4) == get_le32(le32(v), 0));
}

} // verus!
