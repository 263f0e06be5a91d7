//! NTLM message framing. Little-endian throughout. Each message begins with
//! the signature `"NTLMSSP\0"` and a 4-byte message type, then fixed fields.
//! Variable-length parts are referenced by 8-byte security buffers (`Len`,
//! `MaxLen`, `BufferOffset`) and appended after the fixed header.

pub mod av_id;

use vstd::prelude::*;
use super::crypto::{hmac_md5, spec_hmac_md5};
use crate::wire::{
    lemma_get_le16_at, lemma_get_le32_at,
    get_le16, get_le32, le16, le32, put_bytes, put_u16_le, put_u32_le, put_zeros, read_u16_le,
    read_u32_le, slice_range, to_array16, to_array8, to_vec, zeros,
};
use crate::text::{ascii_chars, ascii_string, hex8, push_hex8};
use crate::{is_protocol, is_short, Error, Result};

verus! {

/// `"NTLMSSP\0"`.
pub const SIGNATURE: [u8; 8] = [0x4e, 0x54, 0x4c, 0x4d, 0x53, 0x53, 0x50, 0x00];

/// The NTLMSSP signature as a sequence.
pub open spec fn signature() -> Seq<u8> {
    seq![0x4eu8, 0x54, 0x4c, 0x4d, 0x53, 0x53, 0x50, 0x00]
}

/// NTLM NegotiateFlags.
#[derive(Clone, Copy, PartialEq, Eq, Default, Debug, Structural)]
pub struct NegotiateFlags(pub u32);

impl NegotiateFlags {
    pub const UNICODE: u32 = 0x0000_0001;
    pub const OEM: u32 = 0x0000_0002;
    pub const REQUEST_TARGET: u32 = 0x0000_0004;
    pub const SIGN: u32 = 0x0000_0010;
    pub const SEAL: u32 = 0x0000_0020;
    pub const DATAGRAM: u32 = 0x0000_0040;
    pub const LM_KEY: u32 = 0x0000_0080;
    pub const NTLM: u32 = 0x0000_0200;
    pub const ANONYMOUS: u32 = 0x0000_0800;
    pub const OEM_DOMAIN_SUPPLIED: u32 = 0x0000_1000;
    pub const OEM_WORKSTATION_SUPPLIED: u32 = 0x0000_2000;
    pub const ALWAYS_SIGN: u32 = 0x0000_8000;
    pub const TARGET_TYPE_DOMAIN: u32 = 0x0001_0000;
    pub const TARGET_TYPE_SERVER: u32 = 0x0002_0000;
    pub const EXTENDED_SESSIONSECURITY: u32 = 0x0008_0000;
    pub const IDENTIFY: u32 = 0x0010_0000;
    pub const REQUEST_NON_NT_SESSION_KEY: u32 = 0x0040_0000;
    pub const TARGET_INFO: u32 = 0x0080_0000;
    pub const VERSION: u32 = 0x0200_0000;
    pub const NEGOTIATE_128: u32 = 0x2000_0000;
    pub const KEY_EXCH: u32 = 0x4000_0000;
    pub const NEGOTIATE_56: u32 = 0x8000_0000;

    /// Whether `bit` is set.
    pub fn has(self, bit: u32) -> (r: bool)
        ensures
            r == (self.0 & bit != 0),
    {
        self.0 & bit != 0
    }

    /// These flags with `bit` added.
    pub fn with(self, bit: u32) -> (r: Self)
        ensures
            r.0 == self.0 | bit,
    {
        NegotiateFlags(self.0 | bit)
    }

    /// The text of these flags: `NegotiateFlags(0x%08x)`.
    pub fn describe(&self) -> (r: String)
        ensures
            r@ == ascii_chars(describe_prefix() + hex8(self.0) + seq![41u8]),
    {
        let prefix: [u8; 17] = [78, 101, 103, 111, 116, 105, 97, 116, 101, 70, 108, 97, 103, 115, 40, 48, 120];
        let mut b: Vec<u8> = Vec::new();
        put_bytes(&mut b, &prefix);
        proof {
            assert(prefix@ =~= describe_prefix());
        }
        push_hex8(&mut b, self.0);
        b.push(41);
        proof {
            assert(b@ =~= describe_prefix() + hex8(self.0) + seq![41u8]);
        }
        ascii_string(b.as_slice())
    }
}

/// `"NegotiateFlags(0x"`.
pub open spec fn describe_prefix() -> Seq<u8> {
    seq![78u8, 101, 103, 111, 116, 105, 97, 116, 101, 70, 108, 97, 103, 115, 40, 48, 120]
}

/// An 8-byte security buffer descriptor: length + offset into the message.
#[derive(Clone, Copy, Debug, Default, PartialEq, Eq, Structural)]
struct Field {
    len: u16,
    offset: u32,
}

/// The wire form of a security buffer (MaxLen == Len).
pub open spec fn spec_field(len: u16, offset: u32) -> Seq<u8> {
    le16(len) + le16(len) + le32(offset)
}

/// The bytes a security buffer references in `msg`, if in range.
pub open spec fn spec_field_slice(msg: Seq<u8>, len: u16, offset: u32) -> Option<Seq<u8>> {
    if offset + len > msg.len() {
        None
    } else {
        Some(msg.subrange(offset as int, offset + len))
    }
}

/// The security buffer stored at `msg[i..i+8]`, as its referenced bytes.
pub open spec fn spec_field_at(msg: Seq<u8>, i: int) -> Option<Seq<u8>> {
    spec_field_slice(msg, get_le16(msg, i), get_le32(msg, i + 4))
}

impl Field {
    fn write(&self, out: &mut Vec<u8>)
        ensures
            final(out)@ == old(out)@ + spec_field(self.len, self.offset),
    {
        put_u16_le(out, self.len);
        put_u16_le(out, self.len);
        put_u32_le(out, self.offset);
    }

    fn read(msg: &[u8], i: usize) -> (r: Field)
        requires
            i + 8 <= msg.len(),
        ensures
            r.len == get_le16(msg@, i as int),
            r.offset == get_le32(msg@, i + 4),
    {
        Field { len: read_u16_le(msg, i), offset: read_u32_le(msg, i + 4) }
    }

    /// Slice the referenced bytes out of the whole message.
    fn slice<'a>(&self, msg: &'a [u8]) -> (r: Result<&'a [u8]>)
        ensures
            r matches Ok(v) ==> spec_field_slice(msg@, self.len, self.offset) == Some(v@),
            r is Err <==> spec_field_slice(msg@, self.len, self.offset) is None,
            r is Err ==> r matches Err(Error::Short { .. }),
    {
        let len = self.len as usize;
        if (self.offset as u64) + (len as u64) > (msg.len() as u64) {
            let need = if (self.offset as u64) + (len as u64) <= usize::MAX as u64 {
                (self.offset as u64 + len as u64) as usize
            } else {
                usize::MAX
            };
            return Err(Error::Short { need, have: msg.len() });
        }
        let start = self.offset as usize;
        Ok(slice_range(msg, start, start + len))
    }
}

/// Whether `msg` begins with the NTLMSSP signature and message type `ty`.
pub open spec fn signature_ok(msg: Seq<u8>, ty: u32) -> bool {
    msg.len() >= 12 && msg.subrange(0, 8) == signature() && get_le32(msg, 8) == ty
}

pub(crate) fn check_signature(msg: &[u8], expected_type: u32) -> (r: Result<()>)
    ensures
        r is Ok <==> signature_ok(msg@, expected_type),
        msg.len() < 12 ==> is_short(r, 12, msg.len() as int),
        msg.len() >= 12 && r is Err ==> is_protocol(r),
{
    if msg.len() < 12 {
        return Err(Error::Short { need: 12, have: msg.len() });
    }
    proof {
        assert(SIGNATURE@ =~= signature());
    }
    if !crate::wire::bytes_eq(slice_range(msg, 0, 8), &SIGNATURE) {
        return Err(Error::Protocol("bad NTLMSSP signature"));
    }
    let ty = read_u32_le(msg, 8);
    if ty != expected_type {
        return Err(Error::Protocol("unexpected NTLM message type"));
    }
    Ok(())
}

/// The bytes of an optional 8-byte array.
pub open spec fn opt8(o: Option<[u8; 8]>) -> Option<Seq<u8>> {
    match o {
        Some(v) => Some(v@),
        None => None,
    }
}

/// NEGOTIATE_MESSAGE (type 1), sent by the client first.
#[derive(Clone, Debug, PartialEq, Eq)]
pub struct NegotiateMessage {
    pub flags: NegotiateFlags,
    pub version: Option<[u8; 8]>,
}

/// The wire form of a NEGOTIATE_MESSAGE with empty domain and workstation.
pub open spec fn spec_encode_negotiate(flags: u32, version: Option<Seq<u8>>) -> Seq<u8> {
    let header_len: u32 = if version is Some { 40 } else { 32 };
    signature() + le32(1) + le32(flags) + spec_field(0, header_len) + spec_field(0, header_len) + match version {
        Some(v) => v,
        None => Seq::empty(),
    }
}

/// The flags and version of a NEGOTIATE_MESSAGE, if `msg` is one.
pub open spec fn spec_decode_negotiate(msg: Seq<u8>) -> Option<(u32, Option<Seq<u8>>)> {
    if !signature_ok(msg, 1) {
        None
    } else {
        let flags = get_le32(msg, 12);
        Some(
            (
                flags,
                if flags & NegotiateFlags::VERSION != 0 && msg.len() >= 40 {
                    Some(msg.subrange(32, 40))
                } else {
                    None
                },
            ),
        )
    }
}

impl NegotiateMessage {
    /// Serialize (empty domain and workstation fields).
    pub fn encode(&self) -> (r: Vec<u8>)
        ensures
            r@ == spec_encode_negotiate(self.flags.0, opt8(self.version)),
    {
        let header_len: u32 = if self.version.is_some() { 40 } else { 32 };
        let mut out: Vec<u8> = Vec::new();
        put_bytes(&mut out, &SIGNATURE);
        put_u32_le(&mut out, 1);
        put_u32_le(&mut out, self.flags.0);
        Field { len: 0, offset: header_len }.write(&mut out);
        Field { len: 0, offset: header_len }.write(&mut out);
        match &self.version {
            Some(v) => put_bytes(&mut out, v),
            None => {},
        }
        proof {
            assert(SIGNATURE@ =~= signature());
            assert(out@ =~= spec_encode_negotiate(self.flags.0, opt8(self.version)));
        }
        out
    }

    /// Parse a NEGOTIATE_MESSAGE. A message with a valid signature must hold its
    /// 32-byte fixed header.
    pub fn decode(msg: &[u8]) -> (r: Result<NegotiateMessage>)
        requires
            signature_ok(msg@, 1) ==> msg.len() >= 32,
        ensures
            r matches Ok(v) ==> spec_decode_negotiate(msg@) == Some((v.flags.0, opt8(v.version))),
            r is Err <==> spec_decode_negotiate(msg@) is None,
            msg.len() < 12 ==> is_short(r, 12, msg.len() as int),
    {
        check_signature(msg, 1)?;
        let flags = NegotiateFlags(read_u32_le(msg, 12));
        let _domain = Field::read(msg, 16);
        let _ws = Field::read(msg, 24);
        let version = if flags.has(NegotiateFlags::VERSION) && msg.len() >= 40 {
            Some(to_array8(slice_range(msg, 32, 40)))
        } else {
            None
        };
        Ok(NegotiateMessage { flags, version })
    }
}

/// CHALLENGE_MESSAGE (type 2), received from the server.
#[derive(Clone, Debug, PartialEq, Eq)]
pub struct ChallengeMessage {
    pub flags: NegotiateFlags,
    pub server_challenge: [u8; 8],
    pub target_name: Vec<u8>,
    /// Raw target-info AV_PAIR bytes (fed verbatim into the NTLMv2 temp blob).
    pub target_info: Vec<u8>,
}

/// The wire form of a CHALLENGE_MESSAGE.
pub open spec fn spec_encode_challenge(flags: u32, sc: Seq<u8>, tn: Seq<u8>, ti: Seq<u8>) -> Seq<u8> {
    signature() + le32(2) + spec_field((tn.len() % 65536) as u16, 48) + le32(flags) + sc + zeros(8)
        + spec_field((ti.len() % 65536) as u16, (48 + tn.len()) as u32) + tn + ti
}

/// Whether a CHALLENGE_MESSAGE with a valid signature holds the fixed fields
/// the decoder reads without checking.
pub open spec fn challenge_header_complete(msg: Seq<u8>) -> bool {
    signature_ok(msg, 2) ==> msg.len() >= 24 && (msg.len() >= 40 ==> msg.len() >= 48)
}

/// The flags, server challenge, target name and target info of a CHALLENGE_MESSAGE.
pub open spec fn spec_decode_challenge(msg: Seq<u8>) -> Option<(u32, Seq<u8>, Seq<u8>, Seq<u8>)> {
    if !signature_ok(msg, 2) || msg.len() < 40 {
        None
    } else {
        Some(
            (
                get_le32(msg, 20),
                msg.subrange(24, 32),
                match spec_field_at(msg, 12) {
                    Some(v) => v,
                    None => Seq::empty(),
                },
                match spec_field_at(msg, 40) {
                    Some(v) => v,
                    None => Seq::empty(),
                },
            ),
        )
    }
}

impl ChallengeMessage {
    /// Parse a CHALLENGE_MESSAGE; out-of-range target name or info give empty bytes.
    pub fn decode(msg: &[u8]) -> (r: Result<ChallengeMessage>)
        requires
            challenge_header_complete(msg@),
        ensures
            r matches Ok(v) ==> spec_decode_challenge(msg@) == Some(
                (v.flags.0, v.server_challenge@, v.target_name@, v.target_info@),
            ),
            r is Err <==> spec_decode_challenge(msg@) is None,
            msg.len() < 12 ==> is_short(r, 12, msg.len() as int),
            msg.len() >= 12 && !signature_ok(msg@, 2) ==> is_protocol(r),
            signature_ok(msg@, 2) && msg.len() < 40 ==> is_short(r, 16, msg.len() - 24),
    {
        check_signature(msg, 2)?;
        let target_name_field = Field::read(msg, 12);
        let flags = NegotiateFlags(read_u32_le(msg, 20));
        if msg.len() - 24 < 16 {
            return Err(Error::Short { need: 16, have: msg.len() - 24 });
        }
        let server_challenge = to_array8(slice_range(msg, 24, 32));
        let target_info_field = Field::read(msg, 40);
        let target_name = match target_name_field.slice(msg) {
            Ok(v) => to_vec(v),
            Err(_) => Vec::new(),
        };
        let target_info = match target_info_field.slice(msg) {
            Ok(v) => to_vec(v),
            Err(_) => Vec::new(),
        };
        Ok(ChallengeMessage { flags, server_challenge, target_name, target_info })
    }

    /// Encode (used to build test fixtures / the server side).
    pub fn encode(&self) -> (r: Vec<u8>)
        requires
            self.target_name.len() + 48 <= u32::MAX,
        ensures
            r@ == spec_encode_challenge(self.flags.0, self.server_challenge@, self.target_name@, self.target_info@),
    {
        let tn_len = self.target_name.len();
        let mut out: Vec<u8> = Vec::new();
        put_bytes(&mut out, &SIGNATURE);
        put_u32_le(&mut out, 2);
        Field { len: (tn_len % 65536) as u16, offset: 48 }.write(&mut out);
        put_u32_le(&mut out, self.flags.0);
        put_bytes(&mut out, &self.server_challenge);
        put_zeros(&mut out, 8);
        Field { len: (self.target_info.len() % 65536) as u16, offset: (48 + tn_len) as u32 }.write(&mut out);
        put_bytes(&mut out, self.target_name.as_slice());
        put_bytes(&mut out, self.target_info.as_slice());
        proof {
            assert(SIGNATURE@ =~= signature());
            assert(out@ =~= spec_encode_challenge(self.flags.0, self.server_challenge@, self.target_name@, self.target_info@));
        }
        out
    }
}

/// AUTHENTICATE_MESSAGE (type 3), the client's final NTLM message. Always
/// written with Version + MIC, so the MIC sits at offset 72 and payloads start at 88.
#[derive(Clone, Debug, PartialEq, Eq)]
pub struct AuthenticateMessage {
    pub flags: NegotiateFlags,
    pub domain: Vec<u8>,
    pub user: Vec<u8>,
    pub workstation: Vec<u8>,
    pub lm_response: Vec<u8>,
    pub nt_response: Vec<u8>,
    pub encrypted_session_key: Vec<u8>,
    pub version: [u8; 8],
    pub mic: [u8; 16],
}

/// The fields of an AUTHENTICATE_MESSAGE as byte sequences.
pub struct AuthenticateFields {
    pub flags: u32,
    pub domain: Seq<u8>,
    pub user: Seq<u8>,
    pub workstation: Seq<u8>,
    pub lm_response: Seq<u8>,
    pub nt_response: Seq<u8>,
    pub encrypted_session_key: Seq<u8>,
    pub version: Seq<u8>,
    pub mic: Seq<u8>,
}

/// The fields of `m`.
pub open spec fn auth_fields(m: AuthenticateMessage) -> AuthenticateFields {
    AuthenticateFields {
        flags: m.flags.0,
        domain: m.domain@,
        user: m.user@,
        workstation: m.workstation@,
        lm_response: m.lm_response@,
        nt_response: m.nt_response@,
        encrypted_session_key: m.encrypted_session_key@,
        version: m.version@,
        mic: m.mic@,
    }
}

/// The security buffer for `b` placed at offset `off`.
pub open spec fn spec_place(b: Seq<u8>, off: nat) -> Seq<u8> {
    spec_field((b.len() % 65536) as u16, (off % 0x1_0000_0000) as u32)
}

/// The security buffers of an AUTHENTICATE_MESSAGE: payloads in the order LM,
/// NT, domain, user, workstation, session key, after the 88-byte header.
pub open spec fn spec_auth_fields(f: AuthenticateFields) -> Seq<u8> {
    let o0: nat = 88;
    let o1 = o0 + f.lm_response.len();
    let o2 = o1 + f.nt_response.len();
    let o3 = o2 + f.domain.len();
    let o4 = o3 + f.user.len();
    let o5 = o4 + f.workstation.len();
    spec_place(f.lm_response, o0) + spec_place(f.nt_response, o1) + spec_place(f.domain, o2) + spec_place(
        f.user,
        o3,
    ) + spec_place(f.workstation, o4) + spec_place(f.encrypted_session_key, o5)
}

/// The payloads of an AUTHENTICATE_MESSAGE in wire order.
pub open spec fn spec_auth_payload(f: AuthenticateFields) -> Seq<u8> {
    f.lm_response + f.nt_response + f.domain + f.user + f.workstation + f.encrypted_session_key
}

/// Append the security buffer for `b` at offset `off`.
fn place(out: &mut Vec<u8>, b: &[u8], off: u32)
    ensures
        final(out)@ == old(out)@ + spec_place(b@, off as nat),
{
    Field { len: (b.len() % 65536) as u16, offset: off }.write(out);
}

/// The wire form of an AUTHENTICATE_MESSAGE.
pub open spec fn spec_encode_authenticate(f: AuthenticateFields) -> Seq<u8> {
    signature() + le32(3) + spec_auth_fields(f) + le32(f.flags) + f.version + f.mic + spec_auth_payload(f)
}

/// Total payload size of an AUTHENTICATE_MESSAGE.
pub open spec fn payload_len(f: AuthenticateFields) -> nat {
    f.lm_response.len() + f.nt_response.len() + f.domain.len() + f.user.len() + f.workstation.len()
        + f.encrypted_session_key.len()
}

/// The fields of an AUTHENTICATE_MESSAGE, if `msg` is one with every buffer in range.
pub open spec fn spec_decode_authenticate(msg: Seq<u8>) -> Option<AuthenticateFields> {
    if !signature_ok(msg, 3) || msg.len() < 88 {
        None
    } else {
        match (
            spec_field_at(msg, 12),
            spec_field_at(msg, 20),
            spec_field_at(msg, 28),
            spec_field_at(msg, 36),
            spec_field_at(msg, 44),
            spec_field_at(msg, 52),
        ) {
            (Some(lm), Some(nt), Some(dom), Some(user), Some(ws), Some(key)) => Some(
                AuthenticateFields {
                    flags: get_le32(msg, 60),
                    domain: dom,
                    user,
                    workstation: ws,
                    lm_response: lm,
                    nt_response: nt,
                    encrypted_session_key: key,
                    version: msg.subrange(64, 72),
                    mic: msg.subrange(72, 88),
                },
            ),
            _ => None,
        }
    }
}

/// `m` with its MIC zeroed, as the MIC computation encodes it.
pub open spec fn zero_mic(f: AuthenticateFields) -> AuthenticateFields {
    AuthenticateFields { mic: zeros(16), ..f }
}

impl AuthenticateMessage {
    /// Header length with Version (8) + MIC (16): payloads start here.
    pub const HEADER_LEN: usize = 88;
    /// Fixed offset of the 16-byte MIC field.
    pub const MIC_OFFSET: usize = 72;

    /// The six security buffers.
    fn write_fields(&self) -> (r: Vec<u8>)
        requires
            payload_len(auth_fields(*self)) + 88 <= u32::MAX,
        ensures
            r@ == spec_auth_fields(auth_fields(*self)),
    {
        let ghost f = auth_fields(*self);
        let l0 = self.lm_response.len();
        let l1 = self.nt_response.len();
        let l2 = self.domain.len();
        let l3 = self.user.len();
        let l4 = self.workstation.len();
        let o0: u32 = 88;
        let o1 = o0 + l0 as u32;
        let o2 = o1 + l1 as u32;
        let o3 = o2 + l2 as u32;
        let o4 = o3 + l3 as u32;
        let o5 = o4 + l4 as u32;
        let mut fields: Vec<u8> = Vec::new();
        place(&mut fields, self.lm_response.as_slice(), o0);
        place(&mut fields, self.nt_response.as_slice(), o1);
        place(&mut fields, self.domain.as_slice(), o2);
        place(&mut fields, self.user.as_slice(), o3);
        place(&mut fields, self.workstation.as_slice(), o4);
        place(&mut fields, self.encrypted_session_key.as_slice(), o5);
        proof {
            assert(fields@ =~= spec_auth_fields(f));
        }
        fields
    }

    /// Serialize, laying out the payloads after the fixed header.
    pub fn encode(&self) -> (r: Vec<u8>)
        requires
            payload_len(auth_fields(*self)) + 88 <= u32::MAX,
        ensures
            r@ == spec_encode_authenticate(auth_fields(*self)),
    {
        let ghost f = auth_fields(*self);
        let fields = self.write_fields();
        let mut payload: Vec<u8> = Vec::new();
        put_bytes(&mut payload, self.lm_response.as_slice());
        put_bytes(&mut payload, self.nt_response.as_slice());
        put_bytes(&mut payload, self.domain.as_slice());
        put_bytes(&mut payload, self.user.as_slice());
        put_bytes(&mut payload, self.workstation.as_slice());
        put_bytes(&mut payload, self.encrypted_session_key.as_slice());
        proof {
            assert(payload@ =~= spec_auth_payload(f));
        }
        let mut out: Vec<u8> = Vec::new();
        put_bytes(&mut out, &SIGNATURE);
        put_u32_le(&mut out, 3);
        put_bytes(&mut out, fields.as_slice());
        put_u32_le(&mut out, self.flags.0);
        put_bytes(&mut out, &self.version);
        put_bytes(&mut out, &self.mic);
        put_bytes(&mut out, payload.as_slice());
        proof {
            assert(SIGNATURE@ =~= signature());
            assert(out@ =~= spec_encode_authenticate(f));
        }
        out
    }

    /// Compute and store the MIC = HMAC_MD5(exported_session_key, NEGOTIATE ‖
    /// CHALLENGE ‖ AUTHENTICATE-with-zeroed-MIC).
    pub fn compute_mic(&mut self, exported_session_key: &[u8; 16], negotiate: &[u8], challenge: &[u8])
        requires
            payload_len(auth_fields(*old(self))) + 88 <= u32::MAX,
        ensures
            auth_fields(*final(self)) == (AuthenticateFields {
                mic: spec_hmac_md5(
                    exported_session_key@,
                    negotiate@ + challenge@ + spec_encode_authenticate(zero_mic(auth_fields(*old(self)))),
                ),
                ..auth_fields(*old(self))
            }),
    {
        self.mic = [0u8; 16];
        proof {
            assert(self.mic@ =~= zeros(16));
            assert(auth_fields(*self) == zero_mic(auth_fields(*old(self))));
        }
        let auth_zeroed = self.encode();
        let mut data: Vec<u8> = Vec::new();
        put_bytes(&mut data, negotiate);
        put_bytes(&mut data, challenge);
        put_bytes(&mut data, auth_zeroed.as_slice());
        self.mic = hmac_md5(exported_session_key, data.as_slice());
    }

    /// Parse an AUTHENTICATE_MESSAGE. A message with a valid signature must hold
    /// its six security buffers and flags.
    pub fn decode(msg: &[u8]) -> (r: Result<AuthenticateMessage>)
        requires
            signature_ok(msg@, 3) ==> msg.len() >= 64,
        ensures
            r matches Ok(v) ==> spec_decode_authenticate(msg@) == Some(auth_fields(v)),
            r is Err <==> spec_decode_authenticate(msg@) is None,
            msg.len() < 12 ==> is_short(r, 12, msg.len() as int),
            msg.len() >= 12 && !signature_ok(msg@, 3) ==> is_protocol(r),
            signature_ok(msg@, 3) && msg.len() < 88 ==> is_short(r, 24, msg.len() - 64),
            signature_ok(msg@, 3) && msg.len() >= 88 && r is Err ==> r matches Err(Error::Short { .. }),
    {
        check_signature(msg, 3)?;
        let lm_f = Field::read(msg, 12);
        let nt_f = Field::read(msg, 20);
        let dom_f = Field::read(msg, 28);
        let user_f = Field::read(msg, 36);
        let ws_f = Field::read(msg, 44);
        let key_f = Field::read(msg, 52);
        let flags = NegotiateFlags(read_u32_le(msg, 60));
        if msg.len() - 64 < 24 {
            return Err(Error::Short { need: 24, have: msg.len() - 64 });
        }
        let version = to_array8(slice_range(msg, 64, 72));
        let mic = to_array16(slice_range(msg, 72, 88));
        let domain = to_vec(dom_f.slice(msg)?);
        let user = to_vec(user_f.slice(msg)?);
        let workstation = to_vec(ws_f.slice(msg)?);
        let lm_response = to_vec(lm_f.slice(msg)?);
        let nt_response = to_vec(nt_f.slice(msg)?);
        let encrypted_session_key = to_vec(key_f.slice(msg)?);
        Ok(AuthenticateMessage {
            flags,
            domain,
            user,
            workstation,
            lm_response,
            nt_response,
            encrypted_session_key,
            version,
            mic,
        })
    }
}

/// A security buffer read where it was written.
pub proof fn lemma_field_at(msg: Seq<u8>, i: int, len: u16, off: u32)
    requires
        0 <= i,
        i + 8 <= msg.len(),
        msg.subrange(i, i + 8) == spec_field(len, off),
    ensures
        get_le16(msg, i) == len,
        get_le32(msg, i + 4) == off,
{
    let fb = spec_field(len, off);
    assert(fb.subrange(0, 2) =~= le16(len));
    assert(fb.subrange(4, 8) =~= le32(off));
    assert(msg.subrange(i, i + 2) =~= msg.subrange(i, i + 8).subrange(0, 2));
    assert(msg.subrange(i + 4, i + 8) =~= msg.subrange(i, i + 8).subrange(4, 8));
    lemma_get_le16_at(msg, i, len);
    lemma_get_le32_at(msg, i + 4, off);
}

/// Decoding an encoded NEGOTIATE_MESSAGE gives back its flags and version,
/// when a version is present exactly when the VERSION flag is set.
pub proof fn lemma_negotiate_roundtrip(flags: u32, version: Option<Seq<u8>>)
    requires
        (version is Some) == (flags & NegotiateFlags::VERSION != 0),
        version matches Some(v) ==> v.len() == 8,
    ensures
        spec_encode_negotiate(flags, version).len() >= 32,
        spec_decode_negotiate(spec_encode_negotiate(flags, version)) == Some((flags, version)),
{
    let m = spec_encode_negotiate(flags, version);
    assert(m.subrange(0, 8) =~= signature());
    assert(m.subrange(8, 12) =~= le32(1));
    assert(m.subrange(12, 16) =~= le32(flags));
    lemma_get_le32_at(m, 8, 1);
    lemma_get_le32_at(m, 12, flags);
    if let Some(v) = version {
        assert(m.subrange(32, 40) =~= v);
    }
}

/// Decoding an encoded CHALLENGE_MESSAGE gives back its fields, when the
/// target name and info fit their 16-bit lengths.
pub proof fn lemma_challenge_roundtrip(flags: u32, sc: Seq<u8>, tn: Seq<u8>, ti: Seq<u8>)
    requires
        sc.len() == 8,
        tn.len() < 65536,
        ti.len() < 65536,
    ensures
        challenge_header_complete(spec_encode_challenge(flags, sc, tn, ti)),
        spec_decode_challenge(spec_encode_challenge(flags, sc, tn, ti)) == Some((flags, sc, tn, ti)),
{
    let m = spec_encode_challenge(flags, sc, tn, ti);
    assert(m.len() == 48 + tn.len() + ti.len());
    assert(m.subrange(0, 8) =~= signature());
    assert(m.subrange(8, 12) =~= le32(2));
    lemma_get_le32_at(m, 8, 2);
    assert(m.subrange(12, 20) =~= spec_field(tn.len() as u16, 48));
    lemma_field_at(m, 12, tn.len() as u16, 48);
    assert(m.subrange(20, 24) =~= le32(flags));
    lemma_get_le32_at(m, 20, flags);
    assert(m.subrange(24, 32) =~= sc);
    assert(m.subrange(40, 48) =~= spec_field(ti.len() as u16, (48 + tn.len()) as u32));
    lemma_field_at(m, 40, ti.len() as u16, (48 + tn.len()) as u32);
    assert(m.subrange(48, 48 + tn.len() as int) =~= tn);
    assert(m.subrange(48 + tn.len() as int, 48 + tn.len() + ti.len() as int) =~= ti);
}

/// Whether every payload of `f` fits its 16-bit length and every offset fits
/// 32 bits, with an 8-byte version and a 16-byte MIC.
pub open spec fn authenticate_encodable(f: AuthenticateFields) -> bool {
    &&& f.lm_response.len() < 65536
    &&& f.nt_response.len() < 65536
    &&& f.domain.len() < 65536
    &&& f.user.len() < 65536
    &&& f.workstation.len() < 65536
    &&& f.encrypted_session_key.len() < 65536
    &&& payload_len(f) + 88 <= u32::MAX
    &&& f.version.len() == 8
    &&& f.mic.len() == 16
}

/// A security buffer placed at `m[i..i+8]` reads back as its length and offset.
proof fn lemma_placed_at(m: Seq<u8>, i: int, b: Seq<u8>, off: nat)
    requires
        0 <= i,
        i + 8 <= m.len(),
        m.subrange(i, i + 8) == spec_place(b, off),
        b.len() < 65536,
        off <= u32::MAX,
    ensures
        get_le16(m, i) == b.len(),
        get_le32(m, i + 4) == off,
{
    lemma_field_at(m, i, b.len() as u16, off as u32);
}

/// The offsets of the payloads of `f` after the 88-byte header.
pub open spec fn auth_offsets(f: AuthenticateFields) -> Seq<nat> {
    let o0: nat = 88;
    let o1 = o0 + f.lm_response.len();
    let o2 = o1 + f.nt_response.len();
    let o3 = o2 + f.domain.len();
    let o4 = o3 + f.user.len();
    let o5 = o4 + f.workstation.len();
    seq![o0, o1, o2, o3, o4, o5]
}

#[verifier::spinoff_prover]
#[verifier::rlimit(40)]
proof fn lemma_auth_fields_layout(f: AuthenticateFields, m: Seq<u8>)
    requires
        authenticate_encodable(f),
        m.len() >= 60,
        m.subrange(12, 60) == spec_auth_fields(f),
    ensures
        get_le16(m, 12) == f.lm_response.len(),
        get_le32(m, 16) == auth_offsets(f)[0],
        get_le16(m, 20) == f.nt_response.len(),
        get_le32(m, 24) == auth_offsets(f)[1],
        get_le16(m, 28) == f.domain.len(),
        get_le32(m, 32) == auth_offsets(f)[2],
        get_le16(m, 36) == f.user.len(),
        get_le32(m, 40) == auth_offsets(f)[3],
        get_le16(m, 44) == f.workstation.len(),
        get_le32(m, 48) == auth_offsets(f)[4],
        get_le16(m, 52) == f.encrypted_session_key.len(),
        get_le32(m, 56) == auth_offsets(f)[5],
{
    let fl = spec_auth_fields(f);
    let o = auth_offsets(f);
    lemma_six_blocks(
        spec_place(f.lm_response, o[0]),
        spec_place(f.nt_response, o[1]),
        spec_place(f.domain, o[2]),
        spec_place(f.user, o[3]),
        spec_place(f.workstation, o[4]),
        spec_place(f.encrypted_session_key, o[5]),
    );
    assert(m.subrange(12, 20) =~= fl.subrange(0, 8));
    assert(m.subrange(20, 28) =~= fl.subrange(8, 16));
    assert(m.subrange(28, 36) =~= fl.subrange(16, 24));
    assert(m.subrange(36, 44) =~= fl.subrange(24, 32));
    assert(m.subrange(44, 52) =~= fl.subrange(32, 40));
    assert(m.subrange(52, 60) =~= fl.subrange(40, 48));
    lemma_placed_at(m, 12, f.lm_response, o[0]);
    lemma_placed_at(m, 20, f.nt_response, o[1]);
    lemma_placed_at(m, 28, f.domain, o[2]);
    lemma_placed_at(m, 36, f.user, o[3]);
    lemma_placed_at(m, 44, f.workstation, o[4]);
    lemma_placed_at(m, 52, f.encrypted_session_key, o[5]);
}

/// The six 8-byte blocks of a concatenation sit at offsets 0, 8, ..., 40.
proof fn lemma_six_blocks(a0: Seq<u8>, a1: Seq<u8>, a2: Seq<u8>, a3: Seq<u8>, a4: Seq<u8>, a5: Seq<u8>)
    requires
        a0.len() == 8,
        a1.len() == 8,
        a2.len() == 8,
        a3.len() == 8,
        a4.len() == 8,
        a5.len() == 8,
    ensures
        ({
            let c = a0 + a1 + a2 + a3 + a4 + a5;
            &&& c.subrange(0, 8) == a0
            &&& c.subrange(8, 16) == a1
            &&& c.subrange(16, 24) == a2
            &&& c.subrange(24, 32) == a3
            &&& c.subrange(32, 40) == a4
            &&& c.subrange(40, 48) == a5
        }),
{
    let c = a0 + a1 + a2 + a3 + a4 + a5;
    assert(c.subrange(0, 8) =~= a0);
    assert(c.subrange(8, 16) =~= a1);
    assert(c.subrange(16, 24) =~= a2);
    assert(c.subrange(24, 32) =~= a3);
    assert(c.subrange(32, 40) =~= a4);
    assert(c.subrange(40, 48) =~= a5);
}

proof fn lemma_auth_payload_layout(f: AuthenticateFields, m: Seq<u8>)
    requires
        m.len() == 88 + payload_len(f),
        m.subrange(88, m.len() as int) == spec_auth_payload(f),
    ensures
        ({
            let o = auth_offsets(f);
            &&& m.subrange(o[0] as int, o[1] as int) == f.lm_response
            &&& m.subrange(o[1] as int, o[2] as int) == f.nt_response
            &&& m.subrange(o[2] as int, o[3] as int) == f.domain
            &&& m.subrange(o[3] as int, o[4] as int) == f.user
            &&& m.subrange(o[4] as int, o[5] as int) == f.workstation
            &&& m.subrange(o[5] as int, m.len() as int) == f.encrypted_session_key
        }),
{
    let p = spec_auth_payload(f);
    let o = auth_offsets(f);
    let n1: int = o[1] as int;
    let n2: int = o[2] as int;
    let n3: int = o[3] as int;
    let n4: int = o[4] as int;
    let n5: int = o[5] as int;
    assert(p.subrange(0, n1 - 88) =~= f.lm_response);
    assert(p.subrange(n1 - 88, n2 - 88) =~= f.nt_response);
    assert(p.subrange(n2 - 88, n3 - 88) =~= f.domain);
    assert(p.subrange(n3 - 88, n4 - 88) =~= f.user);
    assert(p.subrange(n4 - 88, n5 - 88) =~= f.workstation);
    assert(p.subrange(n5 - 88, p.len() as int) =~= f.encrypted_session_key);
    assert(m.subrange(88, n1) =~= p.subrange(0, n1 - 88));
    assert(m.subrange(n1, n2) =~= p.subrange(n1 - 88, n2 - 88));
    assert(m.subrange(n2, n3) =~= p.subrange(n2 - 88, n3 - 88));
    assert(m.subrange(n3, n4) =~= p.subrange(n3 - 88, n4 - 88));
    assert(m.subrange(n4, n5) =~= p.subrange(n4 - 88, n5 - 88));
    assert(m.subrange(n5, m.len() as int) =~= p.subrange(n5 - 88, p.len() as int));
}

/// The fixed header of an encoded AUTHENTICATE_MESSAGE.
#[verifier::spinoff_prover]
#[verifier::rlimit(40)]
proof fn lemma_auth_header(f: AuthenticateFields)
    requires
        authenticate_encodable(f),
    ensures
        ({
            let m = spec_encode_authenticate(f);
            &&& m.len() == 88 + payload_len(f)
            &&& signature_ok(m, 3)
            &&& m.subrange(12, 60) == spec_auth_fields(f)
            &&& get_le32(m, 60) == f.flags
            &&& m.subrange(64, 72) == f.version
            &&& m.subrange(72, 88) == f.mic
            &&& m.subrange(88, m.len() as int) == spec_auth_payload(f)
        }),
{
    let m = spec_encode_authenticate(f);
    let fl = spec_auth_fields(f);
    assert(fl.len() == 48);
    assert(m.subrange(0, 8) =~= signature());
    assert(m.subrange(8, 12) =~= le32(3));
    lemma_get_le32_at(m, 8, 3);
    assert(m.subrange(12, 60) =~= fl);
    assert(m.subrange(60, 64) =~= le32(f.flags));
    lemma_get_le32_at(m, 60, f.flags);
    assert(m.subrange(64, 72) =~= f.version);
    assert(m.subrange(72, 88) =~= f.mic);
    assert(m.subrange(88, m.len() as int) =~= spec_auth_payload(f));
}

/// A message laid out as `f` prescribes decodes to `f`.
proof fn lemma_decode_laid_out(f: AuthenticateFields, m: Seq<u8>)
    requires
        authenticate_encodable(f),
        m.len() == 88 + payload_len(f),
        signature_ok(m, 3),
        get_le16(m, 12) == f.lm_response.len(),
        get_le32(m, 16) == auth_offsets(f)[0],
        get_le16(m, 20) == f.nt_response.len(),
        get_le32(m, 24) == auth_offsets(f)[1],
        get_le16(m, 28) == f.domain.len(),
        get_le32(m, 32) == auth_offsets(f)[2],
        get_le16(m, 36) == f.user.len(),
        get_le32(m, 40) == auth_offsets(f)[3],
        get_le16(m, 44) == f.workstation.len(),
        get_le32(m, 48) == auth_offsets(f)[4],
        get_le16(m, 52) == f.encrypted_session_key.len(),
        get_le32(m, 56) == auth_offsets(f)[5],
        get_le32(m, 60) == f.flags,
        m.subrange(64, 72) == f.version,
        m.subrange(72, 88) == f.mic,
        ({
            let o = auth_offsets(f);
            &&& m.subrange(o[0] as int, o[1] as int) == f.lm_response
            &&& m.subrange(o[1] as int, o[2] as int) == f.nt_response
            &&& m.subrange(o[2] as int, o[3] as int) == f.domain
            &&& m.subrange(o[3] as int, o[4] as int) == f.user
            &&& m.subrange(o[4] as int, o[5] as int) == f.workstation
            &&& m.subrange(o[5] as int, m.len() as int) == f.encrypted_session_key
        }),
    ensures
        spec_decode_authenticate(m) == Some(f),
{
    assert(spec_field_at(m, 12) == Some(f.lm_response));
    assert(spec_field_at(m, 20) == Some(f.nt_response));
    assert(spec_field_at(m, 28) == Some(f.domain));
    assert(spec_field_at(m, 36) == Some(f.user));
    assert(spec_field_at(m, 44) == Some(f.workstation));
    assert(spec_field_at(m, 52) == Some(f.encrypted_session_key));
}

/// Decoding an encoded AUTHENTICATE_MESSAGE gives back its fields.
pub proof fn lemma_authenticate_roundtrip(f: AuthenticateFields)
    requires
        authenticate_encodable(f),
    ensures
        spec_encode_authenticate(f).len() >= 88,
        spec_decode_authenticate(spec_encode_authenticate(f)) == Some(f),
{
    let m = spec_encode_authenticate(f);
    lemma_auth_header(f);
    lemma_auth_fields_layout(f, m);
    lemma_auth_payload_layout(f, m);
    lemma_decode_laid_out(f, m);
}

/// The AV_PAIRs of a target-info blob, up to MsvAvEOL or the first pair that
/// does not fit.
pub open spec fn spec_av_pairs(ti: Seq<u8>) -> Seq<(u16, Seq<u8>)>
    decreases ti.len(),
{
    if ti.len() < 4 {
        Seq::empty()
    } else {
        let id = get_le16(ti, 0);
        let len = get_le16(ti, 2) as int;
        let rest = ti.subrange(4, ti.len() as int);
        if id == av_id::EOL || rest.len() < len {
            Seq::empty()
        } else {
            seq![(id, rest.subrange(0, len))] + spec_av_pairs(rest.subrange(len, rest.len() as int))
        }
    }
}

/// The (AvId, value) pairs held by a vector.
pub open spec fn pair_views(v: Seq<(u16, Vec<u8>)>) -> Seq<(u16, Seq<u8>)> {
    Seq::new(v.len(), |i: int| (v[i].0, v[i].1@))
}

/// Parse the AV_PAIRs of a target-info blob into (AvId, value) tuples.
pub fn parse_av_pairs(ti: &[u8]) -> (r: Vec<(u16, Vec<u8>)>)
    ensures
        pair_views(r@) == spec_av_pairs(ti@),
{
    let mut pairs: Vec<(u16, Vec<u8>)> = Vec::new();
    let mut t = ti;
    while t.len() >= 4
        invariant
            spec_av_pairs(ti@) == pair_views(pairs@) + spec_av_pairs(t@),
        ensures
            spec_av_pairs(ti@) == pair_views(pairs@) + spec_av_pairs(t@),
            spec_av_pairs(t@) == Seq::<(u16, Seq<u8>)>::empty(),
        decreases t.len(),
    {
        let id = read_u16_le(t, 0);
        let len = read_u16_le(t, 2) as usize;
        let rest = slice_range(t, 4, t.len());
        if id == av_id::EOL {
            break;
        }
        if rest.len() < len {
            break;
        }
        let ghost prev = pairs@;
        pairs.push((id, to_vec(slice_range(rest, 0, len))));
        proof {
            assert(pair_views(pairs@) =~= pair_views(prev) + seq![(id, rest@.subrange(0, len as int))]);
            let tail = spec_av_pairs(rest@.subrange(len as int, rest@.len() as int));
            assert(pair_views(prev) + (seq![(id, rest@.subrange(0, len as int))] + tail) =~= pair_views(pairs@) + tail);
        }
        t = slice_range(rest, len, rest.len());
    }
    proof {
        assert(pair_views(pairs@) + Seq::<(u16, Seq<u8>)>::empty() =~= pair_views(pairs@));
    }
    pairs
}

} // verus!
