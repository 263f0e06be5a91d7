//! X.224 TPDUs as used by RDP: the Connection Request (CR) carrying an optional
//! routing cookie and the RDP_NEG_REQ, the Connection Confirm (CC) carrying the
//! RDP_NEG_RSP or RDP_NEG_FAILURE, and the 3-byte Data (DT) header prefixed to
//! every slow-path PDU. Reference fields are big-endian and always zero.

use vstd::prelude::*;
use vstd::utf8::{decode_utf8, encode_utf8, valid_utf8};
use crate::nego::{
    lemma_request_roundtrip, lemma_response_roundtrip, spec_read_request, spec_read_response,
    spec_request_bytes, spec_response_bytes, NegotiationRequest, NegotiationResponse,
};
use crate::text::{spec_utf8_lossy, utf8_lossy};
use crate::wire::{put_bytes, put_u16_be, put_u8, slice_range, starts_with};
use crate::{is_protocol, is_short, Error, Result};

verus! {

broadcast use vstd::utf8::group_utf8_lib;

/// Code of a Connection Request TPDU.
pub const TPDU_CR: u8 = 0xE0;
/// Code of a Connection Confirm TPDU.
pub const TPDU_CC: u8 = 0xD0;
/// Code of a Data TPDU.
pub const TPDU_DT: u8 = 0xF0;
/// End-of-transmission marker of a Data TPDU.
pub const EOT: u8 = 0x80;
/// Fixed octets after the length indicator in a CR/CC: code + DST + SRC + class.
pub const CR_CC_FIXED: usize = 6;

/// The X.224 Data TPDU header prefixed to every slow-path PDU: `LI=2, DT, EOT`.
pub const DATA_HEADER: [u8; 3] = [0x02, 0xF0, 0x80];

/// `"Cookie: mstshash="` in ASCII.
pub const COOKIE_PREFIX: [u8; 17] = [
    0x43, 0x6f, 0x6f, 0x6b, 0x69, 0x65, 0x3a, 0x20, 0x6d, 0x73, 0x74, 0x73, 0x68, 0x61, 0x73, 0x68,
    0x3d,
];

/// The ANSI cookie prefix as a sequence.
pub open spec fn cookie_prefix() -> Seq<u8> {
    seq![0x43u8, 0x6f, 0x6f, 0x6b, 0x69, 0x65, 0x3a, 0x20, 0x6d, 0x73, 0x74, 0x73, 0x68, 0x61, 0x73, 0x68, 0x3d]
}

/// The cookie line `"Cookie: mstshash=<id>\r\n"`.
pub open spec fn spec_cookie_line(id: Seq<char>) -> Seq<u8> {
    cookie_prefix() + encode_utf8(id) + seq![13u8, 10u8]
}

/// Client X.224 Connection Request.
#[derive(Clone, Debug, Default, PartialEq, Eq)]
pub struct ConnectionRequest {
    /// Optional routing cookie identity (the `mstshash=<id>` value).
    pub cookie: Option<String>,
    pub nego: Option<NegotiationRequest>,
}

/// The characters of an optional string.
pub open spec fn opt_text(o: Option<String>) -> Option<Seq<char>> {
    match o {
        Some(s) => Some(s@),
        None => None,
    }
}

impl View for ConnectionRequest {
    type V = (Option<Seq<char>>, Option<NegotiationRequest>);

    open spec fn view(&self) -> Self::V {
        (opt_text(self.cookie), self.nego)
    }
}

/// Bytes of the optional cookie line.
pub open spec fn spec_cookie_bytes(cookie: Option<Seq<char>>) -> Seq<u8> {
    match cookie {
        Some(id) => spec_cookie_line(id),
        None => Seq::empty(),
    }
}

/// Bytes of an optional RDP_NEG_REQ.
pub open spec fn spec_opt_request(n: Option<NegotiationRequest>) -> Seq<u8> {
    match n {
        Some(r) => spec_request_bytes(r),
        None => Seq::empty(),
    }
}

/// The CR/CC fixed part: LI, code, DST-REF, SRC-REF, class.
pub open spec fn spec_fixed(li: int, code: u8) -> Seq<u8> {
    seq![li as u8, code, 0u8, 0u8, 0u8, 0u8, 0u8]
}

/// Wire form of a Connection Request with the given view.
pub open spec fn spec_encode_request(v: (Option<Seq<char>>, Option<NegotiationRequest>)) -> Seq<u8> {
    let body = spec_cookie_bytes(v.0) + spec_opt_request(v.1);
    spec_fixed(6 + body.len() as int, TPDU_CR) + body
}

/// Whether a CR/CC TPDU holds its fixed part and as many bytes as its length
/// indicator counts.
pub open spec fn lengths_fit(buf: Seq<u8>) -> bool {
    buf.len() >= 7 && buf.len() >= buf[0] + 1
}

/// The variable part and code of a CR/CC TPDU, bounded by its LI (which must
/// cover the fixed part).
pub open spec fn spec_split_cr_cc(buf: Seq<u8>) -> Option<(Seq<u8>, u8)> {
    if buf.len() < 7 || buf.len() < buf[0] + 1 || buf[0] < 6 {
        None
    } else {
        Some((buf.subrange(7, buf[0] + 1), buf[1]))
    }
}

/// Whether `b` holds CR LF at `i`.
pub open spec fn is_crlf_at(b: Seq<u8>, i: int) -> bool {
    0 <= i && i + 1 < b.len() && b[i] == 13 && b[i + 1] == 10
}

/// The first CR LF at or after `k`.
pub open spec fn find_crlf_from(b: Seq<u8>, k: int) -> Option<int>
    decreases b.len() - k,
{
    if k < 0 || k + 1 >= b.len() {
        None
    } else if is_crlf_at(b, k) {
        Some(k)
    } else {
        find_crlf_from(b, k + 1)
    }
}

/// The text of a cookie identity: its UTF-8 decoding when valid, else the
/// lossy decoding.
pub open spec fn spec_cookie_text(b: Seq<u8>) -> Seq<char> {
    if valid_utf8(b) {
        decode_utf8(b)
    } else {
        spec_utf8_lossy(b)
    }
}

/// The cookie identity at the front of `body` and the bytes after it.
pub open spec fn spec_take_cookie(body: Seq<u8>) -> (Option<Seq<char>>, Seq<u8>) {
    if body.len() >= 17 && body.subrange(0, 17) == cookie_prefix() && find_crlf_from(body, 0) is Some
        && find_crlf_from(body, 0)->0 >= 17 {
        let end = find_crlf_from(body, 0)->0;
        (Some(spec_cookie_text(body.subrange(17, end))), body.subrange(end + 2, body.len() as int))
    } else {
        (None, body)
    }
}

/// The Connection Request a CR TPDU decodes to, if any.
pub open spec fn spec_decode_request(buf: Seq<u8>) -> Option<(Option<Seq<char>>, Option<NegotiationRequest>)> {
    match spec_split_cr_cc(buf) {
        None => None,
        Some((body, code)) => if code != TPDU_CR {
            None
        } else {
            let (cookie, rest) = spec_take_cookie(body);
            if rest.len() == 0 {
                Some((cookie, None))
            } else {
                match spec_read_request(rest) {
                    Some(n) => Some((cookie, Some(n))),
                    None => None,
                }
            }
        },
    }
}

/// Whether an encoded request fits the one-byte length indicator and its
/// cookie holds no CR LF (so the decoder finds the line end where it was put).
pub open spec fn request_encodable(v: (Option<Seq<char>>, Option<NegotiationRequest>)) -> bool {
    &&& spec_cookie_bytes(v.0).len() + spec_opt_request(v.1).len() + 6 <= 255
    &&& match v.0 {
        Some(id) => forall|i: int| !is_crlf_at(encode_utf8(id), i),
        None => true,
    }
}

impl ConnectionRequest {
    /// Serialize to the X.224 TPDU bytes (wrap in TPKT to send). The length
    /// indicator is one byte: a longer TPDU has it truncated, as on the wire.
    pub fn encode(&self) -> (r: Vec<u8>)
        requires
            spec_cookie_bytes(self@.0).len() + 16 <= usize::MAX,
        ensures
            r@ == spec_encode_request(self@),
    {
        let cookie_bytes: Vec<u8> = match &self.cookie {
            Some(id) => cookie_line(id.as_str()),
            None => Vec::new(),
        };
        let neg_len: usize = if self.nego.is_some() { NegotiationRequest::SIZE } else { 0 };
        let li = CR_CC_FIXED + cookie_bytes.len() + neg_len;
        let mut out: Vec<u8> = Vec::new();
        put_u8(&mut out, li as u8);
        put_u8(&mut out, TPDU_CR);
        put_u16_be(&mut out, 0);
        put_u16_be(&mut out, 0);
        put_u8(&mut out, 0);
        put_bytes(&mut out, cookie_bytes.as_slice());
        match &self.nego {
            Some(neg) => neg.write(&mut out),
            None => {},
        }
        proof {
            lemma_request_roundtrip_len(self@.1);
            assert(out@ =~= spec_encode_request(self@));
        }
        out
    }

    /// Parse a Connection Request TPDU.
    pub fn decode(buf: &[u8]) -> (r: Result<ConnectionRequest>)
        ensures
            r matches Ok(v) ==> spec_decode_request(buf@) == Some(v@),
            r is Err <==> spec_decode_request(buf@) is None,
            buf.len() < 7 ==> is_short(r, 7, buf.len() as int),
            lengths_fit(buf@) && buf[0] < 6 ==> is_protocol(r),
            spec_split_cr_cc(buf@) matches Some((_, code)) && code != TPDU_CR ==> is_protocol(r),
    {
        let (body, code) = split_cr_cc(buf)?;
        if code != TPDU_CR {
            return Err(Error::Protocol("not an X.224 Connection Request"));
        }
        let (cookie, rest) = take_cookie(body);
        let mut rest = rest;
        let nego = if rest.len() != 0 {
            Some(NegotiationRequest::read(&mut rest)?)
        } else {
            None
        };
        Ok(ConnectionRequest { cookie, nego })
    }
}

proof fn lemma_request_roundtrip_len(n: Option<NegotiationRequest>)
    ensures
        spec_opt_request(n).len() == if n is Some { 8int } else { 0int },
{
    if let Some(r) = n {
        lemma_request_roundtrip(r, Seq::empty());
    }
}

/// Server X.224 Connection Confirm.
#[derive(Clone, Debug, PartialEq, Eq)]
pub struct ConnectionConfirm {
    pub nego: Option<NegotiationResponse>,
}

/// Bytes of an optional negotiation response.
pub open spec fn spec_opt_response(n: Option<NegotiationResponse>) -> Seq<u8> {
    match n {
        Some(r) => spec_response_bytes(r),
        None => Seq::empty(),
    }
}

/// Wire form of a Connection Confirm.
pub open spec fn spec_encode_confirm(n: Option<NegotiationResponse>) -> Seq<u8> {
    spec_fixed(6 + spec_opt_response(n).len() as int, TPDU_CC) + spec_opt_response(n)
}

/// The negotiation payload a CC TPDU decodes to, if it is one.
pub open spec fn spec_decode_confirm(buf: Seq<u8>) -> Option<Option<NegotiationResponse>> {
    match spec_split_cr_cc(buf) {
        None => None,
        Some((body, code)) => if code != TPDU_CC {
            None
        } else if body.len() == 0 {
            Some(None)
        } else {
            match spec_read_response(body) {
                Some(n) => Some(Some(n)),
                None => None,
            }
        },
    }
}

impl ConnectionConfirm {
    /// Serialize to the X.224 TPDU bytes.
    pub fn encode(&self) -> (r: Vec<u8>)
        ensures
            r@ == spec_encode_confirm(self.nego),
    {
        let neg_len: usize = if self.nego.is_some() { NegotiationResponse::SIZE } else { 0 };
        let li = CR_CC_FIXED + neg_len;
        let mut out: Vec<u8> = Vec::new();
        put_u8(&mut out, li as u8);
        put_u8(&mut out, TPDU_CC);
        put_u16_be(&mut out, 0);
        put_u16_be(&mut out, 0);
        put_u8(&mut out, 0);
        match &self.nego {
            Some(neg) => neg.write(&mut out),
            None => {},
        }
        proof {
            if let Some(n) = self.nego {
                lemma_response_roundtrip(n, Seq::empty());
            }
            assert(out@ =~= spec_encode_confirm(self.nego));
        }
        out
    }

    /// Parse a Connection Confirm TPDU.
    pub fn decode(buf: &[u8]) -> (r: Result<ConnectionConfirm>)
        ensures
            r matches Ok(v) ==> spec_decode_confirm(buf@) == Some(v.nego),
            r is Err <==> spec_decode_confirm(buf@) is None,
            buf.len() < 7 ==> is_short(r, 7, buf.len() as int),
            lengths_fit(buf@) && buf[0] < 6 ==> is_protocol(r),
            spec_split_cr_cc(buf@) matches Some((_, code)) && code != TPDU_CC ==> is_protocol(r),
    {
        let (body, code) = split_cr_cc(buf)?;
        if code != TPDU_CC {
            return Err(Error::Protocol("not an X.224 Connection Confirm"));
        }
        let mut body = body;
        let nego = if body.len() != 0 {
            Some(NegotiationResponse::read(&mut body)?)
        } else {
            None
        };
        Ok(ConnectionConfirm { nego })
    }
}

/// `payload` prefixed with the X.224 Data TPDU header.
pub open spec fn spec_wrap_data(payload: Seq<u8>) -> Seq<u8> {
    seq![0x02u8, TPDU_DT, EOT] + payload
}

/// The inner PDU of a Data TPDU, if `buf` is one.
pub open spec fn spec_unwrap_data(buf: Seq<u8>) -> Option<Seq<u8>> {
    if buf.len() < 3 || buf[1] != TPDU_DT {
        None
    } else {
        Some(buf.subrange(buf[0] + 1, buf.len() as int))
    }
}

/// Prefix `payload` with the X.224 Data TPDU header.
pub fn wrap_data(payload: &[u8]) -> (r: Vec<u8>)
    ensures
        r@ == spec_wrap_data(payload@),
{
    let mut out: Vec<u8> = Vec::with_capacity(3);
    put_u8(&mut out, 0x02);
    put_u8(&mut out, TPDU_DT);
    put_u8(&mut out, EOT);
    put_bytes(&mut out, payload);
    proof {
        assert(out@ =~= spec_wrap_data(payload@));
    }
    out
}

/// Strip the X.224 Data TPDU header, returning the inner PDU bytes. The
/// length indicator of a Data TPDU must not point past the end of `buf`.
pub fn unwrap_data(buf: &[u8]) -> (r: Result<&[u8]>)
    requires
        buf.len() >= 3 && buf[1] == TPDU_DT ==> buf[0] + 1 <= buf.len(),
    ensures
        r matches Ok(p) ==> spec_unwrap_data(buf@) == Some(p@),
        r is Err <==> spec_unwrap_data(buf@) is None,
        buf.len() < 3 ==> is_short(r, 3, buf.len() as int),
        buf.len() >= 3 && r is Err ==> is_protocol(r),
{
    if buf.len() < 3 {
        return Err(Error::Short { need: 3, have: buf.len() });
    }
    if buf[1] != TPDU_DT {
        return Err(Error::Protocol("not an X.224 Data TPDU"));
    }
    Ok(slice_range(buf, buf[0] as usize + 1, buf.len()))
}

/// Split a CR/CC TPDU into (body-after-fixed-header, code), validating the LI.
fn split_cr_cc(buf: &[u8]) -> (r: Result<(&[u8], u8)>)
    ensures
        r matches Ok((body, code)) ==> spec_split_cr_cc(buf@) == Some((body@, code)),
        r is Err <==> spec_split_cr_cc(buf@) is None,
        buf.len() < 7 ==> is_short(r, 7, buf.len() as int),
        lengths_fit(buf@) && buf[0] < 6 ==> is_protocol(r),
{
    if buf.len() < CR_CC_FIXED + 1 {
        return Err(Error::Short { need: CR_CC_FIXED + 1, have: buf.len() });
    }
    let li = buf[0] as usize;
    if buf.len() < li + 1 {
        return Err(Error::Short { need: li + 1, have: buf.len() });
    }
    if li < CR_CC_FIXED {
        return Err(Error::Protocol("X.224 length indicator shorter than the fixed part"));
    }
    let code = buf[1];
    Ok((slice_range(buf, 1 + CR_CC_FIXED, 1 + li), code))
}

/// Build the ANSI cookie line `"Cookie: mstshash=<id>\r\n"`.
fn cookie_line(id: &str) -> (r: Vec<u8>)
    ensures
        r@ == spec_cookie_line(id@),
{
    let mut out: Vec<u8> = Vec::new();
    put_bytes(&mut out, &COOKIE_PREFIX);
    put_bytes(&mut out, id.as_bytes());
    put_u8(&mut out, 13);
    put_u8(&mut out, 10);
    proof {
        assert(COOKIE_PREFIX@ =~= cookie_prefix());
        assert(out@ =~= spec_cookie_line(id@));
    }
    out
}

/// If `body` begins with a cookie line, parse the identity and return the rest.
fn take_cookie(body: &[u8]) -> (r: (Option<String>, &[u8]))
    ensures
        (opt_text(r.0), r.1@) == spec_take_cookie(body@),
{
    proof {
        assert(COOKIE_PREFIX@ =~= cookie_prefix());
    }
    if starts_with(body, &COOKIE_PREFIX) {
        match find_crlf(body) {
            Some(end) => {
                proof {
                    lemma_find_crlf_props(body@, 0);
                }
                if end >= 17 {
                    let id = utf8_lossy(slice_range(body, 17, end));
                    return (Some(id), slice_range(body, end + 2, body.len()));
                }
            },
            None => {},
        }
    }
    (None, body)
}

/// The position of the first CR LF in `b`.
fn find_crlf(b: &[u8]) -> (r: Option<usize>)
    ensures
        r matches Some(i) ==> find_crlf_from(b@, 0) == Some(i as int),
        r is None ==> find_crlf_from(b@, 0) is None,
{
    let mut i: usize = 0;
    while b.len() > 1 && i < b.len() - 1
        invariant
            find_crlf_from(b@, 0) == find_crlf_from(b@, i as int),
        decreases b.len() - i,
    {
        if b[i] == 13 && b[i + 1] == 10 {
            return Some(i);
        }
        i = i + 1;
    }
    None
}

proof fn lemma_find_crlf_props(b: Seq<u8>, k: int)
    ensures
        find_crlf_from(b, k) matches Some(m) ==> is_crlf_at(b, m) && m >= k,
    decreases b.len() - k,
{
    if k >= 0 && k + 1 < b.len() && !is_crlf_at(b, k) {
        lemma_find_crlf_props(b, k + 1);
    }
}

/// `find_crlf_from` finds the first CR LF when there is none before it.
proof fn lemma_find_crlf(b: Seq<u8>, k: int, m: int)
    requires
        0 <= k <= m,
        is_crlf_at(b, m),
        forall|j: int| k <= j < m ==> !is_crlf_at(b, j),
    ensures
        find_crlf_from(b, k) == Some(m),
    decreases m - k,
{
    if k < m {
        lemma_find_crlf(b, k + 1, m);
    }
}

/// Decoding an encoded Connection Request gives back the request, when the
/// length indicator fits in a byte and the cookie holds no CR LF.
pub proof fn lemma_request_decode_encode(v: (Option<Seq<char>>, Option<NegotiationRequest>))
    requires
        request_encodable(v),
    ensures
        spec_decode_request(spec_encode_request(v)) == Some(v),
{
    let cb = spec_cookie_bytes(v.0);
    let nb = spec_opt_request(v.1);
    let body = cb + nb;
    let e = spec_encode_request(v);
    lemma_request_roundtrip_len(v.1);
    assert(e[0] == (6 + body.len()) as u8);
    assert(e.subrange(7, e[0] + 1) =~= body);
    match v.0 {
        Some(id) => {
            let idb = encode_utf8(id);
            let end: int = 17 + idb.len() as int;
            assert(body.subrange(0, 17) =~= cookie_prefix());
            assert forall|j: int| 0 <= j < end implies !is_crlf_at(body, j) by {
                if j < 17 {
                    assert(body[j] == cookie_prefix()[j]);
                } else if j < end - 1 {
                    assert(body[j] == idb[j - 17]);
                    assert(body[j + 1] == idb[j - 16]);
                    assert(!is_crlf_at(idb, j - 17));
                } else {
                    assert(body[j + 1] == 13);
                }
            }
            assert(body[end] == 13 && body[end + 1] == 10);
            lemma_find_crlf(body, 0, end);
            assert(body.subrange(17, end) =~= idb);
            assert(body.subrange(end + 2, body.len() as int) =~= nb);
            assert(valid_utf8(idb));
            assert(decode_utf8(idb) == id);
        },
        None => {
            assert(cb.len() == 0);
            assert(body =~= nb);
            if let Some(n) = v.1 {
                assert(body[0] == 1);
            }
        },
    }
    if let Some(n) = v.1 {
        assert(nb =~= spec_request_bytes(n) + Seq::<u8>::empty());
        lemma_request_roundtrip(n, Seq::empty());
    }
}

/// Decoding an encoded Connection Confirm gives back its negotiation payload.
pub proof fn lemma_confirm_decode_encode(n: Option<NegotiationResponse>)
    ensures
        spec_decode_confirm(spec_encode_confirm(n)) == Some(n),
{
    let e = spec_encode_confirm(n);
    let body = spec_opt_response(n);
    if let Some(r) = n {
        lemma_response_roundtrip(r, Seq::empty());
        assert(body =~= spec_response_bytes(r) + Seq::<u8>::empty());
    }
    assert(e.subrange(7, e[0] + 1) =~= body);
}

/// Unwrapping a wrapped Data TPDU gives back the payload.
pub proof fn lemma_unwrap_wrap(payload: Seq<u8>)
    ensures
        spec_unwrap_data(spec_wrap_data(payload)) == Some(payload),
{
    assert(spec_wrap_data(payload).subrange(3, spec_wrap_data(payload).len() as int) =~= payload);
}

} // verus!
