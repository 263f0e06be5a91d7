//! CredSSP structures: TSRequest, TSCredentials, TSPasswordCreds, and the
//! pubKeyAuth binding hashes of protocol version 5 and later.
//!
//! These ride inside the TLS channel. The message flow is:
//! 1. client → negoTokens = NTLM NEGOTIATE
//! 2. server → negoTokens = NTLM CHALLENGE
//! 3. client → negoTokens = NTLM AUTHENTICATE + pubKeyAuth (+ clientNonce for v5+)
//! 4. server → pubKeyAuth (server-direction hash)
//! 5. client → authInfo = SEAL(DER(TSCredentials))

use vstd::prelude::*;
use vstd::string::{StrSliceExecFns, StringSliceAdditionalSpecFns};
use super::crypto::{sha256, spec_sha256, unicode};
use crate::text::spec_unicode;
use super::der::{
    context, context_tag, integer, lemma_read_tlv, octet_string, sequence, spec_expect, spec_read_tlv, spec_tlv, Reader,
    TAG_INTEGER, TAG_OCTET_STRING, TAG_SEQUENCE,
};
use crate::mcs::ber::{lemma_integer_value, spec_integer_content};
use crate::wire::{fold_u64, lemma_fold_u64, put_bytes, put_u8, to_array32, to_vec, views};
use crate::{Error, Result};

verus! {

/// Magic string of the client-to-server binding hash (a NUL follows it).
pub const CLIENT_SERVER_MAGIC: &'static str = "CredSSP Client-To-Server Binding Hash";
/// Magic string of the server-to-client binding hash (a NUL follows it).
pub const SERVER_CLIENT_MAGIC: &'static str = "CredSSP Server-To-Client Binding Hash";

/// `SHA256(magic ‖ 0x00 ‖ nonce ‖ key)`.
pub open spec fn spec_binding_hash(m: &str, nonce: Seq<u8>, key: Seq<u8>) -> Seq<u8> {
    spec_sha256(m.spec_bytes() + seq![0u8] + nonce + key)
}

fn binding_hash(m: &str, nonce: &[u8; 32], key: &[u8]) -> (r: [u8; 32])
    ensures
        r@ == spec_binding_hash(m, nonce@, key@),
{
    let mut data: Vec<u8> = Vec::new();
    let mb = m.as_bytes_vec();
    put_bytes(&mut data, mb.as_slice());
    put_u8(&mut data, 0);
    put_bytes(&mut data, nonce);
    put_bytes(&mut data, key);
    proof {
        assert(data@ =~= m.spec_bytes() + seq![0u8] + nonce@ + key@);
    }
    sha256(data.as_slice())
}

/// The client-direction binding hash over the server's SubjectPublicKey.
pub fn client_server_binding_hash(nonce: &[u8; 32], subject_public_key: &[u8]) -> (r: [u8; 32])
    ensures
        r@ == spec_binding_hash(CLIENT_SERVER_MAGIC, nonce@, subject_public_key@),
{
    binding_hash(CLIENT_SERVER_MAGIC, nonce, subject_public_key)
}

/// The server-direction binding hash the server returns in step 4.
pub fn server_client_binding_hash(nonce: &[u8; 32], subject_public_key: &[u8]) -> (r: [u8; 32])
    ensures
        r@ == spec_binding_hash(SERVER_CLIENT_MAGIC, nonce@, subject_public_key@),
{
    binding_hash(SERVER_CLIENT_MAGIC, nonce, subject_public_key)
}

/// TSPasswordCreds: the credentials themselves, sent as UTF-16LE with no BOM.
#[derive(Clone, Debug, PartialEq, Eq)]
pub struct PasswordCreds {
    pub domain: String,
    pub username: String,
    pub password: String,
}

/// DER of TSPasswordCreds.
pub open spec fn spec_password_creds(domain: Seq<char>, username: Seq<char>, password: Seq<char>) -> Seq<u8> {
    spec_tlv(
        TAG_SEQUENCE,
        spec_tlv(0xA0, spec_tlv(TAG_OCTET_STRING, spec_unicode(domain)))
            + spec_tlv(0xA1, spec_tlv(TAG_OCTET_STRING, spec_unicode(username)))
            + spec_tlv(0xA2, spec_tlv(TAG_OCTET_STRING, spec_unicode(password))),
    )
}

impl PasswordCreds {
    /// DER-encode as `SEQUENCE { [0] domain, [1] userName, [2] password }`.
    pub fn encode(&self) -> (r: Vec<u8>)
        ensures
            r@ == spec_password_creds(self.domain@, self.username@, self.password@),
    {
        let d = context(0, octet_string(unicode(self.domain.as_str()).as_slice()).as_slice());
        let u = context(1, octet_string(unicode(self.username.as_str()).as_slice()).as_slice());
        let p = context(2, octet_string(unicode(self.password.as_str()).as_slice()).as_slice());
        let mut body: Vec<u8> = Vec::new();
        put_bytes(&mut body, d.as_slice());
        put_bytes(&mut body, u.as_slice());
        put_bytes(&mut body, p.as_slice());
        sequence(body.as_slice())
    }
}

/// DER of TSCredentials carrying password credentials (credType 1).
pub open spec fn spec_ts_credentials(creds: Seq<u8>) -> Seq<u8> {
    spec_tlv(
        TAG_SEQUENCE,
        spec_tlv(0xA0, spec_tlv(TAG_INTEGER, spec_integer_content(1))) + spec_tlv(0xA1, spec_tlv(TAG_OCTET_STRING, creds)),
    )
}

/// TSCredentials wrapping password credentials (credType 1).
pub fn ts_credentials_password(creds: &PasswordCreds) -> (r: Vec<u8>)
    ensures
        r@ == spec_ts_credentials(spec_password_creds(creds.domain@, creds.username@, creds.password@)),
{
    let ct = context(0, integer(1).as_slice());
    let inner = context(1, octet_string(creds.encode().as_slice()).as_slice());
    let mut body: Vec<u8> = Vec::new();
    put_bytes(&mut body, ct.as_slice());
    put_bytes(&mut body, inner.as_slice());
    sequence(body.as_slice())
}

/// TSRequest.
#[derive(Clone, Debug, PartialEq, Eq)]
pub struct TsRequest {
    pub version: u32,
    /// Zero or more nego tokens (NTLM messages); usually exactly one.
    pub nego_tokens: Vec<Vec<u8>>,
    pub auth_info: Option<Vec<u8>>,
    pub pub_key_auth: Option<Vec<u8>>,
    pub error_code: Option<u32>,
    pub client_nonce: Option<[u8; 32]>,
}

/// The contents of a TSRequest.
pub struct TsView {
    pub version: u32,
    pub nego_tokens: Seq<Seq<u8>>,
    pub auth_info: Option<Seq<u8>>,
    pub pub_key_auth: Option<Seq<u8>>,
    pub error_code: Option<u32>,
    pub client_nonce: Option<Seq<u8>>,
}

/// The bytes held by an optional vector.
pub open spec fn opt_bytes(o: Option<Vec<u8>>) -> Option<Seq<u8>> {
    match o {
        Some(v) => Some(v@),
        None => None,
    }
}

/// The bytes held by an optional nonce.
pub open spec fn opt_nonce(o: Option<[u8; 32]>) -> Option<Seq<u8>> {
    match o {
        Some(v) => Some(v@),
        None => None,
    }
}

impl View for TsRequest {
    type V = TsView;

    open spec fn view(&self) -> TsView {
        TsView {
            version: self.version,
            nego_tokens: views(self.nego_tokens@),
            auth_info: opt_bytes(self.auth_info),
            pub_key_auth: opt_bytes(self.pub_key_auth),
            error_code: self.error_code,
            client_nonce: opt_nonce(self.client_nonce),
        }
    }
}

/// A TSRequest of `version` with no other field.
pub open spec fn empty_request(version: u32) -> TsView {
    TsView {
        version,
        nego_tokens: Seq::empty(),
        auth_info: None,
        pub_key_auth: None,
        error_code: None,
        client_nonce: None,
    }
}

impl Default for TsRequest {
    fn default() -> (r: TsRequest)
        ensures
            r@ == empty_request(0),
    {
        TsRequest::new(0)
    }
}

/// One NegoData item: `SEQUENCE { [0] OCTET STRING }`.
pub open spec fn nego_item(token: Seq<u8>) -> Seq<u8> {
    spec_tlv(TAG_SEQUENCE, spec_tlv(0xA0, spec_tlv(TAG_OCTET_STRING, token)))
}

/// NegoData items: `SEQUENCE { [0] OCTET STRING }` for each token.
pub open spec fn spec_nego_items(tokens: Seq<Seq<u8>>) -> Seq<u8>
    decreases tokens.len(),
{
    if tokens.len() == 0 {
        Seq::empty()
    } else {
        spec_nego_items(tokens.drop_last()) + nego_item(tokens.last())
    }
}

/// The DER of an optional field `[n] inner(v)`.
pub open spec fn opt_field(n: u8, v: Option<Seq<u8>>) -> Seq<u8> {
    match v {
        Some(b) => spec_tlv((0xA0 + n) as u8, spec_tlv(TAG_OCTET_STRING, b)),
        None => Seq::empty(),
    }
}

/// DER of a TSRequest: `[0]` version, then `[1]` NegoData when there are
/// tokens, then the optional `[2]` authInfo, `[3]` pubKeyAuth, `[4]` errorCode
/// and `[5]` clientNonce.
pub open spec fn spec_encode_ts(v: TsView) -> Seq<u8> {
    let version = spec_tlv(0xA0, spec_tlv(TAG_INTEGER, spec_integer_content(v.version as nat)));
    let nego = if v.nego_tokens.len() == 0 {
        Seq::empty()
    } else {
        spec_tlv(0xA1, spec_tlv(TAG_SEQUENCE, spec_nego_items(v.nego_tokens)))
    };
    let error = match v.error_code {
        Some(c) => spec_tlv(0xA4, spec_tlv(TAG_INTEGER, spec_integer_content(c as nat))),
        None => Seq::empty(),
    };
    spec_tlv(
        TAG_SEQUENCE,
        version + nego + opt_field(2, v.auth_info) + opt_field(3, v.pub_key_auth) + error + opt_field(
            5,
            v.client_nonce,
        ),
    )
}

/// The tokens of a NegoData list `SEQUENCE { [0] OCTET STRING }*`.
pub open spec fn spec_nego_list(l: Seq<u8>) -> Option<Seq<Seq<u8>>>
    decreases l.len(),
{
    if l.len() == 0 {
        Some(Seq::empty())
    } else {
        match spec_expect(l, TAG_SEQUENCE) {
            None => None,
            Some((item, k)) => match spec_expect(item, 0xA0) {
                None => None,
                Some((tok, _)) => match spec_expect(tok, TAG_OCTET_STRING) {
                    None => None,
                    Some((b, _)) => if 0 < k <= l.len() {
                        match spec_nego_list(l.subrange(k, l.len() as int)) {
                            None => None,
                            Some(rest) => Some(seq![b] + rest),
                        }
                    } else {
                        None
                    },
                },
            },
        }
    }
}

/// The tokens of a NegoData field value.
pub open spec fn spec_nego_data(v: Seq<u8>) -> Option<Seq<Seq<u8>>> {
    match spec_expect(v, TAG_SEQUENCE) {
        None => None,
        Some((list, _)) => spec_nego_list(list),
    }
}

/// The INTEGER at the front of `v`, cut to 32 bits.
pub open spec fn spec_int32(v: Seq<u8>) -> Option<u32> {
    match spec_expect(v, TAG_INTEGER) {
        None => None,
        Some((c, _)) => Some(fold_u64(c) as u32),
    }
}

/// The OCTET STRING at the front of `v`.
pub open spec fn spec_octets(v: Seq<u8>) -> Option<Seq<u8>> {
    match spec_expect(v, TAG_OCTET_STRING) {
        None => None,
        Some((c, _)) => Some(c),
    }
}

/// `acc` with the field of context tag `t` and value `v` applied; unknown tags
/// leave it unchanged, a client nonce of another length than 32 is ignored.
pub open spec fn spec_apply_field(acc: TsView, t: u8, v: Seq<u8>) -> Option<TsView> {
    if t == 0xA0 {
        match spec_int32(v) {
            None => None,
            Some(n) => Some(TsView { version: n, ..acc }),
        }
    } else if t == 0xA1 {
        match spec_nego_data(v) {
            None => None,
            Some(toks) => Some(TsView { nego_tokens: acc.nego_tokens + toks, ..acc }),
        }
    } else if t == 0xA2 {
        match spec_octets(v) {
            None => None,
            Some(b) => Some(TsView { auth_info: Some(b), ..acc }),
        }
    } else if t == 0xA3 {
        match spec_octets(v) {
            None => None,
            Some(b) => Some(TsView { pub_key_auth: Some(b), ..acc }),
        }
    } else if t == 0xA4 {
        match spec_int32(v) {
            None => None,
            Some(n) => Some(TsView { error_code: Some(n), ..acc }),
        }
    } else if t == 0xA5 {
        match spec_octets(v) {
            None => None,
            Some(b) => if b.len() == 32 {
                Some(TsView { client_nonce: Some(b), ..acc })
            } else {
                Some(acc)
            },
        }
    } else {
        Some(acc)
    }
}

/// The fields of a TSRequest body `s`, applied in order to `acc`.
pub open spec fn spec_ts_fields(s: Seq<u8>, acc: TsView) -> Option<TsView>
    decreases s.len(),
{
    if s.len() == 0 {
        Some(acc)
    } else {
        match spec_read_tlv(s) {
            None => None,
            Some((t, v, k)) => if 0 < k <= s.len() {
                match spec_apply_field(acc, t, v) {
                    None => None,
                    Some(a) => spec_ts_fields(s.subrange(k, s.len() as int), a),
                }
            } else {
                None
            },
        }
    }
}

/// The TSRequest held by `buf`: a SEQUENCE whose fields are read in order.
pub open spec fn spec_decode_ts(buf: Seq<u8>) -> Option<TsView> {
    match spec_expect(buf, TAG_SEQUENCE) {
        None => None,
        Some((inner, _)) => spec_ts_fields(inner, empty_request(0)),
    }
}

/// A TLV read from the front of a sequence takes at least one byte of it.
pub proof fn lemma_read_tlv_progress(s: Seq<u8>)
    ensures
        spec_read_tlv(s) matches Some((_, _, k)) ==> 0 < k <= s.len(),
{
}

/// The value a TLV read from `s` holds is no longer than `s`.
proof fn lemma_expect_len(s: Seq<u8>, tag: u8)
    ensures
        spec_read_tlv(s) matches Some((_, v, _)) ==> v.len() <= s.len(),
        spec_expect(s, tag) matches Some((v, _)) ==> v.len() <= s.len(),
{
}

/// The pubKeyAuth of `v` is at most `b` bytes long.
pub open spec fn pub_key_auth_within(v: TsView, b: nat) -> bool {
    v.pub_key_auth matches Some(p) ==> p.len() <= b
}

proof fn lemma_ts_fields_bounded(s: Seq<u8>, acc: TsView, b: nat)
    requires
        s.len() <= b,
        pub_key_auth_within(acc, b),
    ensures
        spec_ts_fields(s, acc) matches Some(v) ==> pub_key_auth_within(v, b),
    decreases s.len(),
{
    if s.len() > 0 {
        lemma_expect_len(s, 0);
        if let Some((t, v, k)) = spec_read_tlv(s) {
            lemma_expect_len(v, TAG_OCTET_STRING);
            if 0 < k <= s.len() {
                if let Some(a) = spec_apply_field(acc, t, v) {
                    lemma_ts_fields_bounded(s.subrange(k, s.len() as int), a, b);
                }
            }
        }
    }
}

/// The pubKeyAuth of a decoded TSRequest is no longer than the bytes it came from.
pub proof fn lemma_decode_ts_bounded(buf: Seq<u8>)
    ensures
        spec_decode_ts(buf) matches Some(v) ==> pub_key_auth_within(v, buf.len()),
{
    lemma_expect_len(buf, TAG_SEQUENCE);
    if let Some((inner, _)) = spec_expect(buf, TAG_SEQUENCE) {
        lemma_ts_fields_bounded(inner, empty_request(0), buf.len());
    }
}

/// The NegoData items of `a + b` are those of `a` followed by those of `b`.
proof fn lemma_nego_items_concat(a: Seq<Seq<u8>>, b: Seq<Seq<u8>>)
    ensures
        spec_nego_items(a + b) == spec_nego_items(a) + spec_nego_items(b),
    decreases b.len(),
{
    if b.len() == 0 {
        assert(a + b =~= a);
        assert(spec_nego_items(a) + spec_nego_items(b) =~= spec_nego_items(a));
    } else {
        lemma_nego_items_concat(a, b.drop_last());
        assert((a + b).drop_last() =~= a + b.drop_last());
        assert((a + b).last() == b.last());
        assert(spec_nego_items(a) + spec_nego_items(b.drop_last()) + nego_item(b.last()) =~= spec_nego_items(a)
            + (spec_nego_items(b.drop_last()) + nego_item(b.last())));
    }
}

/// Reading a NegoData list gives back the tokens it was built from.
proof fn lemma_nego_list_items(toks: Seq<Seq<u8>>)
    requires
        spec_nego_items(toks).len() < 0x1_0000_0000,
    ensures
        spec_nego_list(spec_nego_items(toks)) == Some(toks),
    decreases toks.len(),
{
    if toks.len() > 0 {
        let first = seq![toks[0]];
        let tail = toks.subrange(1, toks.len() as int);
        assert(toks =~= first + tail);
        lemma_nego_items_concat(first, tail);
        assert(first.drop_last() =~= Seq::<Seq<u8>>::empty());
        assert(spec_nego_items(first.drop_last()) =~= Seq::<u8>::empty());
        assert(first.last() == toks[0]);
        let it = nego_item(toks[0]);
        assert(spec_nego_items(first) =~= it);
        let l = spec_nego_items(toks);
        assert(l =~= it + spec_nego_items(tail));
        let oct = spec_tlv(TAG_OCTET_STRING, toks[0]);
        let inner = spec_tlv(0xA0, oct);
        lemma_read_tlv(TAG_SEQUENCE, inner, spec_nego_items(tail));
        assert(inner + Seq::<u8>::empty() =~= inner);
        lemma_read_tlv(0xA0, oct, Seq::empty());
        assert(oct + Seq::<u8>::empty() =~= oct);
        lemma_read_tlv(TAG_OCTET_STRING, toks[0], Seq::empty());
        assert(l.subrange(it.len() as int, l.len() as int) =~= spec_nego_items(tail));
        lemma_nego_list_items(tail);
        assert(seq![toks[0]] + tail =~= toks);
    }
}

/// Reading one field TLV off the front of a TSRequest body applies it.
proof fn lemma_fields_step(t: u8, val: Seq<u8>, rest: Seq<u8>, acc: TsView)
    requires
        val.len() < 0x1_0000_0000,
    ensures
        spec_ts_fields(spec_tlv(t, val) + rest, acc) == (match spec_apply_field(acc, t, val) {
            None => None,
            Some(a) => spec_ts_fields(rest, a),
        }),
{
    let s = spec_tlv(t, val) + rest;
    lemma_read_tlv(t, val, rest);
    let k = spec_tlv(t, val).len() as int;
    assert(s.subrange(k, s.len() as int) =~= rest);
}

/// An encoded OCTET STRING reads back as its bytes.
proof fn lemma_octets_value(b: Seq<u8>)
    requires
        b.len() < 0x1_0000_0000,
    ensures
        spec_octets(spec_tlv(TAG_OCTET_STRING, b)) == Some(b),
{
    lemma_read_tlv(TAG_OCTET_STRING, b, Seq::empty());
    assert(spec_tlv(TAG_OCTET_STRING, b) + Seq::<u8>::empty() =~= spec_tlv(TAG_OCTET_STRING, b));
}

/// An encoded 32-bit INTEGER reads back as its value.
proof fn lemma_int32_value(c: u32)
    ensures
        spec_int32(spec_tlv(TAG_INTEGER, spec_integer_content(c as nat))) == Some(c),
{
    let content = spec_integer_content(c as nat);
    lemma_integer_value(c);
    lemma_fold_u64(content);
    lemma_read_tlv(TAG_INTEGER, content, Seq::empty());
    assert(spec_tlv(TAG_INTEGER, content) + Seq::<u8>::empty() =~= spec_tlv(TAG_INTEGER, content));
}

/// The `[1]` NegoData field of an encoding: absent when there are no tokens.
pub open spec fn nego_field(tokens: Seq<Seq<u8>>) -> Seq<u8> {
    if tokens.len() == 0 {
        Seq::empty()
    } else {
        spec_tlv(0xA1, spec_tlv(TAG_SEQUENCE, spec_nego_items(tokens)))
    }
}

/// An INTEGER field `[n]` holding `c`.
pub open spec fn int_field(tag: u8, c: u32) -> Seq<u8> {
    spec_tlv(tag, spec_tlv(TAG_INTEGER, spec_integer_content(c as nat)))
}

/// The optional `[4]` errorCode field.
pub open spec fn error_field(e: Option<u32>) -> Seq<u8> {
    match e {
        Some(c) => int_field(0xA4, c),
        None => Seq::empty(),
    }
}

proof fn lemma_step_version(c: u32, rest: Seq<u8>, acc: TsView)
    ensures
        spec_ts_fields(int_field(0xA0, c) + rest, acc) == spec_ts_fields(rest, TsView { version: c, ..acc }),
{
    lemma_integer_value(c);
    lemma_fields_step(0xA0, spec_tlv(TAG_INTEGER, spec_integer_content(c as nat)), rest, acc);
    lemma_int32_value(c);
}

proof fn lemma_step_nego(toks: Seq<Seq<u8>>, rest: Seq<u8>, acc: TsView)
    requires
        acc.nego_tokens.len() == 0,
        nego_field(toks).len() < 0x1_0000_0000,
    ensures
        spec_ts_fields(nego_field(toks) + rest, acc) == spec_ts_fields(rest, TsView { nego_tokens: toks, ..acc }),
{
    if toks.len() == 0 {
        assert(nego_field(toks) + rest =~= rest);
        assert(toks =~= acc.nego_tokens);
        assert(TsView { nego_tokens: toks, ..acc } == acc);
    } else {
        let items = spec_nego_items(toks);
        lemma_fields_step(0xA1, spec_tlv(TAG_SEQUENCE, items), rest, acc);
        lemma_read_tlv(TAG_SEQUENCE, items, Seq::empty());
        assert(spec_tlv(TAG_SEQUENCE, items) + Seq::<u8>::empty() =~= spec_tlv(TAG_SEQUENCE, items));
        lemma_nego_list_items(toks);
        assert(acc.nego_tokens + toks =~= toks);
    }
}

proof fn lemma_step_auth_info(o: Option<Seq<u8>>, rest: Seq<u8>, acc: TsView)
    requires
        opt_field(2, o).len() < 0x1_0000_0000,
        acc.auth_info is None,
    ensures
        spec_ts_fields(opt_field(2, o) + rest, acc) == spec_ts_fields(rest, TsView { auth_info: o, ..acc }),
{
    match o {
        Some(b) => {
            lemma_fields_step(0xA2, spec_tlv(TAG_OCTET_STRING, b), rest, acc);
            lemma_octets_value(b);
        },
        None => {
            assert(opt_field(2, o) + rest =~= rest);
            assert(TsView { auth_info: o, ..acc } == acc);
        },
    }
}

proof fn lemma_step_pub_key_auth(o: Option<Seq<u8>>, rest: Seq<u8>, acc: TsView)
    requires
        opt_field(3, o).len() < 0x1_0000_0000,
        acc.pub_key_auth is None,
    ensures
        spec_ts_fields(opt_field(3, o) + rest, acc) == spec_ts_fields(rest, TsView { pub_key_auth: o, ..acc }),
{
    match o {
        Some(b) => {
            lemma_fields_step(0xA3, spec_tlv(TAG_OCTET_STRING, b), rest, acc);
            lemma_octets_value(b);
        },
        None => {
            assert(opt_field(3, o) + rest =~= rest);
            assert(TsView { pub_key_auth: o, ..acc } == acc);
        },
    }
}

proof fn lemma_step_error(e: Option<u32>, rest: Seq<u8>, acc: TsView)
    requires
        acc.error_code is None,
    ensures
        spec_ts_fields(error_field(e) + rest, acc) == spec_ts_fields(rest, TsView { error_code: e, ..acc }),
{
    match e {
        Some(c) => {
            lemma_integer_value(c);
            lemma_fields_step(0xA4, spec_tlv(TAG_INTEGER, spec_integer_content(c as nat)), rest, acc);
            lemma_int32_value(c);
        },
        None => {
            assert(error_field(e) + rest =~= rest);
            assert(TsView { error_code: e, ..acc } == acc);
        },
    }
}

proof fn lemma_step_nonce(o: Option<Seq<u8>>, acc: TsView)
    requires
        opt_field(5, o).len() < 0x1_0000_0000,
        o matches Some(n) ==> n.len() == 32,
        acc.client_nonce is None,
    ensures
        spec_ts_fields(opt_field(5, o), acc) == Some(TsView { client_nonce: o, ..acc }),
{
    match o {
        Some(b) => {
            lemma_fields_step(0xA5, spec_tlv(TAG_OCTET_STRING, b), Seq::empty(), acc);
            assert(opt_field(5, o) + Seq::<u8>::empty() =~= opt_field(5, o));
            lemma_octets_value(b);
        },
        None => {
            assert(TsView { client_nonce: o, ..acc } == acc);
        },
    }
}

/// Decoding an encoded TSRequest gives it back, whenever its encoding has
/// lengths that fit 32 bits and its client nonce, if any, is 32 bytes long
/// (as it always is in a `TsRequest`).
#[verifier::spinoff_prover]
#[verifier::rlimit(50)]
pub proof fn lemma_decode_encode_ts(v: TsView)
    requires
        spec_encode_ts(v).len() < 0x1_0000_0000,
        v.client_nonce matches Some(n) ==> n.len() == 32,
    ensures
        spec_decode_ts(spec_encode_ts(v)) == Some(v),
{
    let r4 = error_field(v.error_code) + opt_field(5, v.client_nonce);
    let r3 = opt_field(3, v.pub_key_auth) + r4;
    let r2 = opt_field(2, v.auth_info) + r3;
    let r1 = nego_field(v.nego_tokens) + r2;
    let body = int_field(0xA0, v.version) + r1;
    let flat = int_field(0xA0, v.version) + nego_field(v.nego_tokens) + opt_field(2, v.auth_info) + opt_field(
        3,
        v.pub_key_auth,
    ) + error_field(v.error_code) + opt_field(5, v.client_nonce);
    assert(flat =~= body);
    assert(spec_encode_ts(v) == spec_tlv(TAG_SEQUENCE, flat));
    lemma_read_tlv(TAG_SEQUENCE, body, Seq::empty());
    assert(spec_tlv(TAG_SEQUENCE, body) + Seq::<u8>::empty() =~= spec_tlv(TAG_SEQUENCE, body));

    let a0 = TsView { version: v.version, ..empty_request(0) };
    let a1 = TsView { nego_tokens: v.nego_tokens, ..a0 };
    let a2 = TsView { auth_info: v.auth_info, ..a1 };
    let a3 = TsView { pub_key_auth: v.pub_key_auth, ..a2 };
    let a4 = TsView { error_code: v.error_code, ..a3 };
    lemma_step_version(v.version, r1, empty_request(0));
    lemma_step_nego(v.nego_tokens, r2, a0);
    lemma_step_auth_info(v.auth_info, r3, a1);
    lemma_step_pub_key_auth(v.pub_key_auth, r4, a2);
    lemma_step_error(v.error_code, opt_field(5, v.client_nonce), a3);
    lemma_step_nonce(v.client_nonce, a4);
    assert(TsView { client_nonce: v.client_nonce, ..a4 } == v);
}

fn decode_nego_data(value: &[u8]) -> (r: Result<Vec<Vec<u8>>>)
    ensures
        r matches Ok(v) ==> spec_nego_data(value@) == Some(views(v@)),
        r is Err <==> spec_nego_data(value@) is None,
{
    let mut nd = Reader::new(value);
    let list = nd.expect(TAG_SEQUENCE)?;
    let ghost list0 = list@;
    let mut lr = Reader::new(list);
    let mut toks: Vec<Vec<u8>> = Vec::new();
    while !lr.is_empty()
        invariant
            spec_nego_data(value@) == spec_nego_list(list0),
            spec_nego_list(list0) == (match spec_nego_list(lr@) {
                Some(rest) => Some(views(toks@) + rest),
                None => None,
            }),
        decreases lr@.len(),
    {
        proof {
            lemma_read_tlv_progress(lr@);
        }
        let ghost before = lr@;
        let item = lr.expect(TAG_SEQUENCE)?;
        let mut ir = Reader::new(item);
        let tok = ir.expect(context_tag(0))?;
        let bytes = Reader::new(tok).expect(TAG_OCTET_STRING)?;
        let ghost prev = toks@;
        toks.push(to_vec(bytes));
        proof {
            assert(views(toks@) =~= views(prev) + seq![bytes@]);
            match spec_nego_list(lr@) {
                Some(rest) => {
                    assert(views(prev) + (seq![bytes@] + rest) =~= views(toks@) + rest);
                },
                None => {},
            }
        }
    }
    proof {
        assert(views(toks@) + Seq::<Seq<u8>>::empty() =~= views(toks@));
    }
    Ok(toks)
}

fn read_int32(value: &[u8]) -> (r: Result<u32>)
    ensures
        r matches Ok(n) ==> spec_int32(value@) == Some(n),
        r is Err <==> spec_int32(value@) is None,
{
    let n = Reader::new(value).read_integer()?;
    Ok(n as u32)
}

fn read_octets(value: &[u8]) -> (r: Result<Vec<u8>>)
    ensures
        r matches Ok(b) ==> spec_octets(value@) == Some(b@),
        r is Err <==> spec_octets(value@) is None,
{
    let b = Reader::new(value).expect(TAG_OCTET_STRING)?;
    Ok(to_vec(b))
}

impl TsRequest {
    /// A TSRequest of `version` with no other field.
    pub fn new(version: u32) -> (r: TsRequest)
        ensures
            r@ == empty_request(version),
    {
        let r = TsRequest {
            version,
            nego_tokens: Vec::new(),
            auth_info: None,
            pub_key_auth: None,
            error_code: None,
            client_nonce: None,
        };
        proof {
            assert(views(r.nego_tokens@) =~= Seq::<Seq<u8>>::empty());
        }
        r
    }

    fn nego_items(tokens: &Vec<Vec<u8>>) -> (r: Vec<u8>)
        ensures
            r@ == spec_nego_items(views(tokens@)),
    {
        let mut items: Vec<u8> = Vec::new();
        let mut i: usize = 0;
        while i < tokens.len()
            invariant
                i <= tokens.len(),
                items@ == spec_nego_items(views(tokens@).subrange(0, i as int)),
            decreases tokens.len() - i,
        {
            let inner = context(0, octet_string(tokens[i].as_slice()).as_slice());
            let item = sequence(inner.as_slice());
            put_bytes(&mut items, item.as_slice());
            proof {
                let s = views(tokens@).subrange(0, i + 1);
                assert(s.drop_last() =~= views(tokens@).subrange(0, i as int));
            }
            i = i + 1;
        }
        proof {
            assert(views(tokens@).subrange(0, tokens.len() as int) =~= views(tokens@));
        }
        items
    }

    fn put_opt_field(body: &mut Vec<u8>, n: u8, v: &Option<Vec<u8>>)
        requires
            n <= 5,
        ensures
            final(body)@ == old(body)@ + opt_field(n, opt_bytes(*v)),
    {
        match v {
            Some(b) => {
                let f = context(n, octet_string(b.as_slice()).as_slice());
                put_bytes(body, f.as_slice());
            },
            None => {
                proof {
                    assert(old(body)@ + Seq::<u8>::empty() =~= old(body)@);
                }
            },
        }
    }

    /// DER-encode this TSRequest.
    pub fn encode(&self) -> (r: Vec<u8>)
        ensures
            r@ == spec_encode_ts(self@),
    {
        let mut body = context(0, integer(self.version as u64).as_slice());
        let ghost v0 = body@;
        if self.nego_tokens.len() != 0 {
            let items = Self::nego_items(&self.nego_tokens);
            let nd = context(1, sequence(items.as_slice()).as_slice());
            put_bytes(&mut body, nd.as_slice());
        } else {
            proof {
                assert(body@ + Seq::<u8>::empty() =~= body@);
            }
        }
        let ghost v1 = body@;
        Self::put_opt_field(&mut body, 2, &self.auth_info);
        Self::put_opt_field(&mut body, 3, &self.pub_key_auth);
        let ghost v3 = body@;
        match self.error_code {
            Some(code) => {
                let e = context(4, integer(code as u64).as_slice());
                put_bytes(&mut body, e.as_slice());
            },
            None => {
                proof {
                    assert(body@ + Seq::<u8>::empty() =~= body@);
                }
            },
        }
        match &self.client_nonce {
            Some(nonce) => {
                let f = context(5, octet_string(nonce).as_slice());
                put_bytes(&mut body, f.as_slice());
            },
            None => {
                proof {
                    assert(body@ + Seq::<u8>::empty() =~= body@);
                }
            },
        }
        proof {
            let v = self@;
            assert(views(self.nego_tokens@).len() == self.nego_tokens.len());
            let version = spec_tlv(0xA0, spec_tlv(TAG_INTEGER, spec_integer_content(v.version as nat)));
            let nego = if v.nego_tokens.len() == 0 {
                Seq::empty()
            } else {
                spec_tlv(0xA1, spec_tlv(TAG_SEQUENCE, spec_nego_items(v.nego_tokens)))
            };
            let error = match v.error_code {
                Some(c) => spec_tlv(0xA4, spec_tlv(TAG_INTEGER, spec_integer_content(c as nat))),
                None => Seq::empty(),
            };
            assert(body@ =~= version + nego + opt_field(2, v.auth_info) + opt_field(3, v.pub_key_auth) + error
                + opt_field(5, v.client_nonce));
        }
        sequence(body.as_slice())
    }

    fn apply_field(&mut self, t: u8, value: &[u8]) -> (r: Result<()>)
        ensures
            r is Ok ==> spec_apply_field(old(self)@, t, value@) == Some(final(self)@),
            r is Err <==> spec_apply_field(old(self)@, t, value@) is None,
    {
        if t == context_tag(0) {
            self.version = read_int32(value)?;
        } else if t == context_tag(1) {
            let toks = decode_nego_data(value)?;
            let ghost prev = self.nego_tokens@;
            let mut i: usize = 0;
            while i < toks.len()
                invariant
                    i <= toks.len(),
                    views(self.nego_tokens@) == views(prev) + views(toks@).subrange(0, i as int),
                    self.version == old(self).version,
                    self.auth_info == old(self).auth_info,
                    self.pub_key_auth == old(self).pub_key_auth,
                    self.error_code == old(self).error_code,
                    self.client_nonce == old(self).client_nonce,
                    prev == old(self).nego_tokens@,
                decreases toks.len() - i,
            {
                let ghost before = self.nego_tokens@;
                self.nego_tokens.push(toks[i].clone());
                proof {
                    assert(views(self.nego_tokens@) =~= views(before) + seq![toks@[i as int]@]);
                    assert(views(toks@).subrange(0, i + 1) =~= views(toks@).subrange(0, i as int) + seq![toks@[i as int]@]);
                    assert(views(self.nego_tokens@) =~= views(prev) + views(toks@).subrange(0, i + 1));
                }
                i = i + 1;
            }
            proof {
                assert(views(toks@).subrange(0, toks.len() as int) =~= views(toks@));
            }
        } else if t == context_tag(2) {
            self.auth_info = Some(read_octets(value)?);
        } else if t == context_tag(3) {
            self.pub_key_auth = Some(read_octets(value)?);
        } else if t == context_tag(4) {
            self.error_code = Some(read_int32(value)?);
        } else if t == context_tag(5) {
            let n = read_octets(value)?;
            if n.len() == 32 {
                self.client_nonce = Some(to_array32(n.as_slice()));
            }
        }
        Ok(())
    }

    /// Decode a TSRequest: a SEQUENCE of context-tagged fields, read in
    /// order; unknown tags are skipped.
    pub fn decode(buf: &[u8]) -> (r: Result<TsRequest>)
        ensures
            r matches Ok(v) ==> spec_decode_ts(buf@) == Some(v@),
            r is Err <==> spec_decode_ts(buf@) is None,
    {
        let mut top = Reader::new(buf);
        let inner = top.expect(TAG_SEQUENCE)?;
        let mut r = Reader::new(inner);
        let mut req = TsRequest::new(0);
        while !r.is_empty()
            invariant
                spec_decode_ts(buf@) == spec_ts_fields(r@, req@),
            decreases r@.len(),
        {
            proof {
                lemma_read_tlv_progress(r@);
            }
            let (tag, value) = r.read_tlv()?;
            req.apply_field(tag, value)?;
        }
        Ok(req)
    }
}

} // verus!
