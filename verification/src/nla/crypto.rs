//! Cryptographic primitives for NTLMv2 / CredSSP: MD4, MD5, HMAC-MD5, RC4 and
//! SHA-256 from the RustCrypto crates, plus NTOWFv2. All NTLM crypto is
//! little-endian and uses UTF-16LE for text.

use vstd::prelude::*;
use hmac::Mac;
use md4::Digest;
use rc4::{KeyInit, StreamCipher};
use rand::RngCore;
use crate::text::{
    encode_utf16_units, lemma_unicode_concat, spec_to_uppercase, spec_unicode, to_uppercase,
    units_to_le,
};
use crate::wire::put_bytes;

verus! {

/// Encode a string as UTF-16LE bytes (what NTLM calls "UNICODE").
pub fn unicode(s: &str) -> (r: Vec<u8>)
    ensures
        r@ == spec_unicode(s@),
{
    let units = encode_utf16_units(s);
    units_to_le(&units)
}

/// MD4 digest of `data`.
pub uninterp spec fn spec_md4(data: Seq<u8>) -> Seq<u8>;

/// MD5 digest of `data`.
pub uninterp spec fn spec_md5(data: Seq<u8>) -> Seq<u8>;

/// HMAC-MD5 of `data` under `key`.
pub uninterp spec fn spec_hmac_md5(key: Seq<u8>, data: Seq<u8>) -> Seq<u8>;

/// The first `len` bytes of the RC4 keystream for `key`.
pub uninterp spec fn spec_rc4_keystream(key: Seq<u8>, len: nat) -> Seq<u8>;

/// SHA-256 digest of `data`.
pub uninterp spec fn spec_sha256(data: Seq<u8>) -> Seq<u8>;

/// Bytewise XOR of `data` with the first `data.len()` bytes of `ks`.
pub open spec fn xor(data: Seq<u8>, ks: Seq<u8>) -> Seq<u8> {
    Seq::new(data.len(), |i: int| data[i] ^ ks[i])
}

/// Calls `md4::Md4` (update, finalize): the 16-byte MD4 digest, named.
#[verifier::external_body]
pub fn md4(data: &[u8]) -> (r: [u8; 16])
    ensures
        r@ == spec_md4(data@),
{
    let mut h = md4::Md4::new();
    h.update(data);
    h.finalize().into()
}

/// Calls `md5::Md5` (update, finalize): the 16-byte MD5 digest, named.
#[verifier::external_body]
pub fn md5(data: &[u8]) -> (r: [u8; 16])
    ensures
        r@ == spec_md5(data@),
{
    let mut h = md5::Md5::new();
    h.update(data);
    h.finalize().into()
}

/// Calls `hmac::Hmac<md5::Md5>` (new_from_slice, update, finalize). HMAC
/// accepts keys of any length, so the construction cannot fail; the 16-byte
/// tag is named.
#[verifier::external_body]
pub fn hmac_md5(key: &[u8], data: &[u8]) -> (r: [u8; 16])
    ensures
        r@ == spec_hmac_md5(key@, data@),
{
    let mut mac = <hmac::Hmac<md5::Md5> as Mac>::new_from_slice(key).expect("HMAC accepts any key length");
    mac.update(data);
    mac.finalize().into_bytes().into()
}

/// Calls `rc4::Rc4<U16>` (new, apply_keystream over `len` zero bytes): the
/// first `len` keystream bytes for `key`, named; there are exactly `len` of them.
#[verifier::external_body]
fn rc4_keystream(key: &[u8; 16], len: usize) -> (r: Vec<u8>)
    ensures
        r@ == spec_rc4_keystream(key@, len as nat),
        r@.len() == len,
{
    let mut cipher = rc4::Rc4::<rc4::consts::U16>::new(key.into());
    let mut buf = vec![0u8; len];
    cipher.apply_keystream(&mut buf);
    buf
}

/// Calls `sha2::Sha256` (update, finalize): the 32-byte digest, named.
#[verifier::external_body]
pub(crate) fn sha256(data: &[u8]) -> (r: [u8; 32])
    ensures
        r@ == spec_sha256(data@),
{
    let mut h = sha2::Sha256::new();
    h.update(data);
    h.finalize().into()
}

/// Calls `rand::rngs::OsRng::try_fill_bytes` on `n` bytes. It fails when the
/// operating system's generator does; the bytes it gives come from that
/// generator and nothing is promised of them beyond their number.
#[verifier::external_body]
pub(crate) fn os_random(n: usize) -> (r: Option<Vec<u8>>)
    ensures
        r matches Some(v) ==> v@.len() == n,
{
    let mut v = vec![0u8; n];
    match rand::rngs::OsRng.try_fill_bytes(&mut v) {
        Ok(()) => Some(v),
        Err(_) => None,
    }
}

/// The first `len` keystream bytes for `key`, by a single RC4 handle.
pub fn rc4_stream(key: &[u8; 16], len: usize) -> (r: Vec<u8>)
    ensures
        r@ == spec_rc4_keystream(key@, len as nat),
        r@.len() == len,
{
    rc4_keystream(key, len)
}

/// XOR `data` with the keystream bytes `ks[offset..offset + data.len()]`.
pub fn xor_at(data: &[u8], ks: &[u8], offset: usize) -> (r: Vec<u8>)
    requires
        offset + data.len() <= ks.len(),
    ensures
        r@ == xor(data@, ks@.subrange(offset as int, offset + data.len())),
{
    let mut out: Vec<u8> = Vec::new();
    let mut i: usize = 0;
    while i < data.len()
        invariant
            i <= data.len(),
            offset + data.len() <= ks.len(),
            out@.len() == i,
            forall|j: int| 0 <= j < i ==> out@[j] == data@[j] ^ ks@[offset + j],
        decreases data.len() - i,
    {
        out.push(data[i] ^ ks[offset + i]);
        i = i + 1;
    }
    assert(out@ =~= xor(data@, ks@.subrange(offset as int, offset + data.len())));
    out
}

/// RC4-encrypt/decrypt `data` under a 16-byte `key` (symmetric).
pub fn rc4(key: &[u8; 16], data: &[u8]) -> (r: Vec<u8>)
    ensures
        r@ == xor(data@, spec_rc4_keystream(key@, data.len() as nat)),
{
    let ks = rc4_keystream(key, data.len());
    let r = xor_at(data, ks.as_slice(), 0);
    assert(ks@.subrange(0, data.len() as int) =~= ks@);
    r
}

/// NTOWFv2 = HMAC_MD5(MD4(UNICODE(password)), UNICODE(Uppercase(user) . domain)).
/// The user name is upper-cased; the domain is used as-is.
pub open spec fn spec_ntowf_v2(password: Seq<char>, user: Seq<char>, domain: Seq<char>) -> Seq<u8> {
    spec_hmac_md5(spec_md4(spec_unicode(password)), spec_unicode(spec_to_uppercase(user) + domain))
}

/// NTOWFv2 of the given credentials.
pub fn ntowf_v2(password: &str, user: &str, domain: &str) -> (r: [u8; 16])
    ensures
        r@ == spec_ntowf_v2(password@, user@, domain@),
{
    let nt_hash = md4(unicode(password).as_slice());
    let upper = to_uppercase(user);
    let mut identity = unicode(upper.as_str());
    let d = unicode(domain);
    put_bytes(&mut identity, d.as_slice());
    proof {
        lemma_unicode_concat(spec_to_uppercase(user@), domain@);
    }
    hmac_md5(&nt_hash, identity.as_slice())
}

/// XOR with the same keystream twice gives back the data.
pub proof fn lemma_xor_involutive(data: Seq<u8>, ks: Seq<u8>)
    ensures
        xor(xor(data, ks), ks) == data,
{
    assert forall|i: int| 0 <= i < data.len() implies xor(xor(data, ks), ks)[i] == data[i] by {
        let a = data[i];
        let k = ks[i];
        assert((a ^ k) ^ k == a) by (bit_vector);
    }
    assert(xor(xor(data, ks), ks) =~= data);
}

} // verus!
