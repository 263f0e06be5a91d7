//! Extract the SubjectPublicKey from a DER X.509 certificate: the bytes
//! CredSSP binds pubKeyAuth to (the inner subjectPublicKey BIT STRING of
//! SubjectPublicKeyInfo, not the whole SubjectPublicKeyInfo).

use vstd::prelude::*;
use crate::nla::der::{context_tag, spec_expect, spec_read_tlv, Reader, TAG_SEQUENCE};
use crate::wire::{slice_range, to_vec};
use crate::{is_protocol, Error, Result};

verus! {

pub const TAG_BIT_STRING: u8 = 0x03;

/// The bytes after `n` TLVs at the front of `s`.
pub open spec fn skip_tlvs(s: Seq<u8>, n: nat) -> Option<Seq<u8>>
    decreases n,
{
    if n == 0 {
        Some(s)
    } else {
        match spec_read_tlv(s) {
            None => None,
            Some((_, _, k)) => skip_tlvs(s.subrange(k, s.len() as int), (n - 1) as nat),
        }
    }
}

/// The subjectPublicKey BIT STRING contents (unused-bits count included) of
/// what follows the fields before SubjectPublicKeyInfo: a SEQUENCE of an
/// AlgorithmIdentifier and the subjectPublicKey BIT STRING.
pub open spec fn spki_bits(after: Option<Seq<u8>>) -> Option<Seq<u8>> {
    match after {
        None => None,
        Some(after) => match spec_expect(after, TAG_SEQUENCE) {
            None => None,
            Some((spki, _)) => match spec_expect(spki, TAG_SEQUENCE) {
                None => None,
                Some((_, ak)) => match spec_expect(spki.subrange(ak, spki.len() as int), TAG_BIT_STRING) {
                    None => None,
                    Some((bits, _)) => Some(bits),
                },
            },
        },
    }
}

/// The subjectPublicKey of what follows the fields before
/// SubjectPublicKeyInfo: the BIT STRING contents with their first byte (the
/// unused-bits count) dropped; none for an empty BIT STRING.
pub open spec fn spki_key(after: Option<Seq<u8>>) -> Option<Seq<u8>> {
    match spki_bits(after) {
        None => None,
        Some(bits) => if bits.len() == 0 {
            None
        } else {
            Some(bits.subrange(1, bits.len() as int))
        },
    }
}

/// What follows the fields before SubjectPublicKeyInfo in a DER certificate:
/// Certificate is a SEQUENCE whose first element, TBSCertificate, is a SEQUENCE
/// holding the optional `[0]` version, serialNumber, signature, issuer,
/// validity and subject, then SubjectPublicKeyInfo.
pub open spec fn spki_after(cert: Seq<u8>) -> Option<Seq<u8>> {
    match spec_expect(cert, TAG_SEQUENCE) {
        None => None,
        Some((certificate, _)) => match spec_expect(certificate, TAG_SEQUENCE) {
            None => None,
            Some((tbs, _)) => match spec_read_tlv(tbs) {
                None => None,
                Some((first_tag, _, k)) => {
                    let skip: nat = if first_tag == 0xA0 { 5 } else { 4 };
                    skip_tlvs(tbs.subrange(k, tbs.len() as int), skip)
                },
            },
        },
    }
}

/// The subjectPublicKey of a DER certificate.
pub open spec fn spec_subject_public_key(cert: Seq<u8>) -> Option<Seq<u8>> {
    spki_key(spki_after(cert))
}

/// Parse a DER certificate and return the subjectPublicKey bytes (the BIT
/// STRING contents without the leading unused-bits octet).
pub fn subject_public_key(cert_der: &[u8]) -> (r: Result<Vec<u8>>)
    ensures
        r matches Ok(v) ==> spec_subject_public_key(cert_der@) == Some(v@),
        r is Err <==> spec_subject_public_key(cert_der@) is None,
        spki_bits(spki_after(cert_der@)) matches Some(bits) && bits.len() == 0 ==> is_protocol(r),
{
    let mut top = Reader::new(cert_der);
    let certificate = top.expect(TAG_SEQUENCE)?;
    let mut cert = Reader::new(certificate);
    let tbs = cert.expect(TAG_SEQUENCE)?;
    let mut r = Reader::new(tbs);
    let (first_tag, _) = r.read_tlv()?;
    let skip: usize = if first_tag == context_tag(0) { 5 } else { 4 };
    let mut i: usize = 0;
    while i < skip
        invariant
            i <= skip,
            spki_after(cert_der@) == skip_tlvs(r@, (skip - i) as nat),
        decreases skip - i,
    {
        r.read_tlv()?;
        i = i + 1;
    }
    let spki = r.expect(TAG_SEQUENCE)?;
    let mut sr = Reader::new(spki);
    let _algorithm = sr.expect(TAG_SEQUENCE)?;
    let bit_string = sr.expect(TAG_BIT_STRING)?;
    if bit_string.len() == 0 {
        return Err(Error::Protocol("empty subjectPublicKey"));
    }
    Ok(to_vec(slice_range(bit_string, 1, bit_string.len())))
}

} // verus!
