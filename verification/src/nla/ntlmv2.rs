//! NTLMv2 response and key computation: `temp` blob, NTProofStr,
//! NtChallengeResponse, LmChallengeResponse, SessionBaseKey and the
//! EncryptedRandomSessionKey.

use vstd::prelude::*;
use super::crypto::{hmac_md5, rc4, spec_hmac_md5, spec_rc4_keystream, xor};
use crate::wire::{put_bytes, put_u8, put_zeros, to_array16, to_array24, zeros};

verus! {

/// The NTLMv2 `temp` blob:
/// `0x01, 0x01, Z(6), time(8), client_challenge(8), Z(4), target_info, Z(4)`.
pub open spec fn spec_temp(time: Seq<u8>, client_challenge: Seq<u8>, target_info: Seq<u8>) -> Seq<u8> {
    seq![0x01u8, 0x01u8] + zeros(6) + time + client_challenge + zeros(4) + target_info + zeros(4)
}

/// Build the NTLMv2 `temp` blob.
pub fn temp(time: [u8; 8], client_challenge: [u8; 8], target_info: &[u8]) -> (r: Vec<u8>)
    ensures
        r@ == spec_temp(time@, client_challenge@, target_info@),
{
    let mut t: Vec<u8> = Vec::new();
    put_u8(&mut t, 0x01);
    put_u8(&mut t, 0x01);
    put_zeros(&mut t, 6);
    put_bytes(&mut t, &time);
    put_bytes(&mut t, &client_challenge);
    put_zeros(&mut t, 4);
    put_bytes(&mut t, target_info);
    put_zeros(&mut t, 4);
    t
}

/// NTProofStr = HMAC_MD5(NTOWFv2, ServerChallenge . temp).
pub fn nt_proof_str(ntowf_v2: &[u8; 16], server_challenge: &[u8; 8], temp: &[u8]) -> (r: [u8; 16])
    ensures
        r@ == spec_hmac_md5(ntowf_v2@, server_challenge@ + temp@),
{
    let mut data: Vec<u8> = Vec::new();
    put_bytes(&mut data, server_challenge);
    put_bytes(&mut data, temp);
    hmac_md5(ntowf_v2, data.as_slice())
}

/// NtChallengeResponse = NTProofStr . temp.
pub fn nt_challenge_response(nt_proof_str: &[u8; 16], temp: &[u8]) -> (r: Vec<u8>)
    ensures
        r@ == nt_proof_str@ + temp@,
{
    let mut r: Vec<u8> = Vec::new();
    put_bytes(&mut r, nt_proof_str);
    put_bytes(&mut r, temp);
    r
}

/// LmChallengeResponse (v2) = HMAC_MD5(NTOWFv2, ServerChallenge . ClientChallenge) . ClientChallenge.
pub fn lm_challenge_response(ntowf_v2: &[u8; 16], server_challenge: &[u8; 8], client_challenge: &[u8; 8]) -> (r: [u8; 24])
    ensures
        r@ == spec_hmac_md5(ntowf_v2@, server_challenge@ + client_challenge@) + client_challenge@,
{
    let mut data: Vec<u8> = Vec::new();
    put_bytes(&mut data, server_challenge);
    put_bytes(&mut data, client_challenge);
    let mac = hmac_md5(ntowf_v2, data.as_slice());
    let mut out: Vec<u8> = Vec::new();
    put_bytes(&mut out, &mac);
    put_bytes(&mut out, client_challenge);
    to_array24(out.as_slice())
}

/// SessionBaseKey = HMAC_MD5(NTOWFv2, NTProofStr); for NTLMv2 this is also the
/// KeyExchangeKey.
pub fn session_base_key(ntowf_v2: &[u8; 16], nt_proof_str: &[u8; 16]) -> (r: [u8; 16])
    ensures
        r@ == spec_hmac_md5(ntowf_v2@, nt_proof_str@),
{
    hmac_md5(ntowf_v2, nt_proof_str)
}

/// EncryptedRandomSessionKey = RC4(KeyExchangeKey, ExportedSessionKey).
pub fn encrypted_random_session_key(kx_key: &[u8; 16], exported: &[u8; 16]) -> (r: [u8; 16])
    ensures
        r@ == xor(exported@, spec_rc4_keystream(kx_key@, 16)),
{
    let out = rc4(kx_key, exported);
    to_array16(out.as_slice())
}

} // verus!
