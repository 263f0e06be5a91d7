//! MCS Connect-Initial / Connect-Response. BER-encoded; the userData carries
//! the PER-encoded GCC ConferenceCreate (see `crate::gcc`).

use vstd::prelude::*;
use super::ber::{
    self, spec_application_tag, spec_expect, spec_integer_content, spec_tlv, Reader,
};
use crate::wire::{be_min, be_min_bytes, lemma_be_min_len, lemma_be_value_min, pow256, put_bytes, put_u8};
use crate::{is_rejected, Error, Result};

verus! {

/// Connect-Initial = [APPLICATION 101].
pub const CONNECT_INITIAL: u32 = 101;
/// Connect-Response = [APPLICATION 102].
pub const CONNECT_RESPONSE: u32 = 102;

/// The unsigned-minimal content octets of a DomainParameters INTEGER (no sign
/// octet: 65535 is `FF FF`).
pub open spec fn spec_uint_content(v: nat) -> Seq<u8> {
    if v == 0 {
        seq![0u8]
    } else {
        be_min(v)
    }
}

/// A DomainParameters INTEGER.
pub open spec fn spec_uint(v: nat) -> Seq<u8> {
    seq![0x02u8, spec_uint_content(v).len() as u8] + spec_uint_content(v)
}

/// The INTEGERs of `vals[i..]` concatenated.
pub open spec fn spec_uints(vals: Seq<u32>) -> Seq<u8>
    decreases vals.len(),
{
    if vals.len() == 0 {
        Seq::empty()
    } else {
        spec_uints(vals.drop_last()) + spec_uint(vals.last() as nat)
    }
}

/// A DomainParameters SEQUENCE.
pub open spec fn spec_domain_parameters(vals: Seq<u32>) -> Seq<u8> {
    spec_tlv(seq![0x30u8], spec_uints(vals))
}

/// The canonical RDP client target DomainParameters.
pub open spec fn target_parameters() -> Seq<u32> {
    seq![34u32, 2, 0, 1, 0, 1, 0xFFFF, 2]
}

/// The canonical RDP client minimum DomainParameters.
pub open spec fn minimum_parameters() -> Seq<u32> {
    seq![1u32, 1, 1, 1, 0, 1, 0x420, 2]
}

/// The canonical RDP client maximum DomainParameters.
pub open spec fn maximum_parameters() -> Seq<u32> {
    seq![0xFFFFu32, 0xFC17, 0xFFFF, 1, 0, 1, 0xFFFF, 2]
}

/// The Connect-Initial PDU wrapping `gcc`.
pub open spec fn spec_connect_initial(gcc: Seq<u8>) -> Seq<u8> {
    let body = spec_tlv(seq![0x04u8], seq![0x01u8]) + spec_tlv(seq![0x04u8], seq![0x01u8]) + spec_tlv(
        seq![0x01u8],
        seq![0xffu8],
    ) + spec_domain_parameters(target_parameters()) + spec_domain_parameters(minimum_parameters())
        + spec_domain_parameters(maximum_parameters()) + spec_tlv(seq![0x04u8], gcc);
    spec_tlv(spec_application_tag(CONNECT_INITIAL as nat), body)
}

/// BER INTEGER encoded unsigned-minimal (no sign-extension byte).
fn uint(v: u32) -> (r: Vec<u8>)
    ensures
        r@ == spec_uint(v as nat),
{
    let mut bytes = be_min_bytes(v as u64);
    if v == 0 {
        bytes.push(0);
    }
    proof {
        assert(pow256(4) == 0x1_0000_0000) by {
            reveal_with_fuel(pow256, 5);
        }
        lemma_be_min_len(v as nat, 4);
    }
    let mut out: Vec<u8> = Vec::new();
    put_u8(&mut out, 0x02);
    put_u8(&mut out, bytes.len() as u8);
    put_bytes(&mut out, bytes.as_slice());
    proof {
        assert(out@ =~= spec_uint(v as nat));
    }
    out
}

/// Encode a DomainParameters SEQUENCE from its eight INTEGER fields.
pub fn domain_parameters(vals: [u32; 8]) -> (r: Vec<u8>)
    ensures
        r@ == spec_domain_parameters(vals@),
{
    let mut body: Vec<u8> = Vec::new();
    let mut i: usize = 0;
    while i < 8
        invariant
            i <= 8,
            body@ == spec_uints(vals@.subrange(0, i as int)),
        decreases 8 - i,
    {
        let u = uint(vals[i]);
        put_bytes(&mut body, u.as_slice());
        assert(vals@.subrange(0, i + 1).drop_last() =~= vals@.subrange(0, i as int));
        i = i + 1;
    }
    assert(vals@.subrange(0, 8) =~= vals@);
    ber::sequence(body.as_slice())
}

/// Build the MCS Connect-Initial PDU wrapping `gcc_ccr` (the GCC
/// ConferenceCreateRequest), with the canonical RDP DomainParameters.
pub fn connect_initial(gcc_ccr: &[u8]) -> (r: Vec<u8>)
    ensures
        r@ == spec_connect_initial(gcc_ccr@),
{
    let target = domain_parameters([34, 2, 0, 1, 0, 1, 0xFFFF, 2]);
    let minimum = domain_parameters([1, 1, 1, 1, 0, 1, 0x420, 2]);
    let maximum = domain_parameters([0xFFFF, 0xFC17, 0xFFFF, 1, 0, 1, 0xFFFF, 2]);
    proof {
        assert([34u32, 2, 0, 1, 0, 1, 0xFFFF, 2]@ =~= target_parameters());
        assert([1u32, 1, 1, 1, 0, 1, 0x420, 2]@ =~= minimum_parameters());
        assert([0xFFFFu32, 0xFC17, 0xFFFF, 1, 0, 1, 0xFFFF, 2]@ =~= maximum_parameters());
    }
    let mut body: Vec<u8> = Vec::new();
    put_bytes(&mut body, ber::octet_string(&[0x01]).as_slice());
    put_bytes(&mut body, ber::octet_string(&[0x01]).as_slice());
    put_bytes(&mut body, ber::boolean(true).as_slice());
    put_bytes(&mut body, target.as_slice());
    put_bytes(&mut body, minimum.as_slice());
    put_bytes(&mut body, maximum.as_slice());
    put_bytes(&mut body, ber::octet_string(gcc_ccr).as_slice());
    let r = ber::application(CONNECT_INITIAL, body.as_slice());
    proof {
        assert(r@ =~= spec_connect_initial(gcc_ccr@));
    }
    r
}

/// The parts of a Connect-Response: its ENUMERATED result and the body after it.
pub open spec fn spec_response_result(pdu: Seq<u8>) -> Option<(Seq<u8>, Seq<u8>)> {
    match spec_expect(pdu, spec_application_tag(CONNECT_RESPONSE as nat)) {
        None => None,
        Some((body, _)) => match spec_expect(body, seq![0x0au8]) {
            None => None,
            Some((result, k)) => Some((result, body.subrange(k, body.len() as int))),
        },
    }
}

/// The userData of a successful Connect-Response.
pub open spec fn spec_parse_connect_response(pdu: Seq<u8>) -> Option<Seq<u8>> {
    match spec_response_result(pdu) {
        None => None,
        Some((result, rest)) => if result.len() == 0 || result[0] != 0 {
            None
        } else {
            match spec_expect(rest, seq![0x02u8]) {
                None => None,
                Some((_, k1)) => {
                    let r1 = rest.subrange(k1, rest.len() as int);
                    match spec_expect(r1, seq![0x30u8]) {
                        None => None,
                        Some((_, k2)) => match spec_expect(r1.subrange(k2, r1.len() as int), seq![0x04u8]) {
                            None => None,
                            Some((user_data, _)) => Some(user_data),
                        },
                    }
                },
            }
        },
    }
}

/// Parse an MCS Connect-Response, returning the userData (the GCC
/// ConferenceCreateResponse bytes). The result must be rt-successful.
pub fn parse_connect_response(pdu: &[u8]) -> (r: Result<&[u8]>)
    ensures
        r matches Ok(u) ==> spec_parse_connect_response(pdu@) == Some(u@),
        r is Err <==> spec_parse_connect_response(pdu@) is None,
        spec_response_result(pdu@) matches Some((result, _)) && (result.len() == 0 || result[0] != 0)
            ==> is_rejected(r),
{
    let mut r = Reader::new(pdu);
    let tag = ber::application_tag_bytes(CONNECT_RESPONSE);
    let body = r.expect(tag.as_slice())?;
    let mut br = Reader::new(body);
    let t_enum: [u8; 1] = [0x0a];
    let t_seq: [u8; 1] = [0x30];
    let t_oct: [u8; 1] = [0x04];
    proof {
        assert(t_enum@ =~= seq![0x0au8]);
        assert(t_seq@ =~= seq![0x30u8]);
        assert(t_oct@ =~= seq![0x04u8]);
    }
    let result = br.expect(&t_enum)?;
    if result.len() == 0 || result[0] != 0 {
        return Err(Error::NegotiationFailure("MCS Connect-Response not rt-successful"));
    }
    let _called_connect_id = br.read_integer()?;
    let _domain_params = br.expect(&t_seq)?;
    let user_data = br.expect(&t_oct)?;
    Ok(user_data)
}

/// A Connect-Response built from its parts parses back to its userData, for
/// parts of any size whose PDU can be held in memory.
pub proof fn lemma_parse_built_response(connect_id: nat, params: Seq<u8>, user_data: Seq<u8>)
    requires
        connect_id <= u32::MAX,
        params.len() + user_data.len() + 64 <= usize::MAX,
    ensures
        spec_parse_connect_response(
            spec_tlv(
                spec_application_tag(CONNECT_RESPONSE as nat),
                spec_tlv(seq![0x0au8], seq![0u8]) + spec_tlv(seq![0x02u8], spec_integer_content(connect_id))
                    + spec_tlv(seq![0x30u8], params) + spec_tlv(seq![0x04u8], user_data),
            ),
        ) == Some(user_data),
{
    let tag = spec_application_tag(CONNECT_RESPONSE as nat);
    let e = spec_tlv(seq![0x0au8], seq![0u8]);
    let i = spec_tlv(seq![0x02u8], spec_integer_content(connect_id));
    let p = spec_tlv(seq![0x30u8], params);
    let u = spec_tlv(seq![0x04u8], user_data);
    let body = e + i + p + u;
    assert(spec_integer_content(connect_id).len() <= 5) by {
        ber::lemma_integer_value(connect_id as u32);
    }
    ber::lemma_length_len(1);
    ber::lemma_length_len(spec_integer_content(connect_id).len());
    ber::lemma_length_len(params.len());
    ber::lemma_length_len(user_data.len());
    ber::lemma_expect_tlv(tag, body, Seq::empty());
    assert(spec_tlv(tag, body) + Seq::<u8>::empty() =~= spec_tlv(tag, body));
    ber::lemma_expect_tlv(seq![0x0au8], seq![0u8], i + p + u);
    assert(body =~= e + (i + p + u));
    let rest = i + p + u;
    assert(body.subrange(e.len() as int, body.len() as int) =~= rest);
    ber::lemma_expect_tlv(seq![0x02u8], spec_integer_content(connect_id), p + u);
    assert(rest =~= i + (p + u));
    assert(rest.subrange(i.len() as int, rest.len() as int) =~= p + u);
    ber::lemma_expect_tlv(seq![0x30u8], params, u);
    assert((p + u).subrange(p.len() as int, (p + u).len() as int) =~= u);
    ber::lemma_expect_tlv(seq![0x04u8], user_data, Seq::empty());
    assert(u + Seq::<u8>::empty() =~= u);
}

} // verus!
