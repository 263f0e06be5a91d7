//! Minimal ASN.1 DER encoder/decoder — what CredSSP's TSRequest and
//! TSCredentials need. Definite-length only. CredSSP uses EXPLICIT context
//! tagging: `[n]` is a constructed context tag `0xA0 + n` wrapping the inner
//! universal type.

use vstd::prelude::*;
use crate::mcs::ber::{self, is_suffix, lemma_suffix_refl, lemma_suffix_subrange, lemma_suffix_trans, spec_integer_content, spec_length};
use crate::wire::{
    be_min, be_min_bytes, fold_u64, fold_usize, lemma_be_min_len, lemma_be_value_min, lemma_fold_usize,
    pow256, push_front, put_bytes, put_u8, read_fold_u64, read_fold_usize, slice_range,
};
use crate::{is_protocol, is_short, Error, Result};

verus! {

pub const TAG_INTEGER: u8 = 0x02;
pub const TAG_OCTET_STRING: u8 = 0x04;
pub const TAG_SEQUENCE: u8 = 0x30;

/// Constructed context-specific tag byte for `[n]`.
pub fn context_tag(n: u8) -> (r: u8)
    requires
        n <= 0x5F,
    ensures
        r == 0xA0 + n,
{
    0xA0 + n
}

/// Encode a DER definite length.
pub fn encode_len(len: usize) -> (r: Vec<u8>)
    ensures
        r@ == spec_length(len as nat),
{
    ber::length(len)
}

/// A DER tag-length-value triple with a one-byte tag.
pub open spec fn spec_tlv(tag: u8, value: Seq<u8>) -> Seq<u8> {
    seq![tag] + spec_length(value.len()) + value
}

/// Encode a tag-length-value triple.
pub fn tlv(tag: u8, value: &[u8]) -> (r: Vec<u8>)
    ensures
        r@ == spec_tlv(tag, value@),
{
    let mut out: Vec<u8> = Vec::new();
    put_u8(&mut out, tag);
    let l = encode_len(value.len());
    put_bytes(&mut out, l.as_slice());
    put_bytes(&mut out, value);
    out
}

/// Encode an unsigned INTEGER (minimal, with a leading 0x00 if the high bit is set).
pub fn integer(v: u64) -> (r: Vec<u8>)
    ensures
        r@ == spec_tlv(TAG_INTEGER, spec_integer_content(v as nat)),
{
    let mut bytes = be_min_bytes(v);
    if v == 0 {
        bytes.push(0);
    }
    proof {
        lemma_be_value_min(v as nat);
    }
    if bytes[0] >= 0x80 {
        push_front(&mut bytes, 0);
    }
    tlv(TAG_INTEGER, bytes.as_slice())
}

/// OCTET STRING.
pub fn octet_string(bytes: &[u8]) -> (r: Vec<u8>)
    ensures
        r@ == spec_tlv(TAG_OCTET_STRING, bytes@),
{
    tlv(TAG_OCTET_STRING, bytes)
}

/// SEQUENCE.
pub fn sequence(contents: &[u8]) -> (r: Vec<u8>)
    ensures
        r@ == spec_tlv(TAG_SEQUENCE, contents@),
{
    tlv(TAG_SEQUENCE, contents)
}

/// Wrap `contents` in an explicit context tag `[n]`.
pub fn context(n: u8, contents: &[u8]) -> (r: Vec<u8>)
    requires
        n <= 0x5F,
    ensures
        r@ == spec_tlv((0xA0 + n) as u8, contents@),
{
    tlv(context_tag(n), contents)
}

/// A DER length at the front of `s` and how many bytes encode it (at most four
/// length octets are accepted).
pub open spec fn spec_decode_len(s: Seq<u8>) -> Option<(usize, int)> {
    if s.len() == 0 {
        None
    } else if s[0] < 0x80 {
        Some((s[0] as usize, 1))
    } else {
        let n = s[0] - 0x80;
        if n == 0 || n > 4 || s.len() < 1 + n {
            None
        } else {
            Some((fold_usize(s.subrange(1, 1 + n)), 1 + n))
        }
    }
}

/// The tag, value and total size of the TLV at the front of `s`.
pub open spec fn spec_read_tlv(s: Seq<u8>) -> Option<(u8, Seq<u8>, int)> {
    if s.len() < 2 {
        None
    } else {
        match spec_decode_len(s.subrange(1, s.len() as int)) {
            None => None,
            Some((len, h)) => {
                let start = 1 + h;
                if s.len() - start < len {
                    None
                } else {
                    Some((s[0], s.subrange(start, start + len), start + len))
                }
            },
        }
    }
}

/// The value of a TLV with tag `tag` at the front of `s`, and its total size.
pub open spec fn spec_expect(s: Seq<u8>, tag: u8) -> Option<(Seq<u8>, int)> {
    match spec_read_tlv(s) {
        Some((t, v, k)) => if t == tag {
            Some((v, k))
        } else {
            None
        },
        None => None,
    }
}

/// Decode a DER length, returning (length, header_bytes_consumed).
pub fn decode_len(buf: &[u8]) -> (r: Result<(usize, usize)>)
    ensures
        r matches Ok((l, h)) ==> spec_decode_len(buf@) == Some((l, h as int)),
        r is Err <==> spec_decode_len(buf@) is None,
        buf.len() == 0 ==> is_short(r, 1, 0),
        buf.len() > 0 && r is Err ==> is_protocol(r),
{
    if buf.len() == 0 {
        return Err(Error::Short { need: 1, have: 0 });
    }
    let first = buf[0];
    if first < 0x80 {
        return Ok((first as usize, 1));
    }
    let n = (first - 0x80) as usize;
    if n == 0 || n > 4 || buf.len() < 1 + n {
        return Err(Error::Protocol("bad DER length"));
    }
    Ok((read_fold_usize(buf, 1, 1 + n), 1 + n))
}

/// A cursor over DER bytes for decoding.
pub struct Reader<'a> {
    buf: &'a [u8],
}

impl<'a> View for Reader<'a> {
    type V = Seq<u8>;

    closed spec fn view(&self) -> Seq<u8> {
        self.buf@
    }
}

impl<'a> Reader<'a> {
    /// A reader positioned at the start of `buf`.
    pub fn new(buf: &'a [u8]) -> (r: Reader<'a>)
        ensures
            r@ == buf@,
    {
        Reader { buf }
    }

    /// Whether every byte has been consumed.
    pub fn is_empty(&self) -> (r: bool)
        ensures
            r == (self@.len() == 0),
    {
        self.buf.len() == 0
    }

    /// Read one TLV, returning (tag, value), and advance past it.
    pub fn read_tlv(&mut self) -> (r: Result<(u8, &'a [u8])>)
        ensures
            r matches Ok((t, v)) ==> spec_read_tlv(old(self)@) matches Some((t2, v2, k)) && t == t2
                && v@ == v2 && final(self)@ == old(self)@.subrange(k, old(self)@.len() as int),
            r is Err <==> spec_read_tlv(old(self)@) is None,
            r is Err ==> final(self)@ == old(self)@,
            old(self)@.len() < 2 ==> is_short(r, 2, old(self)@.len() as int),
    {
        if self.buf.len() < 2 {
            return Err(Error::Short { need: 2, have: self.buf.len() });
        }
        let all = self.buf;
        let tag = all[0];
        let (len, header) = decode_len(slice_range(all, 1, all.len()))?;
        let start = 1 + header;
        if all.len() - start < len {
            let need = if len <= usize::MAX - start { start + len } else { usize::MAX };
            return Err(Error::Short { need, have: all.len() });
        }
        let value = slice_range(all, start, start + len);
        self.buf = slice_range(all, start + len, all.len());
        Ok((tag, value))
    }

    /// Read a TLV and require its tag.
    pub fn expect(&mut self, tag: u8) -> (r: Result<&'a [u8]>)
        ensures
            r matches Ok(v) ==> spec_expect(old(self)@, tag) matches Some((v2, k)) && v@ == v2
                && final(self)@ == old(self)@.subrange(k, old(self)@.len() as int),
            r is Err <==> spec_expect(old(self)@, tag) is None,
            spec_read_tlv(old(self)@) matches Some((t, _, _)) && t != tag ==> is_protocol(r),
            is_suffix(final(self)@, old(self)@),
    {
        let ghost before = self.buf@;
        let (t, v) = match self.read_tlv() {
            Ok(x) => x,
            Err(e) => {
                proof {
                    lemma_suffix_refl(before);
                }
                return Err(e);
            },
        };
        proof {
            let k = spec_read_tlv(before).unwrap().2;
            lemma_suffix_subrange(before, k);
        }
        if t != tag {
            return Err(Error::Protocol("unexpected DER tag"));
        }
        Ok(v)
    }

    /// Read an INTEGER as a u64 (big-endian, unsigned; high bytes beyond 64 bits fall off).
    pub fn read_integer(&mut self) -> (r: Result<u64>)
        ensures
            r matches Ok(n) ==> spec_expect(old(self)@, TAG_INTEGER) matches Some((v, k)) && n == fold_u64(v)
                && final(self)@ == old(self)@.subrange(k, old(self)@.len() as int),
            r is Err <==> spec_expect(old(self)@, TAG_INTEGER) is None,
            is_suffix(final(self)@, old(self)@),
    {
        let v = self.expect(TAG_INTEGER)?;
        Ok(read_fold_u64(v))
    }
}

/// A length below 2^32 encodes in at most five bytes, decodable by `spec_decode_len`.
pub proof fn lemma_decode_len(len: usize, rest: Seq<u8>)
    requires
        len < 0x1_0000_0000,
    ensures
        spec_decode_len(spec_length(len as nat) + rest) == Some((len, spec_length(len as nat).len() as int)),
        spec_length(len as nat).len() <= 5,
{
    let s = spec_length(len as nat) + rest;
    if len >= 0x80 {
        assert(pow256(4) == 0x1_0000_0000) by {
            reveal_with_fuel(pow256, 5);
        }
        lemma_be_min_len(len as nat, 4);
        lemma_be_value_min(len as nat);
        let m = be_min(len as nat);
        assert(s.subrange(1, 1 + m.len() as int) =~= m);
        lemma_fold_usize(m);
    }
}

/// Reading back a TLV gives its tag, value and total size.
pub proof fn lemma_read_tlv(tag: u8, value: Seq<u8>, rest: Seq<u8>)
    requires
        value.len() < 0x1_0000_0000,
    ensures
        spec_read_tlv(spec_tlv(tag, value) + rest) == Some((tag, value, spec_tlv(tag, value).len() as int)),
        spec_expect(spec_tlv(tag, value) + rest, tag) == Some((value, spec_tlv(tag, value).len() as int)),
{
    let s = spec_tlv(tag, value) + rest;
    let l = spec_length(value.len());
    assert(s.subrange(1, s.len() as int) =~= l + (value + rest));
    lemma_decode_len(value.len() as usize, value + rest);
    let start = 1 + l.len() as int;
    assert(s.subrange(start, start + value.len() as int) =~= value);
}

} // verus!
