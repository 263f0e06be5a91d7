//! Minimal ASN.1 BER encoding for the MCS Connect Initial/Response PDUs.
//! Definite-length only.

use vstd::prelude::*;
use crate::wire::{
    be_min, be_min_bytes, be_value, fold_u32, fold_usize, lemma_be_min_len, lemma_be_value_min,
    lemma_be_value_prefix_zero, lemma_fold_u32, lemma_fold_usize, pow256, push_front, put_bytes,
    put_u8, read_fold_u32, read_fold_usize, slice_range,
};
use crate::{is_protocol, is_short, Error, Result};

verus! {

/// The BER definite length encoding of `len`.
pub open spec fn spec_length(len: nat) -> Seq<u8> {
    if len < 0x80 {
        seq![len as u8]
    } else {
        seq![(0x80 + be_min(len).len()) as u8] + be_min(len)
    }
}

/// A tag-length-value triple.
pub open spec fn spec_tlv(tag: Seq<u8>, contents: Seq<u8>) -> Seq<u8> {
    tag + spec_length(contents.len()) + contents
}

/// The minimal unsigned content octets of a BER INTEGER.
pub open spec fn spec_integer_content(v: nat) -> Seq<u8> {
    let m = if v == 0 { seq![0u8] } else { be_min(v) };
    if m[0] >= 0x80 {
        seq![0u8] + m
    } else {
        m
    }
}

/// Base-128 digits of `n`, with the continuation bit on every digit when `hi`
/// and on all but the last otherwise.
pub open spec fn spec_base128(n: nat, hi: bool) -> Seq<u8>
    decreases n,
{
    let mark: nat = if hi { 0x80 } else { 0 };
    if n < 128 {
        seq![(n + mark) as u8]
    } else {
        spec_base128(n / 128, true) + seq![(n % 128 + mark) as u8]
    }
}

/// The bytes of an application-class constructed tag.
pub open spec fn spec_application_tag(n: nat) -> Seq<u8> {
    if n < 31 {
        seq![(0x60 + n) as u8]
    } else {
        seq![0x7fu8] + spec_base128(n, false)
    }
}

proof fn lemma_be_min_fits(v: usize)
    ensures
        be_min(v as nat).len() <= 8,
{
    assert(pow256(8) == 0x1_0000_0000_0000_0000) by {
        reveal_with_fuel(pow256, 9);
    }
    lemma_be_min_len(v as nat, 8);
}

/// A length header takes at most nine bytes.
pub proof fn lemma_length_len(n: nat)
    requires
        n < 0x1_0000_0000_0000_0000,
    ensures
        spec_length(n).len() <= 9,
{
    assert(pow256(8) == 0x1_0000_0000_0000_0000) by {
        reveal_with_fuel(pow256, 9);
    }
    lemma_be_min_len(n, 8);
}

/// Encode a definite BER length.
pub fn length(len: usize) -> (r: Vec<u8>)
    ensures
        r@ == spec_length(len as nat),
{
    if len < 0x80 {
        let mut out: Vec<u8> = Vec::new();
        put_u8(&mut out, len as u8);
        out
    } else {
        let bytes = be_min_bytes(len as u64);
        proof {
            lemma_be_min_fits(len);
        }
        let mut out: Vec<u8> = Vec::new();
        put_u8(&mut out, 0x80 + bytes.len() as u8);
        put_bytes(&mut out, bytes.as_slice());
        out
    }
}

/// Emit `tag` + length + `contents`.
fn tlv(tag: &[u8], contents: &[u8]) -> (r: Vec<u8>)
    ensures
        r@ == spec_tlv(tag@, contents@),
{
    let mut out: Vec<u8> = Vec::new();
    put_bytes(&mut out, tag);
    let l = length(contents.len());
    put_bytes(&mut out, l.as_slice());
    put_bytes(&mut out, contents);
    out
}

/// INTEGER (universal tag 2), minimal unsigned encoding with a leading zero
/// octet when the high bit would otherwise be set.
pub fn integer(v: u32) -> (r: Vec<u8>)
    ensures
        r@ == spec_tlv(seq![0x02u8], spec_integer_content(v as nat)),
{
    let mut bytes = be_min_bytes(v as u64);
    if v == 0 {
        bytes.push(0);
    }
    proof {
        lemma_be_value_min(v as nat);
    }
    if bytes[0] >= 0x80 {
        push_front(&mut bytes, 0);
    }
    tlv(&[0x02], bytes.as_slice())
}

/// BOOLEAN (universal tag 1); TRUE is 0xFF.
pub fn boolean(b: bool) -> (r: Vec<u8>)
    ensures
        r@ == spec_tlv(seq![0x01u8], seq![if b { 0xffu8 } else { 0x00u8 }]),
{
    tlv(&[0x01], &[if b { 0xff } else { 0x00 }])
}

/// OCTET STRING (universal tag 4).
pub fn octet_string(bytes: &[u8]) -> (r: Vec<u8>)
    ensures
        r@ == spec_tlv(seq![0x04u8], bytes@),
{
    tlv(&[0x04], bytes)
}

/// ENUMERATED (universal tag 10).
pub fn enumerated(v: u8) -> (r: Vec<u8>)
    ensures
        r@ == spec_tlv(seq![0x0au8], seq![v]),
{
    tlv(&[0x0a], &[v])
}

/// SEQUENCE (universal tag 0x30, constructed).
pub fn sequence(contents: &[u8]) -> (r: Vec<u8>)
    ensures
        r@ == spec_tlv(seq![0x30u8], contents@),
{
    tlv(&[0x30], contents)
}

/// Application-class constructed tag bytes (e.g. 101 for Connect-Initial).
pub fn application_tag_bytes(tag_number: u32) -> (r: Vec<u8>)
    ensures
        r@ == spec_application_tag(tag_number as nat),
{
    let mut out: Vec<u8> = Vec::new();
    if tag_number < 31 {
        put_u8(&mut out, 0x60 + tag_number as u8);
        return out;
    }
    let mut n = tag_number;
    let mut digits: Vec<u8> = Vec::new();
    digits.push((n % 128) as u8);
    n = n / 128;
    proof {
        if tag_number >= 128 {
            assert(spec_base128(tag_number as nat, false) == spec_base128(n as nat, true) + seq![
                (tag_number % 128) as u8,
            ]);
            assert(digits@ =~= seq![(tag_number % 128) as u8]);
        } else {
            assert(digits@ =~= seq![tag_number as u8]);
        }
    }
    while n > 0
        invariant
            n > 0 ==> spec_base128(tag_number as nat, false) == spec_base128(n as nat, true) + digits@,
            n == 0 ==> spec_base128(tag_number as nat, false) == digits@,
        decreases n,
    {
        let ghost prev = digits@;
        push_front(&mut digits, (n % 128 + 128) as u8);
        if n >= 128 {
            assert(spec_base128(n as nat, true) == spec_base128((n / 128) as nat, true) + seq![(n % 128 + 128) as u8]);
            assert(spec_base128((n / 128) as nat, true) + digits@ =~= spec_base128(n as nat, true) + prev);
        } else {
            assert(digits@ =~= spec_base128(n as nat, true) + prev);
        }
        n = n / 128;
    }
    put_u8(&mut out, 0x7f);
    put_bytes(&mut out, digits.as_slice());
    out
}

/// Wrap `contents` in an application-class constructed tag.
pub fn application(tag_number: u32, contents: &[u8]) -> (r: Vec<u8>)
    ensures
        r@ == spec_tlv(spec_application_tag(tag_number as nat), contents@),
{
    let tag = application_tag_bytes(tag_number);
    tlv(tag.as_slice(), contents)
}

/// The length at the front of `s` and how many bytes encode it.
pub open spec fn spec_read_length(s: Seq<u8>) -> Option<(usize, int)> {
    if s.len() == 0 {
        None
    } else if s[0] < 0x80 {
        Some((s[0] as usize, 1))
    } else {
        let n = s[0] - 0x80;
        if s.len() - 1 < n {
            None
        } else {
            Some((fold_usize(s.subrange(1, 1 + n)), 1 + n))
        }
    }
}

/// The contents of a TLV with tag `tag` at the front of `s`, and its total size.
pub open spec fn spec_expect(s: Seq<u8>, tag: Seq<u8>) -> Option<(Seq<u8>, int)> {
    if s.len() < tag.len() || s.subrange(0, tag.len() as int) != tag {
        None
    } else {
        match spec_read_length(s.subrange(tag.len() as int, s.len() as int)) {
            None => None,
            Some((len, k)) => {
                let start = tag.len() + k;
                if s.len() - start < len {
                    None
                } else {
                    Some((s.subrange(start, start + len), start + len))
                }
            },
        }
    }
}

/// Whether `a` is a suffix of `b`.
pub open spec fn is_suffix(a: Seq<u8>, b: Seq<u8>) -> bool {
    a.len() <= b.len() && a == b.subrange(b.len() - a.len(), b.len() as int)
}

pub proof fn lemma_suffix_refl(s: Seq<u8>)
    ensures
        is_suffix(s, s),
{
    assert(s.subrange(0, s.len() as int) =~= s);
}

pub proof fn lemma_suffix_trans(a: Seq<u8>, b: Seq<u8>, c: Seq<u8>)
    requires
        is_suffix(a, b),
        is_suffix(b, c),
    ensures
        is_suffix(a, c),
{
    assert(a =~= c.subrange(c.len() - a.len(), c.len() as int));
}

pub proof fn lemma_suffix_subrange(s: Seq<u8>, k: int)
    requires
        0 <= k <= s.len(),
    ensures
        is_suffix(s.subrange(k, s.len() as int), s),
{
    assert(s.subrange(k, s.len() as int) =~= s.subrange(s.len() - (s.len() - k), s.len() as int));
}

/// A BER reader over a byte slice.
pub struct Reader<'a> {
    buf: &'a [u8],
}

impl<'a> View for Reader<'a> {
    type V = Seq<u8>;

    closed spec fn view(&self) -> Seq<u8> {
        self.buf@
    }
}

impl<'a> Reader<'a> {
    /// A reader positioned at the start of `buf`.
    pub fn new(buf: &'a [u8]) -> (r: Reader<'a>)
        ensures
            r@ == buf@,
    {
        Reader { buf }
    }

    /// Whether every byte has been consumed.
    pub fn is_empty(&self) -> (r: bool)
        ensures
            r == (self@.len() == 0),
    {
        self.buf.len() == 0
    }

    /// Read the length field at the cursor.
    pub fn read_length(&mut self) -> (r: Result<usize>)
        ensures
            r matches Ok(v) ==> spec_read_length(old(self)@) matches Some((n, k)) && n == v
                && final(self)@ == old(self)@.subrange(k, old(self)@.len() as int),
            r is Err <==> spec_read_length(old(self)@) is None,
            old(self)@.len() == 0 ==> is_short(r, 1, 0),
            is_suffix(final(self)@, old(self)@),
    {
        proof {
            lemma_suffix_refl(self.buf@);
        }
        if self.buf.len() == 0 {
            return Err(Error::Short { need: 1, have: 0 });
        }
        let first = self.buf[0];
        let all = self.buf;
        self.buf = slice_range(all, 1, all.len());
        proof {
            lemma_suffix_subrange(all@, 1);
        }
        if first < 0x80 {
            return Ok(first as usize);
        }
        let n = (first - 0x80) as usize;
        if self.buf.len() < n {
            return Err(Error::Short { need: n, have: self.buf.len() });
        }
        let len = read_fold_usize(all, 1, 1 + n);
        self.buf = slice_range(all, 1 + n, all.len());
        proof {
            lemma_suffix_subrange(all@, 1 + n);
        }
        Ok(len)
    }

    /// Expect a specific (possibly multi-byte) tag, returning its contents.
    pub fn expect(&mut self, tag: &[u8]) -> (r: Result<&'a [u8]>)
        ensures
            r matches Ok(v) ==> spec_expect(old(self)@, tag@) matches Some((c, k)) && c == v@
                && final(self)@ == old(self)@.subrange(k, old(self)@.len() as int),
            r is Err <==> spec_expect(old(self)@, tag@) is None,
            old(self)@.len() < tag.len() ==> is_short(r, tag.len() as int, old(self)@.len() as int),
            old(self)@.len() >= tag.len() && old(self)@.subrange(0, tag.len() as int) != tag@
                ==> is_protocol(r),
            old(self)@.len() < tag.len() || old(self)@.subrange(0, tag.len() as int) != tag@ ==> final(self)@
                == old(self)@,
            is_suffix(final(self)@, old(self)@),
    {
        proof {
            lemma_suffix_refl(self.buf@);
        }
        if self.buf.len() < tag.len() {
            return Err(Error::Short { need: tag.len(), have: self.buf.len() });
        }
        let all = self.buf;
        if !crate::wire::bytes_eq(slice_range(all, 0, tag.len()), tag) {
            return Err(Error::Protocol("unexpected BER tag"));
        }
        self.buf = slice_range(all, tag.len(), all.len());
        proof {
            lemma_suffix_subrange(all@, tag.len() as int);
        }
        let ghost mid = self.buf@;
        let lr = self.read_length();
        proof {
            lemma_suffix_trans(self.buf@, mid, all@);
        }
        let len = match lr {
            Ok(l) => l,
            Err(e) => {
                return Err(e);
            },
        };
        if self.buf.len() < len {
            return Err(Error::Short { need: len, have: self.buf.len() });
        }
        let rest = self.buf;
        let v = slice_range(rest, 0, len);
        self.buf = slice_range(rest, len, rest.len());
        proof {
            assert(v@ =~= all@.subrange(all.len() - rest.len(), all.len() - rest.len() + len));
            lemma_suffix_subrange(rest@, len as int);
            lemma_suffix_trans(self.buf@, rest@, all@);
        }
        Ok(v)
    }

    /// Read an INTEGER's value as u32 (big-endian; high bytes beyond 32 bits fall off).
    pub fn read_integer(&mut self) -> (r: Result<u32>)
        ensures
            r matches Ok(v) ==> spec_expect(old(self)@, seq![0x02u8]) matches Some((c, k)) && v
                == fold_u32(c) && final(self)@ == old(self)@.subrange(k, old(self)@.len() as int),
            r is Err <==> spec_expect(old(self)@, seq![0x02u8]) is None,
            is_suffix(final(self)@, old(self)@),
    {
        let tag: [u8; 1] = [0x02];
        proof {
            assert(tag@ =~= seq![0x02u8]);
        }
        let v = self.expect(&tag)?;
        Ok(read_fold_u32(v))
    }
}

/// Reading back an encoded length gives the length and the header size.
pub proof fn lemma_read_length(len: usize, rest: Seq<u8>)
    ensures
        spec_read_length(spec_length(len as nat) + rest) == Some((len, spec_length(len as nat).len() as int)),
{
    let s = spec_length(len as nat) + rest;
    if len >= 0x80 {
        lemma_be_min_fits(len);
        lemma_be_value_min(len as nat);
        let m = be_min(len as nat);
        assert(s.subrange(1, 1 + m.len() as int) =~= m);
        lemma_fold_usize(m);
    }
}

/// Reading back a TLV gives its contents and its total size.
pub proof fn lemma_expect_tlv(tag: Seq<u8>, contents: Seq<u8>, rest: Seq<u8>)
    requires
        contents.len() <= usize::MAX,
    ensures
        spec_expect(spec_tlv(tag, contents) + rest, tag) == Some((contents, spec_tlv(tag, contents).len() as int)),
{
    let s = spec_tlv(tag, contents) + rest;
    let l = spec_length(contents.len());
    assert(s.subrange(0, tag.len() as int) =~= tag);
    assert(s.subrange(tag.len() as int, s.len() as int) =~= l + (contents + rest));
    lemma_read_length(contents.len() as usize, contents + rest);
    let start: int = tag.len() as int + l.len() as int;
    assert(s.subrange(start, start + contents.len() as int) =~= contents);
}

/// Reading back an encoded INTEGER gives the value.
pub proof fn lemma_integer_value(v: u32)
    ensures
        fold_u32(spec_integer_content(v as nat)) == v,
        be_value(spec_integer_content(v as nat)) == v,
        spec_integer_content(v as nat).len() <= 5,
{
    lemma_be_value_min(v as nat);
    assert(pow256(4) == 0x1_0000_0000) by {
        reveal_with_fuel(pow256, 5);
    }
    lemma_be_min_len(v as nat, 4);
    let m = if v == 0 { seq![0u8] } else { be_min(v as nat) };
    assert(be_value(m) == v) by {
        if v == 0 {
            assert(be_value(seq![0u8]) == be_value(seq![0u8].drop_last()) * 256 + 0);
            assert(seq![0u8].drop_last().len() == 0);
        }
    }
    if m[0] >= 0x80 {
        let c = seq![0u8] + m;
        lemma_be_value_prefix_zero(c);
        assert(c.drop_first() =~= m);
        lemma_fold_u32(c);
    } else {
        lemma_fold_u32(m);
    }
}

} // verus!
