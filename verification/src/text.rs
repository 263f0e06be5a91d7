//! Text encodings used on the wire: UTF-16LE (what NTLM and RDP call
//! "UNICODE"), upper-casing, lossy UTF-8 decoding, and ASCII text.

use vstd::prelude::*;
use vstd::utf8::decode_utf8;
use vstd::utf8::valid_utf8;
use vstd::utf8::encode_utf8;
use vstd::utf8::is_ascii_chars;
use vstd::utf8::is_ascii_chars_encode_utf8;
use vstd::utf8::encode_utf8_valid_utf8;
use vstd::utf8::encode_utf8_decode_utf8;
use crate::wire::{le16, put_u16_le, put_u8};

verus! {

/// The UTF-16 code units of one character.
pub open spec fn char_utf16(c: char) -> Seq<u16> {
    let v = c as u32;
    if v < 0x10000 {
        seq![v as u16]
    } else {
        seq![(0xD800 + (v - 0x10000) / 1024) as u16, (0xDC00 + (v - 0x10000) % 1024) as u16]
    }
}

/// The UTF-16 code units of a character sequence.
pub open spec fn utf16_units(cs: Seq<char>) -> Seq<u16>
    decreases cs.len(),
{
    if cs.len() == 0 {
        Seq::empty()
    } else {
        utf16_units(cs.drop_last()) + char_utf16(cs.last())
    }
}

/// Code units laid out little-endian, two bytes each.
pub open spec fn units_le(us: Seq<u16>) -> Seq<u8>
    decreases us.len(),
{
    if us.len() == 0 {
        Seq::empty()
    } else {
        units_le(us.drop_last()) + le16(us.last())
    }
}

/// UTF-16LE bytes of a character sequence.
pub open spec fn spec_unicode(cs: Seq<char>) -> Seq<u8> {
    units_le(utf16_units(cs))
}

/// The Unicode upper-case mapping of a string, as `str::to_uppercase` gives it.
pub uninterp spec fn spec_to_uppercase(s: Seq<char>) -> Seq<char>;

/// The characters `String::from_utf8_lossy` gives for `b`.
pub uninterp spec fn spec_utf8_lossy(b: Seq<u8>) -> Seq<char>;

/// Calls `str::encode_utf16`; its documentation defines the result as the
/// UTF-16 encoding of the string, one unit per BMP character and a surrogate
/// pair otherwise, which `utf16_units` states.
#[verifier::external_body]
pub(crate) fn encode_utf16_units(s: &str) -> (r: Vec<u16>)
    ensures
        r@ == utf16_units(s@),
{
    s.encode_utf16().collect()
}

/// Calls `str::to_uppercase`; the result is named, not described.
#[verifier::external_body]
pub(crate) fn to_uppercase(s: &str) -> (r: String)
    ensures
        r@ == spec_to_uppercase(s@),
{
    s.to_uppercase()
}

/// Calls `String::from_utf8_lossy`. Its documentation states that valid UTF-8
/// is decoded unchanged; what it gives for invalid input is named, not described.
#[verifier::external_body]
pub(crate) fn utf8_lossy(b: &[u8]) -> (r: String)
    ensures
        r@ == spec_utf8_lossy(b@),
        valid_utf8(b@) ==> r@ == decode_utf8(b@),
{
    String::from_utf8_lossy(b).into_owned()
}

/// The lowercase hexadecimal digit of `d` (below 16), as an ASCII byte.
pub open spec fn hex_byte(d: u32) -> u8 {
    if d < 10 {
        (48 + d) as u8
    } else {
        (87 + d) as u8
    }
}

/// The eight hexadecimal digits of `v`, most significant first.
pub open spec fn hex8(v: u32) -> Seq<u8> {
    Seq::new(8, |i: int| hex_byte((v >> ((28 - 4 * i) as u32)) & 0xF))
}

/// Every byte of `b` is ASCII.
pub open spec fn all_ascii(b: Seq<u8>) -> bool {
    forall|i: int| 0 <= i < b.len() ==> b[i] < 0x80
}

/// Append the eight lowercase hexadecimal digits of `v`.
pub fn push_hex8(out: &mut Vec<u8>, v: u32)
    requires
        all_ascii(old(out)@),
    ensures
        final(out)@ == old(out)@ + hex8(v),
        all_ascii(final(out)@),
{
    let ghost head = out@;
    let mut i: u32 = 0;
    while i < 8
        invariant
            i <= 8,
            out@ == head + hex8(v).subrange(0, i as int),
            all_ascii(out@),
        decreases 8 - i,
    {
        let shift: u32 = 28 - 4 * i;
        let d = (v >> shift) & 0xF;
        assert(d <= 15) by (bit_vector)
            requires
                d == (v >> shift) & 0xF,
        ;
        let c: u8 = if d < 10 {
            (48 + d) as u8
        } else {
            (87 + d) as u8
        };
        put_u8(out, c);
        proof {
            assert(hex8(v).subrange(0, i + 1) =~= hex8(v).subrange(0, i as int).push(hex8(v)[i as int]));
            assert(out@ =~= head + hex8(v).subrange(0, i + 1));
        }
        i = i + 1;
    }
    proof {
        assert(hex8(v).subrange(0, 8) =~= hex8(v));
    }
}

/// The characters of an ASCII byte string.
pub open spec fn ascii_chars(b: Seq<u8>) -> Seq<char> {
    Seq::new(b.len(), |i: int| b[i] as char)
}

/// The string holding the ASCII bytes `b`.
pub fn ascii_string(b: &[u8]) -> (r: String)
    requires
        forall|i: int| 0 <= i < b.len() ==> b[i] < 0x80,
    ensures
        r@ == ascii_chars(b@),
{
    proof {
        let chars = ascii_chars(b@);
        assert(is_ascii_chars(chars));
        is_ascii_chars_encode_utf8(chars);
        assert forall|i: int| 0 <= i < b.len() implies encode_utf8(chars)[i] == b@[i] by {
            assert(chars[i] as u8 == encode_utf8(chars)[i]);
            let x = b@[i];
            assert((x as char) as u8 == x);
        }
        assert(encode_utf8(chars) =~= b@);
        encode_utf8_valid_utf8(chars);
        encode_utf8_decode_utf8(chars);
    }
    utf8_lossy(b)
}

/// UTF-16LE bytes of `units`.
pub(crate) fn units_to_le(units: &Vec<u16>) -> (r: Vec<u8>)
    ensures
        r@ == units_le(units@),
{
    let mut out: Vec<u8> = Vec::new();
    let mut i: usize = 0;
    while i < units.len()
        invariant
            i <= units.len(),
            out@ == units_le(units@.subrange(0, i as int)),
        decreases units.len() - i,
    {
        put_u16_le(&mut out, units[i]);
        proof {
            let s = units@.subrange(0, i + 1);
            assert(s.drop_last() =~= units@.subrange(0, i as int));
        }
        i = i + 1;
    }
    assert(units@.subrange(0, units.len() as int) =~= units@);
    out
}


pub proof fn lemma_units_le_concat(a: Seq<u16>, b: Seq<u16>)
    ensures
        units_le(a + b) == units_le(a) + units_le(b),
    decreases b.len(),
{
    if b.len() == 0 {
        assert(a + b =~= a);
    } else {
        lemma_units_le_concat(a, b.drop_last());
        assert((a + b).drop_last() =~= a + b.drop_last());
    }
}

pub proof fn lemma_utf16_concat(a: Seq<char>, b: Seq<char>)
    ensures
        utf16_units(a + b) == utf16_units(a) + utf16_units(b),
    decreases b.len(),
{
    if b.len() == 0 {
        assert(a + b =~= a);
    } else {
        lemma_utf16_concat(a, b.drop_last());
        assert((a + b).drop_last() =~= a + b.drop_last());
    }
}

/// UTF-16LE encoding distributes over concatenation.
pub proof fn lemma_unicode_concat(a: Seq<char>, b: Seq<char>)
    ensures
        spec_unicode(a + b) == spec_unicode(a) + spec_unicode(b),
{
    lemma_utf16_concat(a, b);
    lemma_units_le_concat(utf16_units(a), utf16_units(b));
}

} // verus!
