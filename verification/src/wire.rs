//! Little/big-endian integer encodings and byte-buffer helpers shared by every
//! PDU encoder and parser.

use vstd::prelude::*;

verus! {

/// Little-endian encoding of a 16-bit value.
pub open spec fn le16(v: u16) -> Seq<u8> {
    seq![(v % 256) as u8, (v / 256) as u8]
}

/// Big-endian encoding of a 16-bit value.
pub open spec fn be16(v: u16) -> Seq<u8> {
    seq![(v / 256) as u8, (v % 256) as u8]
}

/// Little-endian encoding of a 32-bit value.
pub open spec fn le32(v: u32) -> Seq<u8> {
    seq![
        (v % 256) as u8,
        ((v / 256) % 256) as u8,
        ((v / 65536) % 256) as u8,
        (v / 16777216) as u8,
    ]
}

/// The little-endian 16-bit value stored at `s[i..i+2]`.
pub open spec fn get_le16(s: Seq<u8>, i: int) -> u16 {
    (s[i] + s[i + 1] * 256) as u16
}

/// The big-endian 16-bit value stored at `s[i..i+2]`.
pub open spec fn get_be16(s: Seq<u8>, i: int) -> u16 {
    (s[i] * 256 + s[i + 1]) as u16
}

/// The little-endian 32-bit value stored at `s[i..i+4]`.
pub open spec fn get_le32(s: Seq<u8>, i: int) -> u32 {
    (s[i] + s[i + 1] * 256 + s[i + 2] * 65536 + s[i + 3] * 16777216) as u32
}

pub proof fn lemma_le16(v: u16)
    ensures
        le16(v).len() == 2,
        get_le16(le16(v), 0) == v,
        forall|s: Seq<u8>, i: int| 0 <= i && i + 2 <= s.len() && s.subrange(i, i + 2) == le16(v) ==> get_le16(s, i) == v,
{
    assert forall|s: Seq<u8>, i: int| 0 <= i && i + 2 <= s.len() && s.subrange(i, i + 2) == le16(v) implies get_le16(s, i) == v by {
        assert(s[i] == s.subrange(i, i + 2)[0]);
        assert(s[i + 1] == s.subrange(i, i + 2)[1]);
    }
}

pub proof fn lemma_le32(v: u32)
    ensures
        le32(v).len() == 4,
        get_le32(le32(v), 0) == v,
{
}

/// A 16-bit little-endian value read where it was written.
pub proof fn lemma_get_le16_at(s: Seq<u8>, i: int, v: u16)
    requires
        0 <= i,
        i + 2 <= s.len(),
        s.subrange(i, i + 2) == le16(v),
    ensures
        get_le16(s, i) == v,
{
    assert(s[i] == s.subrange(i, i + 2)[0]);
    assert(s[i + 1] == s.subrange(i, i + 2)[1]);
}

/// A 32-bit little-endian value read where it was written.
pub proof fn lemma_get_le32_at(s: Seq<u8>, i: int, v: u32)
    requires
        0 <= i,
        i + 4 <= s.len(),
        s.subrange(i, i + 4) == le32(v),
    ensures
        get_le32(s, i) == v,
{
    assert(s[i] == s.subrange(i, i + 4)[0]);
    assert(s[i + 1] == s.subrange(i, i + 4)[1]);
    assert(s[i + 2] == s.subrange(i, i + 4)[2]);
    assert(s[i + 3] == s.subrange(i, i + 4)[3]);
}

/// Append one byte.
pub fn put_u8(out: &mut Vec<u8>, v: u8)
    ensures
        final(out)@ == old(out)@.push(v),
{
    out.push(v);
}

/// Append a little-endian 16-bit value.
pub fn put_u16_le(out: &mut Vec<u8>, v: u16)
    ensures
        final(out)@ == old(out)@ + le16(v),
{
    out.push((v % 256) as u8);
    out.push((v / 256) as u8);
}

/// Append a big-endian 16-bit value.
pub fn put_u16_be(out: &mut Vec<u8>, v: u16)
    ensures
        final(out)@ == old(out)@ + be16(v),
{
    out.push((v / 256) as u8);
    out.push((v % 256) as u8);
}

/// Append a little-endian 32-bit value.
pub fn put_u32_le(out: &mut Vec<u8>, v: u32)
    ensures
        final(out)@ == old(out)@ + le32(v),
{
    out.push((v % 256) as u8);
    out.push(((v / 256) % 256) as u8);
    out.push(((v / 65536) % 256) as u8);
    out.push((v / 16777216) as u8);
}

/// Append a slice of bytes.
pub fn put_bytes(out: &mut Vec<u8>, s: &[u8])
    ensures
        final(out)@ == old(out)@ + s@,
{
    let ghost start = out@;
    let mut i: usize = 0;
    while i < s.len()
        invariant
            i <= s.len(),
            out@ == start + s@.subrange(0, i as int),
        decreases s.len() - i,
    {
        out.push(s[i]);
        i = i + 1;
        assert(out@ == start + s@.subrange(0, i as int));
    }
    assert(s@.subrange(0, s.len() as int) == s@);
}

/// Read the little-endian 16-bit value at `b[i..i+2]`.
pub fn read_u16_le(b: &[u8], i: usize) -> (r: u16)
    requires
        i + 2 <= b.len(),
    ensures
        r == get_le16(b@, i as int),
{
    (b[i] as u16) + (b[i + 1] as u16) * 256
}

/// Read the big-endian 16-bit value at `b[i..i+2]`.
pub fn read_u16_be(b: &[u8], i: usize) -> (r: u16)
    requires
        i + 2 <= b.len(),
    ensures
        r == get_be16(b@, i as int),
{
    (b[i] as u16) * 256 + (b[i + 1] as u16)
}

/// Read the little-endian 32-bit value at `b[i..i+4]`.
pub fn read_u32_le(b: &[u8], i: usize) -> (r: u32)
    requires
        i + 4 <= b.len(),
    ensures
        r == get_le32(b@, i as int),
{
    (b[i] as u32) + (b[i + 1] as u32) * 256 + (b[i + 2] as u32) * 65536 + (b[i + 3] as u32) * 16777216
}

/// The sub-slice `b[from..to]`.
pub fn slice_range(b: &[u8], from: usize, to: usize) -> (r: &[u8])
    requires
        from <= to <= b.len(),
    ensures
        r@ == b@.subrange(from as int, to as int),
{
    &b[from..to]
}

/// Whether `b` begins with `p`.
pub fn starts_with(b: &[u8], p: &[u8]) -> (r: bool)
    ensures
        r == (p.len() <= b.len() && b@.subrange(0, p.len() as int) == p@),
{
    if p.len() > b.len() {
        return false;
    }
    let mut i: usize = 0;
    while i < p.len()
        invariant
            i <= p.len() <= b.len(),
            forall|j: int| 0 <= j < i ==> b@[j] == p@[j],
        decreases p.len() - i,
    {
        if b[i] != p[i] {
            assert(b@.subrange(0, p.len() as int)[i as int] != p@[i as int]);
            return false;
        }
        i = i + 1;
    }
    assert(b@.subrange(0, p.len() as int) =~= p@);
    true
}

/// Whether the byte slices hold the same bytes.
pub fn bytes_eq(a: &[u8], b: &[u8]) -> (r: bool)
    ensures
        r == (a@ == b@),
{
    if a.len() != b.len() {
        return false;
    }
    let r = starts_with(a, b);
    assert(a@.subrange(0, b.len() as int) =~= a@);
    r
}

/// A copy of the bytes of `b`.
pub fn to_vec(b: &[u8]) -> (r: Vec<u8>)
    ensures
        r@ == b@,
{
    let mut out: Vec<u8> = Vec::new();
    put_bytes(&mut out, b);
    out
}

/// The minimal big-endian bytes of `v` (empty for zero).
pub open spec fn be_min(v: nat) -> Seq<u8>
    decreases v,
{
    if v == 0 {
        Seq::empty()
    } else {
        be_min(v / 256) + seq![(v % 256) as u8]
    }
}

/// The unsigned big-endian value of a byte sequence.
pub open spec fn be_value(s: Seq<u8>) -> nat
    decreases s.len(),
{
    if s.len() == 0 {
        0
    } else {
        be_value(s.drop_last()) * 256 + s.last() as nat
    }
}

pub proof fn lemma_be_value_min(v: nat)
    ensures
        be_value(be_min(v)) == v,
        v > 0 ==> be_min(v).len() > 0 && be_min(v)[0] != 0,
    decreases v,
{
    if v > 0 {
        lemma_be_value_min(v / 256);
        let s = be_min(v);
        assert(s.drop_last() =~= be_min(v / 256));
        if v / 256 > 0 {
            assert(s[0] == be_min(v / 256)[0]);
        }
    }
}

pub proof fn lemma_be_min_len(v: nat, k: nat)
    requires
        v < pow256(k),
    ensures
        be_min(v).len() <= k,
    decreases k,
{
    if v > 0 && k > 0 {
        lemma_be_min_len(v / 256, (k - 1) as nat);
    }
}

/// `256^k`.
pub open spec fn pow256(k: nat) -> nat
    decreases k,
{
    if k == 0 {
        1
    } else {
        256 * pow256((k - 1) as nat)
    }
}

pub proof fn lemma_be_value_prefix_zero(s: Seq<u8>)
    requires
        s.len() > 0,
        s[0] == 0,
    ensures
        be_value(s) == be_value(s.drop_first()),
    decreases s.len(),
{
    if s.len() > 1 {
        assert(s.drop_last()[0] == 0);
        lemma_be_value_prefix_zero(s.drop_last());
        assert(s.drop_last().drop_first() =~= s.drop_first().drop_last());
        assert(s.drop_first().last() == s.last());
        assert(be_value(s) == be_value(s.drop_last()) * 256 + s.last() as nat);
        assert(be_value(s.drop_first()) == be_value(s.drop_first().drop_last()) * 256 + s.drop_first().last() as nat);
    } else {
        assert(s.drop_first().len() == 0);
        assert(s.drop_last().len() == 0);
        assert(be_value(s.drop_last()) == 0);
        assert(be_value(s.drop_first()) == 0);
    }
}

/// Prepend one byte.
pub fn push_front(out: &mut Vec<u8>, v: u8)
    ensures
        final(out)@ == seq![v] + old(out)@,
{
    out.insert(0, v);
    assert(out@ =~= seq![v] + old(out)@);
}

/// The minimal big-endian bytes of `v`.
pub fn be_min_bytes(v: u64) -> (r: Vec<u8>)
    ensures
        r@ == be_min(v as nat),
{
    let mut out: Vec<u8> = Vec::new();
    let mut n = v;
    while n > 0
        invariant
            be_min(n as nat) + out@ == be_min(v as nat),
        decreases n,
    {
        let ghost prev = out@;
        push_front(&mut out, (n % 256) as u8);
        assert(be_min(n as nat) == be_min((n / 256) as nat) + seq![(n % 256) as u8]);
        assert(be_min((n / 256) as nat) + out@ =~= be_min(n as nat) + prev);
        n = n / 256;
    }
    assert(be_min(0) + out@ =~= out@);
    out
}

/// Bytes shifted big-endian into a 32-bit word (high bits fall off).
pub open spec fn fold_u32(s: Seq<u8>) -> u32
    decreases s.len(),
{
    if s.len() == 0 {
        0
    } else {
        (fold_u32(s.drop_last()) << 8u32) | (s.last() as u32)
    }
}

/// Bytes shifted big-endian into a machine word (high bits fall off).
pub open spec fn fold_usize(s: Seq<u8>) -> usize
    decreases s.len(),
{
    if s.len() == 0 {
        0
    } else {
        (fold_usize(s.drop_last()) << 8usize) | (s.last() as usize)
    }
}

/// Bytes shifted big-endian into a 64-bit word (high bits fall off).
pub open spec fn fold_u64(s: Seq<u8>) -> u64
    decreases s.len(),
{
    if s.len() == 0 {
        0
    } else {
        (fold_u64(s.drop_last()) << 8u64) | (s.last() as u64)
    }
}

proof fn lemma_shl8_or_u32(x: u32, b: u8)
    ensures
        ((x << 8u32) | (b as u32)) == (x * 256 + b) as u32,
{
    assert(((x << 8u32) | (b as u32)) == (x * 256 + b) as u32) by (bit_vector);
}

proof fn lemma_shl8_or_usize(x: usize, b: u8)
    ensures
        ((x << 8usize) | (b as usize)) == (x * 256 + b) as usize,
{
    assert(((x << 8usize) | (b as usize)) == (x * 256 + b) as usize) by (bit_vector);
}

proof fn lemma_shl8_or_u64(x: u64, b: u8)
    ensures
        ((x << 8u64) | (b as u64)) == (x * 256 + b) as u64,
{
    assert(((x << 8u64) | (b as u64)) == (x * 256 + b) as u64) by (bit_vector);
}

/// The 32-bit fold is the big-endian value when that value fits.
pub proof fn lemma_fold_u32(s: Seq<u8>)
    requires
        be_value(s) <= u32::MAX,
    ensures
        fold_u32(s) == be_value(s),
    decreases s.len(),
{
    if s.len() > 0 {
        lemma_fold_u32(s.drop_last());
        lemma_shl8_or_u32(fold_u32(s.drop_last()), s.last());
    }
}

/// The word fold is the big-endian value when that value fits.
pub proof fn lemma_fold_usize(s: Seq<u8>)
    requires
        be_value(s) <= usize::MAX,
    ensures
        fold_usize(s) == be_value(s),
    decreases s.len(),
{
    if s.len() > 0 {
        lemma_fold_usize(s.drop_last());
        lemma_shl8_or_usize(fold_usize(s.drop_last()), s.last());
    }
}

/// The 64-bit fold is the big-endian value when that value fits.
pub proof fn lemma_fold_u64(s: Seq<u8>)
    requires
        be_value(s) <= u64::MAX,
    ensures
        fold_u64(s) == be_value(s),
    decreases s.len(),
{
    if s.len() > 0 {
        lemma_fold_u64(s.drop_last());
        lemma_shl8_or_u64(fold_u64(s.drop_last()), s.last());
    }
}

/// Shift the bytes `b[from..to]` big-endian into a word.
pub fn read_fold_usize(b: &[u8], from: usize, to: usize) -> (r: usize)
    requires
        from <= to <= b.len(),
    ensures
        r == fold_usize(b@.subrange(from as int, to as int)),
{
    let mut v: usize = 0;
    let mut i = from;
    while i < to
        invariant
            from <= i <= to <= b.len(),
            v == fold_usize(b@.subrange(from as int, i as int)),
        decreases to - i,
    {
        assert(b@.subrange(from as int, i + 1).drop_last() =~= b@.subrange(from as int, i as int));
        v = (v << 8) | (b[i] as usize);
        i = i + 1;
    }
    v
}

/// Shift the bytes of `b` big-endian into a 32-bit word.
pub fn read_fold_u32(b: &[u8]) -> (r: u32)
    ensures
        r == fold_u32(b@),
{
    let mut v: u32 = 0;
    let mut i: usize = 0;
    while i < b.len()
        invariant
            i <= b.len(),
            v == fold_u32(b@.subrange(0, i as int)),
        decreases b.len() - i,
    {
        assert(b@.subrange(0, i + 1).drop_last() =~= b@.subrange(0, i as int));
        v = (v << 8) | (b[i] as u32);
        i = i + 1;
    }
    assert(b@.subrange(0, b.len() as int) =~= b@);
    v
}

/// Shift the bytes of `b` big-endian into a 64-bit word.
pub fn read_fold_u64(b: &[u8]) -> (r: u64)
    ensures
        r == fold_u64(b@),
{
    let mut v: u64 = 0;
    let mut i: usize = 0;
    while i < b.len()
        invariant
            i <= b.len(),
            v == fold_u64(b@.subrange(0, i as int)),
        decreases b.len() - i,
    {
        assert(b@.subrange(0, i + 1).drop_last() =~= b@.subrange(0, i as int));
        v = (v << 8) | (b[i] as u64);
        i = i + 1;
    }
    assert(b@.subrange(0, b.len() as int) =~= b@);
    v
}

/// `(n + k) mod 2^16`, the value a 16-bit length field holds for `n + k`.
pub open spec fn len16(n: nat, k: nat) -> u16 {
    ((n + k) % 65536) as u16
}

/// `(n + k) mod 2^16` without overflowing a word.
pub fn len16_of(n: usize, k: usize) -> (r: u16)
    requires
        k < 65536,
    ensures
        r == len16(n as nat, k as nat),
{
    ((n % 65536 + k) % 65536) as u16
}

/// `n mod 2^32`, the value a 32-bit count field holds for `n`.
pub fn len32_of(n: usize) -> (r: u32)
    ensures
        r == (n as nat % 0x1_0000_0000) as u32,
{
    (n as u64 % 0x1_0000_0000) as u32
}

/// The first position at or after `k` where `key` occurs in `b`.
pub open spec fn find_from(b: Seq<u8>, key: Seq<u8>, k: int) -> Option<int>
    decreases b.len() + 1 - k,
{
    if k < 0 || k + key.len() > b.len() {
        None
    } else if b.subrange(k, k + key.len()) == key {
        Some(k)
    } else {
        find_from(b, key, k + 1)
    }
}

pub proof fn lemma_find_from_props(b: Seq<u8>, key: Seq<u8>, k: int)
    ensures
        find_from(b, key, k) matches Some(m) ==> k <= m && m + key.len() <= b.len()
            && b.subrange(m, m + key.len()) == key,
    decreases b.len() + 1 - k,
{
    if k >= 0 && k + key.len() <= b.len() && b.subrange(k, k + key.len()) != key {
        lemma_find_from_props(b, key, k + 1);
    }
}

/// The first position where `key` occurs in `b`.
pub fn find(b: &[u8], key: &[u8]) -> (r: Option<usize>)
    ensures
        r matches Some(i) ==> find_from(b@, key@, 0) == Some(i as int),
        r is None ==> find_from(b@, key@, 0) is None,
{
    if key.len() > b.len() {
        return None;
    }
    if key.len() == 0 {
        assert(b@.subrange(0, 0) =~= key@);
        return Some(0);
    }
    let mut i: usize = 0;
    while i <= b.len() - key.len()
        invariant
            1 <= key.len() <= b.len(),
            i <= b.len() - key.len() + 1,
            find_from(b@, key@, 0) == find_from(b@, key@, i as int),
        decreases b.len() - key.len() + 1 - i,
    {
        if starts_with(slice_range(b, i, b.len()), key) {
            assert(b@.subrange(i as int, b.len() as int).subrange(0, key.len() as int) =~= b@.subrange(
                i as int,
                i + key.len(),
            ));
            return Some(i);
        }
        assert(b@.subrange(i as int, b.len() as int).subrange(0, key.len() as int) =~= b@.subrange(
            i as int,
            i + key.len(),
        ));
        i = i + 1;
    }
    None
}

/// Concatenation of a sequence of byte strings.
pub open spec fn concat(parts: Seq<Seq<u8>>) -> Seq<u8>
    decreases parts.len(),
{
    if parts.len() == 0 {
        Seq::empty()
    } else {
        concat(parts.drop_last()) + parts.last()
    }
}

/// The byte strings held by a slice of vectors.
pub open spec fn views(v: Seq<Vec<u8>>) -> Seq<Seq<u8>> {
    Seq::new(v.len(), |i: int| v[i]@)
}

/// Concatenate every vector of `parts`.
pub fn concat_all(parts: &[Vec<u8>]) -> (r: Vec<u8>)
    ensures
        r@ == concat(views(parts@)),
{
    let mut out: Vec<u8> = Vec::new();
    let mut i: usize = 0;
    while i < parts.len()
        invariant
            i <= parts.len(),
            out@ == concat(views(parts@).subrange(0, i as int)),
        decreases parts.len() - i,
    {
        put_bytes(&mut out, parts[i].as_slice());
        assert(views(parts@).subrange(0, i + 1).drop_last() =~= views(parts@).subrange(0, i as int));
        i = i + 1;
    }
    assert(views(parts@).subrange(0, parts.len() as int) =~= views(parts@));
    out
}

/// `n` zero bytes.
pub open spec fn zeros(n: nat) -> Seq<u8> {
    Seq::new(n, |i: int| 0u8)
}

/// `v` truncated or zero-padded to exactly `n` bytes.
pub open spec fn fit(v: Seq<u8>, n: nat) -> Seq<u8> {
    if v.len() >= n {
        v.subrange(0, n as int)
    } else {
        v + zeros((n - v.len()) as nat)
    }
}

/// Append `n` zero bytes.
pub fn put_zeros(out: &mut Vec<u8>, n: usize)
    ensures
        final(out)@ == old(out)@ + zeros(n as nat),
{
    let ghost start = out@;
    let mut i: usize = 0;
    while i < n
        invariant
            i <= n,
            out@ == start + zeros(i as nat),
        decreases n - i,
    {
        out.push(0);
        i = i + 1;
        assert(out@ =~= start + zeros(i as nat));
    }
}

/// Append `b` truncated or zero-padded to exactly `n` bytes.
pub fn put_fit(out: &mut Vec<u8>, b: &[u8], n: usize)
    ensures
        final(out)@ == old(out)@ + fit(b@, n as nat),
{
    if b.len() >= n {
        put_bytes(out, slice_range(b, 0, n));
    } else {
        put_bytes(out, b);
        put_zeros(out, n - b.len());
        assert(final(out)@ =~= old(out)@ + fit(b@, n as nat));
    }
}

/// The 8 bytes of `v` as an array.
pub fn to_array8(v: &[u8]) -> (r: [u8; 8])
    requires
        v.len() == 8,
    ensures
        r@ == v@,
{
    let mut a: [u8; 8] = [0u8; 8];
    let mut i: usize = 0;
    while i < 8
        invariant
            i <= 8,
            v.len() == 8,
            a@.len() == 8,
            forall|j: int| 0 <= j < i ==> a@[j] == v@[j],
        decreases 8 - i,
    {
        a[i] = v[i];
        i = i + 1;
    }
    assert(a@ =~= v@);
    a
}

/// The 16 bytes of `v` as an array.
pub fn to_array16(v: &[u8]) -> (r: [u8; 16])
    requires
        v.len() == 16,
    ensures
        r@ == v@,
{
    let mut a: [u8; 16] = [0u8; 16];
    let mut i: usize = 0;
    while i < 16
        invariant
            i <= 16,
            v.len() == 16,
            a@.len() == 16,
            forall|j: int| 0 <= j < i ==> a@[j] == v@[j],
        decreases 16 - i,
    {
        a[i] = v[i];
        i = i + 1;
    }
    assert(a@ =~= v@);
    a
}

/// The 24 bytes of `v` as an array.
pub fn to_array24(v: &[u8]) -> (r: [u8; 24])
    requires
        v.len() == 24,
    ensures
        r@ == v@,
{
    let mut a: [u8; 24] = [0u8; 24];
    let mut i: usize = 0;
    while i < 24
        invariant
            i <= 24,
            v.len() == 24,
            a@.len() == 24,
            forall|j: int| 0 <= j < i ==> a@[j] == v@[j],
        decreases 24 - i,
    {
        a[i] = v[i];
        i = i + 1;
    }
    assert(a@ =~= v@);
    a
}

/// The 32 bytes of `v` as an array.
pub fn to_array32(v: &[u8]) -> (r: [u8; 32])
    requires
        v.len() == 32,
    ensures
        r@ == v@,
{
    let mut a: [u8; 32] = [0u8; 32];
    let mut i: usize = 0;
    while i < 32
        invariant
            i <= 32,
            v.len() == 32,
            a@.len() == 32,
            forall|j: int| 0 <= j < i ==> a@[j] == v@[j],
        decreases 32 - i,
    {
        a[i] = v[i];
        i = i + 1;
    }
    assert(a@ =~= v@);
    a
}


/// `dst` with `dst[at..at + n]` replaced by `src[from..from + n]`.
pub open spec fn overwrite(dst: Seq<u8>, at: int, src: Seq<u8>, from: int, n: int) -> Seq<u8> {
    dst.subrange(0, at) + src.subrange(from, from + n) + dst.subrange(at + n, dst.len() as int)
}

/// Copy `src[from..from + n]` over `dst[at..at + n]`.
pub fn copy_within(dst: &mut Vec<u8>, at: usize, src: &[u8], from: usize, n: usize)
    requires
        from + n <= src.len(),
        at + n <= old(dst).len(),
    ensures
        final(dst)@ == overwrite(old(dst)@, at as int, src@, from as int, n as int),
{
    let ghost old_dst = dst@;
    let total = dst.len();
    let mut k: usize = 0;
    while k < n
        invariant
            k <= n,
            from + n <= src.len(),
            at + n <= total,
            total == old_dst.len(),
            dst@.len() == old_dst.len(),
            forall|j: int| 0 <= j < at ==> dst@[j] == old_dst[j],
            forall|j: int| at <= j < at + k ==> dst@[j] == src@[from + j - at],
            forall|j: int| at + k <= j < old_dst.len() ==> dst@[j] == old_dst[j],
        decreases n - k,
    {
        dst.set(at + k, src[from + k]);
        k = k + 1;
    }
    assert(dst@ =~= overwrite(old_dst, at as int, src@, from as int, n as int));
}

} // verus!
