//! Static virtual channel framing: the CHANNEL_PDU_HEADER that prefixes data
//! on a joined virtual channel, and chunk reassembly. Large messages are split
//! into chunks of at most [`CHANNEL_CHUNK_LENGTH`] bytes flagged FIRST/LAST.

use vstd::prelude::*;
use crate::wire::{le32, put_bytes, put_u32_le, read_u32_le, slice_range, to_vec, get_le32};
use crate::{is_protocol, is_short, Error, Result};

verus! {

/// Maximum bytes of channel data per chunk.
pub const CHANNEL_CHUNK_LENGTH: usize = 1600;

pub const CHANNEL_FLAG_FIRST: u32 = 0x0000_0001;
pub const CHANNEL_FLAG_LAST: u32 = 0x0000_0002;
pub const CHANNEL_FLAG_SHOW_PROTOCOL: u32 = 0x0000_0010;

/// A chunk: total length (cut to 32 bits), flags, then the chunk's data.
pub open spec fn spec_chunk_pdu(total: nat, flags: u32, data: Seq<u8>) -> Seq<u8> {
    le32((total % 0x1_0000_0000) as u32) + le32(flags) + data
}

/// `data` as a single chunk flagged FIRST | LAST.
pub open spec fn spec_wrap(data: Seq<u8>) -> Seq<u8> {
    spec_chunk_pdu(data.len(), CHANNEL_FLAG_FIRST | CHANNEL_FLAG_LAST, data)
}

fn total_of(len: usize) -> (r: u32)
    ensures
        r == (len as nat % 0x1_0000_0000) as u32,
{
    ((len as u64) % 0x1_0000_0000) as u32
}

/// Wrap `data` as a single-chunk virtual channel PDU (FIRST | LAST), for
/// messages of at most [`CHANNEL_CHUNK_LENGTH`] bytes.
pub fn wrap(data: &[u8]) -> (r: Vec<u8>)
    ensures
        r@ == spec_wrap(data@),
{
    let mut out: Vec<u8> = Vec::new();
    put_u32_le(&mut out, total_of(data.len()));
    put_u32_le(&mut out, CHANNEL_FLAG_FIRST | CHANNEL_FLAG_LAST);
    put_bytes(&mut out, data);
    out
}

/// The end of the chunk starting at `offset`.
pub open spec fn chunk_end(len: nat, offset: nat) -> nat {
    if offset + CHANNEL_CHUNK_LENGTH < len { (offset + CHANNEL_CHUNK_LENGTH) as nat } else { len }
}

/// The flags of the chunk `offset..end` of a `len`-byte message.
pub open spec fn chunk_flags(len: nat, offset: nat, end: nat) -> u32 {
    (if offset == 0 { CHANNEL_FLAG_FIRST } else { 0u32 }) | (if end == len { CHANNEL_FLAG_LAST } else { 0u32 })
}

/// The chunks of `data` from `offset` on.
pub open spec fn chunks_from(data: Seq<u8>, offset: nat) -> Seq<Seq<u8>>
    decreases data.len() - offset,
{
    if offset >= data.len() {
        Seq::empty()
    } else {
        let end = chunk_end(data.len(), offset);
        seq![spec_chunk_pdu(data.len(), chunk_flags(data.len(), offset, end), data.subrange(offset as int, end as int))]
            + chunks_from(data, end)
    }
}

/// The chunks `data` is sent as: one wrapped chunk when it fits, else pieces of
/// [`CHANNEL_CHUNK_LENGTH`] bytes, the first flagged FIRST and the last LAST.
pub open spec fn spec_chunk(data: Seq<u8>) -> Seq<Seq<u8>> {
    if data.len() <= CHANNEL_CHUNK_LENGTH {
        seq![spec_wrap(data)]
    } else {
        chunks_from(data, 0)
    }
}

/// The byte strings held by a vector of vectors.
pub open spec fn vec_views(v: Seq<Vec<u8>>) -> Seq<Seq<u8>> {
    Seq::new(v.len(), |i: int| v[i]@)
}

/// Split `data` into virtual channel chunks, each with its own header.
pub fn chunk(data: &[u8]) -> (r: Vec<Vec<u8>>)
    ensures
        vec_views(r@) == spec_chunk(data@),
{
    if data.len() <= CHANNEL_CHUNK_LENGTH {
        let w = wrap(data);
        let r = vec![w];
        proof {
            assert(vec_views(r@) =~= seq![spec_wrap(data@)]);
        }
        return r;
    }
    let total = total_of(data.len());
    let mut chunks: Vec<Vec<u8>> = Vec::new();
    let mut offset: usize = 0;
    while offset < data.len()
        invariant
            offset <= data.len(),
            total == (data.len() as nat % 0x1_0000_0000) as u32,
            chunks_from(data@, 0) == vec_views(chunks@) + chunks_from(data@, offset as nat),
        decreases data.len() - offset,
    {
        let end = if data.len() - offset > CHANNEL_CHUNK_LENGTH { offset + CHANNEL_CHUNK_LENGTH } else { data.len() };
        let mut flags: u32 = 0;
        if offset == 0 {
            flags = flags | CHANNEL_FLAG_FIRST;
        }
        if end == data.len() {
            flags = flags | CHANNEL_FLAG_LAST;
        }
        assert(flags == chunk_flags(data.len() as nat, offset as nat, end as nat)) by {
            assert(0u32 | 1u32 == 1u32) by (bit_vector);
            assert(0u32 | 2u32 == 2u32) by (bit_vector);
            assert(1u32 | 0u32 == 1u32) by (bit_vector);
            assert(0u32 | 0u32 == 0u32) by (bit_vector);
        }
        let mut out: Vec<u8> = Vec::new();
        put_u32_le(&mut out, total);
        put_u32_le(&mut out, flags);
        put_bytes(&mut out, slice_range(data, offset, end));
        let ghost prev = chunks@;
        chunks.push(out);
        proof {
            assert(vec_views(chunks@) =~= vec_views(prev) + seq![out@]);
            assert(vec_views(prev) + (seq![out@] + chunks_from(data@, end as nat)) =~= vec_views(chunks@) + chunks_from(
                data@,
                end as nat,
            ));
        }
        offset = end;
    }
    proof {
        assert(vec_views(chunks@) + Seq::<Seq<u8>>::empty() =~= vec_views(chunks@));
    }
    chunks
}

/// Reassembles chunked virtual channel PDUs into complete messages.
pub struct Reassembler {
    buffer: Vec<u8>,
    expected: usize,
    in_progress: bool,
}

/// A reassembler's state: the bytes gathered, the announced total length,
/// and whether a message is in progress.
pub struct ReassemblyState {
    pub buffer: Seq<u8>,
    pub expected: nat,
    pub in_progress: bool,
}

/// What feeding one chunk gives: a short chunk, a chunk without FIRST while
/// no message is in progress, or the next state and the completed message.
pub enum PushResult {
    Short(int, int),
    NoFirst,
    Next(ReassemblyState, Option<Seq<u8>>),
}

/// One chunk fed to a reassembler in state `s`. FIRST starts a message over;
/// the chunk's data is appended; LAST completes it.
pub open spec fn spec_push(s: ReassemblyState, pdu: Seq<u8>) -> PushResult {
    if pdu.len() < 8 {
        PushResult::Short(8, pdu.len() as int)
    } else {
        let total = get_le32(pdu, 0);
        let flags = get_le32(pdu, 4);
        let data = pdu.subrange(8, pdu.len() as int);
        let s1 = if flags & CHANNEL_FLAG_FIRST != 0 {
            ReassemblyState { buffer: Seq::empty(), expected: total as nat, in_progress: true }
        } else {
            s
        };
        if !s1.in_progress {
            PushResult::NoFirst
        } else {
            let buf = s1.buffer + data;
            if flags & CHANNEL_FLAG_LAST != 0 {
                PushResult::Next(ReassemblyState { buffer: Seq::empty(), expected: s1.expected, in_progress: false }, Some(buf))
            } else {
                PushResult::Next(ReassemblyState { buffer: buf, ..s1 }, None)
            }
        }
    }
}

impl Reassembler {
    /// The reassembler's state.
    pub closed spec fn state(&self) -> ReassemblyState {
        ReassemblyState { buffer: self.buffer@, expected: self.expected as nat, in_progress: self.in_progress }
    }

    /// A reassembler with no message in progress.
    pub fn new() -> (r: Reassembler)
        ensures
            r.state() == (ReassemblyState { buffer: Seq::empty(), expected: 0, in_progress: false }),
    {
        Reassembler { buffer: Vec::new(), expected: 0, in_progress: false }
    }

    /// Feed one virtual channel PDU. Returns the complete message when the
    /// LAST chunk arrives, else `None`.
    pub fn push(&mut self, pdu: &[u8]) -> (r: Result<Option<Vec<u8>>>)
        ensures
            match spec_push(old(self).state(), pdu@) {
                PushResult::Short(n, h) => is_short(r, n, h) && final(self).state() == old(self).state(),
                PushResult::NoFirst => is_protocol(r) && final(self).state() == old(self).state(),
                PushResult::Next(s, msg) => final(self).state() == s && match msg {
                    Some(m) => r matches Ok(Some(v)) && v@ == m,
                    None => r matches Ok(None),
                },
            },
    {
        if pdu.len() < 8 {
            return Err(Error::Short { need: 8, have: pdu.len() });
        }
        let total = read_u32_le(pdu, 0) as usize;
        let flags = read_u32_le(pdu, 4);
        let data = slice_range(pdu, 8, pdu.len());
        if flags & CHANNEL_FLAG_FIRST != 0 {
            self.buffer = Vec::new();
            self.expected = total;
            self.in_progress = true;
        }
        if !self.in_progress {
            return Err(Error::Protocol("virtual channel chunk without FIRST"));
        }
        put_bytes(&mut self.buffer, data);
        if flags & CHANNEL_FLAG_LAST != 0 {
            self.in_progress = false;
            let mut msg: Vec<u8> = Vec::new();
            std::mem::swap(&mut msg, &mut self.buffer);
            return Ok(Some(msg));
        }
        Ok(None)
    }
}

/// The state after feeding `pdus` in order, with the messages completed,
/// or `None` when one of them is refused.
pub open spec fn spec_feed(s: ReassemblyState, pdus: Seq<Seq<u8>>) -> Option<(ReassemblyState, Seq<Seq<u8>>)>
    decreases pdus.len(),
{
    if pdus.len() == 0 {
        Some((s, Seq::empty()))
    } else {
        match spec_push(s, pdus[0]) {
            PushResult::Next(s1, msg) => match spec_feed(s1, pdus.drop_first()) {
                None => None,
                Some((s2, msgs)) => Some(
                    (
                        s2,
                        match msg {
                            Some(m) => seq![m] + msgs,
                            None => msgs,
                        },
                    ),
                ),
            },
            _ => None,
        }
    }
}

proof fn lemma_first_last_bits()
    by (bit_vector)
    ensures
        (CHANNEL_FLAG_FIRST | CHANNEL_FLAG_LAST) & CHANNEL_FLAG_FIRST != 0,
        (CHANNEL_FLAG_FIRST | CHANNEL_FLAG_LAST) & CHANNEL_FLAG_LAST != 0,
        (CHANNEL_FLAG_FIRST | 0u32) & CHANNEL_FLAG_FIRST != 0,
        (CHANNEL_FLAG_FIRST | 0u32) & CHANNEL_FLAG_LAST == 0,
        (0u32 | CHANNEL_FLAG_LAST) & CHANNEL_FLAG_FIRST == 0,
        (0u32 | CHANNEL_FLAG_LAST) & CHANNEL_FLAG_LAST != 0,
        (0u32 | 0u32) & CHANNEL_FLAG_FIRST == 0,
        (0u32 | 0u32) & CHANNEL_FLAG_LAST == 0,
{
}

/// A chunk's header reads back as its flags.
proof fn lemma_chunk_header(total: nat, flags: u32, data: Seq<u8>)
    ensures
        spec_chunk_pdu(total, flags, data).len() == 8 + data.len(),
        get_le32(spec_chunk_pdu(total, flags, data), 4) == flags,
        spec_chunk_pdu(total, flags, data).subrange(8, 8 + data.len() as int) == data,
{
    let p = spec_chunk_pdu(total, flags, data);
    crate::wire::lemma_le32(flags);
    assert(p.subrange(4, 8) =~= le32(flags));
    crate::wire::lemma_get_le32_at(p, 4, flags);
    assert(p.subrange(8, 8 + data.len() as int) =~= data);
}

/// Feeding the chunks of `data` from `offset` on, with the bytes before
/// `offset` gathered so far, completes `data`.
proof fn lemma_feed_chunks_from(data: Seq<u8>, offset: nat, s: ReassemblyState)
    requires
        0 < offset < data.len(),
        s.in_progress,
        s.buffer == data.subrange(0, offset as int),
    ensures
        spec_feed(s, chunks_from(data, offset)) matches Some((s2, msgs)) && msgs == seq![data] && !s2.in_progress,
    decreases data.len() - offset,
{
    lemma_first_last_bits();
    let end = chunk_end(data.len(), offset);
    let flags = chunk_flags(data.len(), offset, end);
    let piece = data.subrange(offset as int, end as int);
    let pdu = spec_chunk_pdu(data.len(), flags, piece);
    lemma_chunk_header(data.len(), flags, piece);
    assert(pdu.subrange(8, pdu.len() as int) =~= piece);
    assert(flags & CHANNEL_FLAG_FIRST == 0);
    let cs = chunks_from(data, offset);
    assert(cs[0] == pdu);
    let buf = s.buffer + piece;
    assert(buf =~= data.subrange(0, end as int));
    if end == data.len() {
        assert(flags & CHANNEL_FLAG_LAST != 0);
        let s_done = ReassemblyState { buffer: Seq::empty(), expected: s.expected, in_progress: false };
        assert(spec_push(s, pdu) == PushResult::Next(s_done, Some(buf)));
        assert(chunks_from(data, end) =~= Seq::<Seq<u8>>::empty());
        assert(cs.drop_first() =~= Seq::<Seq<u8>>::empty());
        assert(data.subrange(0, end as int) =~= data);
        assert(spec_feed(s_done, cs.drop_first()) == Some((s_done, Seq::<Seq<u8>>::empty())));
        assert(seq![buf] + Seq::<Seq<u8>>::empty() =~= seq![data]);
    } else {
        assert(flags & CHANNEL_FLAG_LAST == 0);
        let s1 = ReassemblyState { buffer: buf, ..s };
        assert(spec_push(s, pdu) == PushResult::Next(s1, None));
        assert(cs.drop_first() =~= chunks_from(data, end));
        lemma_feed_chunks_from(data, end, s1);
    }
}

/// What [`chunk`] splits a message into, a [`Reassembler`] in any state
/// gives back whole: feeding the chunks in order completes exactly one
/// message, the one that was split, and leaves no message in progress.
pub proof fn lemma_chunk_reassemble(data: Seq<u8>, s: ReassemblyState)
    ensures
        spec_feed(s, spec_chunk(data)) matches Some((s2, msgs)) && msgs == seq![data] && !s2.in_progress,
{
    lemma_first_last_bits();
    if data.len() <= CHANNEL_CHUNK_LENGTH {
        let flags = CHANNEL_FLAG_FIRST | CHANNEL_FLAG_LAST;
        let pdu = spec_wrap(data);
        lemma_chunk_header(data.len(), flags, data);
        assert(pdu.subrange(8, pdu.len() as int) =~= data);
        let s_done = ReassemblyState { buffer: Seq::empty(), expected: get_le32(pdu, 0) as nat, in_progress: false };
        assert(Seq::<u8>::empty() + data =~= data);
        assert(spec_push(s, pdu) == PushResult::Next(s_done, Some(data)));
        assert(spec_chunk(data)[0] == pdu);
        assert(spec_chunk(data).drop_first() =~= Seq::<Seq<u8>>::empty());
        assert(spec_feed(s_done, spec_chunk(data).drop_first()) == Some((s_done, Seq::<Seq<u8>>::empty())));
        assert(seq![data] + Seq::<Seq<u8>>::empty() =~= seq![data]);
    } else {
        let end = chunk_end(data.len(), 0);
        let flags = chunk_flags(data.len(), 0, end);
        let piece = data.subrange(0, end as int);
        let pdu = spec_chunk_pdu(data.len(), flags, piece);
        lemma_chunk_header(data.len(), flags, piece);
        assert(pdu.subrange(8, pdu.len() as int) =~= piece);
        assert(end < data.len());
        assert(flags & CHANNEL_FLAG_FIRST != 0);
        assert(flags & CHANNEL_FLAG_LAST == 0);
        let cs = chunks_from(data, 0);
        assert(cs[0] == pdu);
        assert(cs.drop_first() =~= chunks_from(data, end));
        assert(Seq::<u8>::empty() + piece =~= piece);
        let s1 = ReassemblyState { buffer: piece, expected: get_le32(pdu, 0) as nat, in_progress: true };
        assert(spec_push(s, pdu) == PushResult::Next(s1, None));
        lemma_feed_chunks_from(data, end, s1);
    }
}

/// Feeding fewer than all the chunks of `data` from `offset` on completes no
/// message.
proof fn lemma_feed_chunks_prefix(data: Seq<u8>, offset: nat, s: ReassemblyState, j: nat)
    requires
        0 < offset < data.len(),
        s.in_progress,
        s.buffer == data.subrange(0, offset as int),
        j < chunks_from(data, offset).len(),
    ensures
        spec_feed(s, chunks_from(data, offset).take(j as int)) matches Some((_, msgs)) && msgs.len() == 0,
    decreases data.len() - offset,
{
    let cs = chunks_from(data, offset);
    if j == 0 {
        assert(cs.take(0) =~= Seq::<Seq<u8>>::empty());
    } else {
        lemma_first_last_bits();
        let end = chunk_end(data.len(), offset);
        let flags = chunk_flags(data.len(), offset, end);
        let piece = data.subrange(offset as int, end as int);
        let pdu = spec_chunk_pdu(data.len(), flags, piece);
        lemma_chunk_header(data.len(), flags, piece);
        assert(pdu.subrange(8, pdu.len() as int) =~= piece);
        assert(cs[0] == pdu);
        assert(cs.drop_first() =~= chunks_from(data, end));
        if end == data.len() {
            assert(chunks_from(data, end) =~= Seq::<Seq<u8>>::empty());
            assert(false);
        }
        assert(flags & CHANNEL_FLAG_FIRST == 0);
        assert(flags & CHANNEL_FLAG_LAST == 0);
        let buf = s.buffer + piece;
        assert(buf =~= data.subrange(0, end as int));
        let s1 = ReassemblyState { buffer: buf, ..s };
        assert(spec_push(s, pdu) == PushResult::Next(s1, None));
        let t = cs.take(j as int);
        assert(t[0] == pdu);
        assert(t.drop_first() =~= chunks_from(data, end).take(j - 1));
        lemma_feed_chunks_prefix(data, end, s1, (j - 1) as nat);
    }
}

/// Pushing the first `j` of the chunks [`chunk`] splits `data` into, fewer
/// than all of them, to a [`Reassembler`] in any state completes no message:
/// every chunk but the last gives `Ok(None)` (with
/// [`lemma_chunk_reassemble`], the last gives `data`).
pub proof fn lemma_chunk_prefix(data: Seq<u8>, s: ReassemblyState, j: nat)
    requires
        j < spec_chunk(data).len(),
    ensures
        spec_feed(s, spec_chunk(data).take(j as int)) matches Some((_, msgs)) && msgs.len() == 0,
{
    let cs = spec_chunk(data);
    if j == 0 {
        assert(cs.take(0) =~= Seq::<Seq<u8>>::empty());
    } else {
        lemma_first_last_bits();
        assert(data.len() > CHANNEL_CHUNK_LENGTH);
        let end = chunk_end(data.len(), 0);
        let flags = chunk_flags(data.len(), 0, end);
        let piece = data.subrange(0, end as int);
        let pdu = spec_chunk_pdu(data.len(), flags, piece);
        lemma_chunk_header(data.len(), flags, piece);
        assert(pdu.subrange(8, pdu.len() as int) =~= piece);
        assert(end < data.len());
        assert(flags & CHANNEL_FLAG_FIRST != 0);
        assert(flags & CHANNEL_FLAG_LAST == 0);
        assert(cs[0] == pdu);
        assert(cs.drop_first() =~= chunks_from(data, end));
        assert(Seq::<u8>::empty() + piece =~= piece);
        let s1 = ReassemblyState { buffer: piece, expected: get_le32(pdu, 0) as nat, in_progress: true };
        assert(spec_push(s, pdu) == PushResult::Next(s1, None));
        let t = cs.take(j as int);
        assert(t[0] == pdu);
        assert(t.drop_first() =~= chunks_from(data, end).take(j - 1));
        lemma_feed_chunks_prefix(data, end, s1, (j - 1) as nat);
    }
}

} // verus!
