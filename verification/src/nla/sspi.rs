//! NTLM message confidentiality and integrity (SEAL/SIGN) for CredSSP, in the
//! profile CredSSP negotiates: Extended Session Security, SEAL, KEY_EXCH and
//! 128-bit keys.
//!
//! - Signing keys: `MD5(ExportedSessionKey ‖ magic)`.
//! - Sealing keys: `MD5(ExportedSessionKey ‖ magic)`, each driving one RC4
//!   keystream that runs on across messages.
//! - Message signature: `Version(1) ‖ RC4(HMAC_MD5(SignKey, seq ‖ plaintext)[..8]) ‖ SeqNum`.
//! - SEAL: RC4 the plaintext, then RC4 the 8 checksum bytes on the same stream.
//!
//! A direction's stream is held as its key and the number of keystream bytes
//! already used; each message takes the next bytes of the stream.

use vstd::prelude::*;
use vstd::string::{StrSliceExecFns, StringSliceAdditionalSpecFns};
use super::crypto::{hmac_md5, md5, rc4_stream, spec_hmac_md5, spec_md5, spec_rc4_keystream, xor, xor_at, lemma_xor_involutive};
use crate::wire::{bytes_eq, le32, put_bytes, put_u32_le, put_u8, read_u32_le, slice_range, to_array8};
use crate::{is_protocol, is_short, Error, Result};

verus! {

/// Magic constant of the client-to-server signing key.
pub const CLIENT_SIGN_MAGIC: &'static str = "session key to client-to-server signing key magic constant";
/// Magic constant of the server-to-client signing key.
pub const SERVER_SIGN_MAGIC: &'static str = "session key to server-to-client signing key magic constant";
/// Magic constant of the client-to-server sealing key.
pub const CLIENT_SEAL_MAGIC: &'static str = "session key to client-to-server sealing key magic constant";
/// Magic constant of the server-to-client sealing key.
pub const SERVER_SEAL_MAGIC: &'static str = "session key to server-to-client sealing key magic constant";

/// Which side of the CredSSP exchange a context represents.
#[derive(Clone, Copy, Debug, PartialEq, Eq, Structural)]
pub enum Role {
    Client,
    Server,
}

/// The NUL-terminated bytes of a magic constant.
pub open spec fn magic(s: &str) -> Seq<u8> {
    s.spec_bytes() + seq![0u8]
}

/// `MD5(exported ‖ magic)`.
pub open spec fn spec_derive_key(exported: Seq<u8>, m: &str) -> Seq<u8> {
    spec_md5(exported + magic(m))
}

fn derive_key(exported: &[u8; 16], m: &str) -> (r: [u8; 16])
    ensures
        r@ == spec_derive_key(exported@, m),
{
    let mut data: Vec<u8> = Vec::new();
    put_bytes(&mut data, exported);
    let bytes = m.as_bytes_vec();
    put_bytes(&mut data, bytes.as_slice());
    put_u8(&mut data, 0);
    proof {
        assert(data@ =~= exported@ + magic(m));
    }
    md5(data.as_slice())
}

/// One direction of a context: its signing key, its sealing key, how many
/// keystream bytes it has used, and its sequence number.
pub struct Direction {
    pub sign_key: Seq<u8>,
    pub seal_key: Seq<u8>,
    pub pos: nat,
    pub seq: u32,
}

/// The sequence number after `s`, wrapping at 2^32.
pub open spec fn next_seq(s: u32) -> u32 {
    if s == u32::MAX { 0 } else { (s + 1) as u32 }
}

/// The keystream bytes that a message of `n` bytes and its checksum use.
pub open spec fn stream(d: Direction, n: nat) -> Seq<u8> {
    spec_rc4_keystream(d.seal_key, d.pos + n + 8)
}

/// The `n` bytes of `s` from `from` on.
pub open spec fn window(s: Seq<u8>, from: int, n: nat) -> Seq<u8> {
    Seq::new(n, |i: int| s[from + i])
}

/// The message `plain` encrypted on direction `d`.
pub open spec fn spec_encrypt(d: Direction, plain: Seq<u8>) -> Seq<u8> {
    xor(plain, window(stream(d, plain.len()), d.pos as int, plain.len()))
}

/// The encrypted checksum of `plain` on direction `d`: the first 8 bytes of
/// `HMAC_MD5(SignKey, seq ‖ plain)` under the 8 keystream bytes after the message.
pub open spec fn spec_checksum(d: Direction, plain: Seq<u8>) -> Seq<u8> {
    let n = plain.len();
    xor(
        window(spec_hmac_md5(d.sign_key, le32(d.seq) + plain), 0, 8),
        window(stream(d, n), d.pos + n as int, 8),
    )
}

/// Direction `d` after it has handled a message of `n` bytes successfully.
pub open spec fn advanced(d: Direction, n: nat) -> Direction {
    Direction { pos: d.pos + n + 8, seq: next_seq(d.seq), ..d }
}

/// Direction `d` after a message of `n` bytes whose signature did not match:
/// the keystream is used, the sequence number stays.
pub open spec fn advanced_stream(d: Direction, n: nat) -> Direction {
    Direction { pos: d.pos + n + 8, ..d }
}

/// A sealed message: signature (version 1, checksum, sequence number) followed
/// by the ciphertext.
pub open spec fn spec_seal(d: Direction, plain: Seq<u8>) -> Seq<u8> {
    le32(1) + spec_checksum(d, plain) + le32(d.seq) + spec_encrypt(d, plain)
}

/// The plaintext inside a sealed `blob` received on direction `d`.
pub open spec fn spec_opened(d: Direction, blob: Seq<u8>) -> Seq<u8> {
    let ct = blob.subrange(16, blob.len() as int);
    xor(ct, window(stream(d, ct.len()), d.pos as int, ct.len()))
}

/// Whether the signature of `blob` matches the checksum of what it opens to.
pub open spec fn spec_signature_ok(d: Direction, blob: Seq<u8>) -> bool {
    blob.subrange(4, 12) == spec_checksum(d, spec_opened(d, blob))
}

/// The outbound and inbound directions of a context for `role`.
pub open spec fn spec_directions(role: Role, exported: Seq<u8>) -> (Direction, Direction) {
    let c = Direction {
        sign_key: spec_derive_key(exported, CLIENT_SIGN_MAGIC),
        seal_key: spec_derive_key(exported, CLIENT_SEAL_MAGIC),
        pos: 0,
        seq: 0,
    };
    let s = Direction {
        sign_key: spec_derive_key(exported, SERVER_SIGN_MAGIC),
        seal_key: spec_derive_key(exported, SERVER_SEAL_MAGIC),
        pos: 0,
        seq: 0,
    };
    match role {
        Role::Client => (c, s),
        Role::Server => (s, c),
    }
}

/// An NTLM confidentiality context: signs and seals outbound, verifies and
/// opens inbound.
pub struct SecurityContext {
    own_signing: [u8; 16],
    peer_signing: [u8; 16],
    own_seal_key: [u8; 16],
    peer_seal_key: [u8; 16],
    own_pos: usize,
    peer_pos: usize,
    send_seq: u32,
    recv_seq: u32,
}

impl SecurityContext {
    /// The outbound direction.
    pub closed spec fn own(&self) -> Direction {
        Direction { sign_key: self.own_signing@, seal_key: self.own_seal_key@, pos: self.own_pos as nat, seq: self.send_seq }
    }

    /// The inbound direction.
    pub closed spec fn peer(&self) -> Direction {
        Direction { sign_key: self.peer_signing@, seal_key: self.peer_seal_key@, pos: self.peer_pos as nat, seq: self.recv_seq }
    }

    /// Derive all four keys from the exported session key for the given role.
    pub fn new(role: Role, exported_session_key: &[u8; 16]) -> (r: SecurityContext)
        ensures
            (r.own(), r.peer()) == spec_directions(role, exported_session_key@),
    {
        let client_sign = derive_key(exported_session_key, CLIENT_SIGN_MAGIC);
        let server_sign = derive_key(exported_session_key, SERVER_SIGN_MAGIC);
        let client_seal = derive_key(exported_session_key, CLIENT_SEAL_MAGIC);
        let server_seal = derive_key(exported_session_key, SERVER_SEAL_MAGIC);
        match role {
            Role::Client => SecurityContext {
                own_signing: client_sign,
                peer_signing: server_sign,
                own_seal_key: client_seal,
                peer_seal_key: server_seal,
                own_pos: 0,
                peer_pos: 0,
                send_seq: 0,
                recv_seq: 0,
            },
            Role::Server => SecurityContext {
                own_signing: server_sign,
                peer_signing: client_sign,
                own_seal_key: server_seal,
                peer_seal_key: client_seal,
                own_pos: 0,
                peer_pos: 0,
                send_seq: 0,
                recv_seq: 0,
            },
        }
    }

    /// The encrypted checksum of `plaintext` at `seq`, from keystream bytes
    /// `ks[at..at + 8]`.
    fn checksum(signing: &[u8; 16], seq: u32, plaintext: &[u8], ks: &[u8], at: usize) -> (r: [u8; 8])
        requires
            at + 8 <= ks.len(),
        ensures
            r@ == xor(window(spec_hmac_md5(signing@, le32(seq) + plaintext@), 0, 8), window(ks@, at as int, 8)),
    {
        let mut input: Vec<u8> = Vec::new();
        put_u32_le(&mut input, seq);
        put_bytes(&mut input, plaintext);
        let full = hmac_md5(signing, input.as_slice());
        let cs = xor_at(slice_range(&full, 0, 8), ks, at);
        proof {
            assert(full@.subrange(0, 8) =~= window(full@, 0, 8));
            assert(ks@.subrange(at as int, at + 8) =~= window(ks@, at as int, 8));
        }
        to_array8(cs.as_slice())
    }

    /// SEAL a message: the 16-byte signature followed by the ciphertext.
    pub fn seal(&mut self, message: &[u8]) -> (r: Vec<u8>)
        requires
            old(self).own().pos + message.len() + 8 <= usize::MAX,
        ensures
            r@ == spec_seal(old(self).own(), message@),
            final(self).own() == advanced(old(self).own(), message.len() as nat),
            final(self).peer() == old(self).peer(),
    {
        let n = message.len();
        let ks = rc4_stream(&self.own_seal_key, self.own_pos + n + 8);
        let ciphertext = xor_at(message, ks.as_slice(), self.own_pos);
        let cs = Self::checksum(&self.own_signing, self.send_seq, message, ks.as_slice(), self.own_pos + n);
        let mut out: Vec<u8> = Vec::new();
        put_u32_le(&mut out, 1);
        put_bytes(&mut out, &cs);
        put_u32_le(&mut out, self.send_seq);
        put_bytes(&mut out, ciphertext.as_slice());
        self.own_pos = self.own_pos + n + 8;
        self.send_seq = if self.send_seq == u32::MAX { 0 } else { self.send_seq + 1 };
        out
    }

    /// Open a sealed message from the peer (signature ‖ ciphertext), verifying
    /// its signature. The keystream advances whether or not the signature
    /// matches; the sequence number only when it does.
    pub fn unseal(&mut self, blob: &[u8]) -> (r: Result<Vec<u8>>)
        requires
            old(self).peer().pos + blob.len() + 8 <= usize::MAX,
        ensures
            blob.len() < 16 ==> is_short(r, 16, blob.len() as int) && *final(self) == *old(self),
            blob.len() >= 16 ==> {
                &&& final(self).own() == old(self).own()
                &&& (r is Ok <==> spec_signature_ok(old(self).peer(), blob@))
                &&& r matches Ok(v) ==> v@ == spec_opened(old(self).peer(), blob@)
                    && final(self).peer() == advanced(old(self).peer(), (blob.len() - 16) as nat)
                &&& r is Err ==> is_protocol(r)
                    && final(self).peer() == advanced_stream(old(self).peer(), (blob.len() - 16) as nat)
            },
    {
        if blob.len() < 16 {
            return Err(Error::Short { need: 16, have: blob.len() });
        }
        let signature = slice_range(blob, 4, 12);
        let ciphertext = slice_range(blob, 16, blob.len());
        let n = ciphertext.len();
        let ks = rc4_stream(&self.peer_seal_key, self.peer_pos + n + 8);
        let plaintext = xor_at(ciphertext, ks.as_slice(), self.peer_pos);
        let expected = Self::checksum(&self.peer_signing, self.recv_seq, plaintext.as_slice(), ks.as_slice(), self.peer_pos + n);
        proof {
            let d = old(self).peer();
            assert(ciphertext@ =~= blob@.subrange(16, blob@.len() as int));
            assert(ks@.subrange(d.pos as int, d.pos + n) =~= window(stream(d, n as nat), d.pos as int, n as nat));
            assert(plaintext@ == spec_opened(d, blob@));
            assert(expected@ == spec_checksum(d, plaintext@));
        }
        self.peer_pos = self.peer_pos + n + 8;
        if !bytes_eq(signature, &expected) {
            return Err(Error::Protocol("NTLM message signature mismatch"));
        }
        self.recv_seq = if self.recv_seq == u32::MAX { 0 } else { self.recv_seq + 1 };
        Ok(plaintext)
    }
}

/// A client context and a server context made from the same exported session
/// key face each other: each one's outbound direction is the other's inbound.
pub proof fn lemma_roles_pair(exported: Seq<u8>)
    ensures
        spec_directions(Role::Client, exported).0 == spec_directions(Role::Server, exported).1,
        spec_directions(Role::Server, exported).0 == spec_directions(Role::Client, exported).1,
{
}

/// What one side seals, the other side, in the same state, opens: the
/// signature matches, the plaintext comes back, and both directions advance
/// alike.
pub proof fn lemma_unseal_seal(d: Direction, plain: Seq<u8>)
    ensures
        spec_seal(d, plain).len() == 16 + plain.len(),
        spec_signature_ok(d, spec_seal(d, plain)),
        spec_opened(d, spec_seal(d, plain)) == plain,
        (spec_seal(d, plain).len() - 16) as nat == plain.len(),
{
    let blob = spec_seal(d, plain);
    let n = plain.len();
    let ks = stream(d, n);
    let enc = spec_encrypt(d, plain);
    assert(blob.subrange(16, blob.len() as int) =~= enc);
    let sub = window(ks, d.pos as int, n);
    lemma_xor_involutive(plain, sub);
    assert(spec_opened(d, blob) == plain);
    assert(blob.subrange(4, 12) =~= spec_checksum(d, plain));
}

/// The blobs a direction in state `d` seals `msgs` into, one after the other,
/// and the state it ends in.
pub open spec fn spec_seal_all(d: Direction, msgs: Seq<Seq<u8>>) -> (Seq<Seq<u8>>, Direction)
    decreases msgs.len(),
{
    if msgs.len() == 0 {
        (Seq::empty(), d)
    } else {
        let (rest, e) = spec_seal_all(advanced(d, msgs[0].len()), msgs.drop_first());
        (seq![spec_seal(d, msgs[0])] + rest, e)
    }
}

/// The messages a direction in state `d` opens from `blobs`, one after the
/// other, and the state it ends in; none when a blob is short or its
/// signature does not match.
pub open spec fn spec_open_all(d: Direction, blobs: Seq<Seq<u8>>) -> Option<(Seq<Seq<u8>>, Direction)>
    decreases blobs.len(),
{
    if blobs.len() == 0 {
        Some((Seq::empty(), d))
    } else if blobs[0].len() < 16 || !spec_signature_ok(d, blobs[0]) {
        None
    } else {
        match spec_open_all(advanced(d, (blobs[0].len() - 16) as nat), blobs.drop_first()) {
            None => None,
            Some((rest, e)) => Some((seq![spec_opened(d, blobs[0])] + rest, e)),
        }
    }
}

/// Any number of messages sealed in turn by one side are opened in turn by
/// the other side starting in the same state: every signature matches, the
/// messages come back in order, and both sides end in the same state.
pub proof fn lemma_open_seal_all(d: Direction, msgs: Seq<Seq<u8>>)
    ensures
        spec_open_all(d, spec_seal_all(d, msgs).0) == Some((msgs, spec_seal_all(d, msgs).1)),
    decreases msgs.len(),
{
    if msgs.len() > 0 {
        let m = msgs[0];
        lemma_unseal_seal(d, m);
        let d1 = advanced(d, m.len());
        lemma_open_seal_all(d1, msgs.drop_first());
        let (rest, e) = spec_seal_all(d1, msgs.drop_first());
        let blobs = seq![spec_seal(d, m)] + rest;
        assert(blobs[0] == spec_seal(d, m));
        assert(blobs.drop_first() =~= rest);
        assert(seq![m] + msgs.drop_first() =~= msgs);
    } else {
        assert(msgs =~= Seq::<Seq<u8>>::empty());
    }
}

} // verus!
