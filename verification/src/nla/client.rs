//! The CredSSP client: it emits the NTLM NEGOTIATE, consumes the server
//! CHALLENGE to produce the AUTHENTICATE and the sealed pubKeyAuth, verifies
//! the server's pubKeyAuth reply, and finally seals the credentials as authInfo.
//!
//! The three random inputs (client challenge, nonce, exported session key) come
//! from the operating system's generator in production; [`Entropy`] can be
//! fixed so that the flow can be checked against known vectors.

use vstd::prelude::*;
use super::credssp::{
    client_server_binding_hash, server_client_binding_hash, spec_binding_hash, spec_decode_ts, spec_encode_ts,
    spec_password_creds, spec_ts_credentials, ts_credentials_password, lemma_decode_ts_bounded, PasswordCreds, TsRequest, TsView, CLIENT_SERVER_MAGIC, SERVER_CLIENT_MAGIC,
};
use super::crypto::{ntowf_v2, os_random, spec_hmac_md5, spec_ntowf_v2, spec_rc4_keystream, unicode, xor};
use super::ntlm::{
    auth_fields, av_id, check_signature, parse_av_pairs, spec_av_pairs, spec_decode_challenge, spec_encode_authenticate,
    spec_encode_negotiate, challenge_header_complete, payload_len, AuthenticateFields, AuthenticateMessage,
    ChallengeMessage, NegotiateFlags, NegotiateMessage,
};
use super::ntlmv2::{
    encrypted_random_session_key, lm_challenge_response, nt_challenge_response, nt_proof_str, session_base_key,
    spec_temp, temp,
};
use super::sspi::{advanced, advanced_stream, lemma_roles_pair, lemma_unseal_seal, spec_directions, spec_opened, spec_seal, spec_signature_ok, Direction, Role, SecurityContext};
use crate::text::spec_unicode;
use crate::wire::{bytes_eq, to_array16, to_array32, to_array8, to_vec, views, zeros};
use crate::{is_protocol, is_rejected, Error, Result};

verus! {

/// CredSSP version this client speaks (6: the clientNonce binding hash).
pub const CREDSSP_VERSION: u32 = 6;

/// The NTLM VERSION field sent: major 10, build 19041, NTLMSSP_REVISION_W2K3.
pub const NTLM_VERSION: [u8; 8] = [10, 0, 0x4A, 0x4A, 0, 0, 0, 0x0F];

/// [`NTLM_VERSION`] as a sequence.
pub open spec fn ntlm_version() -> Seq<u8> {
    seq![10u8, 0, 0x4A, 0x4A, 0, 0, 0, 0x0F]
}

/// The NegotiateFlags this client sends: UNICODE, NTLM, extended session
/// security, ALWAYS_SIGN, SIGN, SEAL, KEY_EXCH, TARGET_INFO, VERSION, 128 and 56.
pub open spec fn spec_client_flags() -> u32 {
    0xE288_8231
}

/// The three random values the NTLMv2/CredSSP flow needs.
#[derive(Clone, Copy, Debug)]
pub struct Entropy {
    pub client_challenge: [u8; 8],
    pub nonce: [u8; 32],
    pub exported_session_key: [u8; 16],
}

impl Entropy {
    /// Draw fresh entropy from the operating system's generator, or a
    /// Protocol error when the generator fails.
    pub fn random() -> (r: Result<Entropy>)
        ensures
            r is Err ==> is_protocol(r),
    {
        let cc = match os_random(8) {
            Some(v) => v,
            None => return Err(Error::Protocol("operating system random generator failed")),
        };
        let nonce = match os_random(32) {
            Some(v) => v,
            None => return Err(Error::Protocol("operating system random generator failed")),
        };
        let esk = match os_random(16) {
            Some(v) => v,
            None => return Err(Error::Protocol("operating system random generator failed")),
        };
        Ok(Entropy {
            client_challenge: to_array8(cc.as_slice()),
            nonce: to_array32(nonce.as_slice()),
            exported_session_key: to_array16(esk.as_slice()),
        })
    }
}

fn client_flags() -> (r: NegotiateFlags)
    ensures
        r.0 == spec_client_flags(),
{
    let f = NegotiateFlags(0)
        .with(NegotiateFlags::UNICODE)
        .with(NegotiateFlags::NTLM)
        .with(NegotiateFlags::EXTENDED_SESSIONSECURITY)
        .with(NegotiateFlags::ALWAYS_SIGN)
        .with(NegotiateFlags::SIGN)
        .with(NegotiateFlags::SEAL)
        .with(NegotiateFlags::KEY_EXCH)
        .with(NegotiateFlags::TARGET_INFO)
        .with(NegotiateFlags::VERSION)
        .with(NegotiateFlags::NEGOTIATE_128)
        .with(NegotiateFlags::NEGOTIATE_56);
    assert(0u32 | 0x1 | 0x200 | 0x8_0000 | 0x8000 | 0x10 | 0x20 | 0x4000_0000 | 0x80_0000 | 0x200_0000 | 0x2000_0000
        | 0x8000_0000 == 0xE288_8231u32) by (bit_vector);
    f
}

/// The MsvAvTimestamp value among `pairs`: the first TIMESTAMP pair whose
/// value is 8 bytes long.
pub open spec fn spec_timestamp(pairs: Seq<(u16, Seq<u8>)>) -> Option<Seq<u8>>
    decreases pairs.len(),
{
    if pairs.len() == 0 {
        None
    } else if pairs[0].0 == av_id::TIMESTAMP && pairs[0].1.len() == 8 {
        Some(pairs[0].1)
    } else {
        spec_timestamp(pairs.drop_first())
    }
}

/// Pull the MsvAvTimestamp (8-byte FILETIME) out of a target-info blob, with
/// whether it was there; all zeros when it was not.
pub fn extract_timestamp(target_info: &[u8]) -> (r: ([u8; 8], bool))
    ensures
        r.1 == spec_timestamp(spec_av_pairs(target_info@)) is Some,
        r.1 ==> spec_timestamp(spec_av_pairs(target_info@)) == Some(r.0@),
        !r.1 ==> r.0@ == zeros(8),
{
    let pairs = parse_av_pairs(target_info);
    let ghost all = spec_av_pairs(target_info@);
    let mut i: usize = 0;
    proof {
        assert(all.subrange(0, all.len() as int) =~= all);
    }
    while i < pairs.len()
        invariant
            i <= pairs.len(),
            all == spec_av_pairs(target_info@),
            all.len() == pairs.len(),
            forall|j: int| 0 <= j < pairs.len() ==> (#[trigger] all[j]).0 == pairs@[j].0 && all[j].1 == pairs@[j].1@,
            spec_timestamp(all) == spec_timestamp(all.subrange(i as int, all.len() as int)),
        decreases pairs.len() - i,
    {
        let ghost rest = all.subrange(i as int, all.len() as int);
        assert(rest[0] == all[i as int]);
        assert(all[i as int].1 == pairs@[i as int].1@);
        if pairs[i].0 == av_id::TIMESTAMP && pairs[i].1.len() == 8 {
            let ts = to_array8(pairs[i].1.as_slice());
            assert(rest.len() > 0);
            assert(spec_timestamp(rest) == Some(rest[0].1));
            assert(ts@ == rest[0].1);
            return (ts, true);
        }
        assert(rest.drop_first() =~= all.subrange(i + 1, all.len() as int));
        i = i + 1;
    }
    proof {
        assert(all.subrange(i as int, all.len() as int) =~= Seq::<(u16, Seq<u8>)>::empty());
    }
    let z = [0u8; 8];
    assert(z@ =~= zeros(8));
    (z, false)
}

/// The credentials, entropy and server key a client works with.
pub struct ClientInputs {
    pub domain: Seq<char>,
    pub username: Seq<char>,
    pub password: Seq<char>,
    pub server_public_key: Seq<u8>,
    pub client_challenge: Seq<u8>,
    pub nonce: Seq<u8>,
    pub exported_session_key: Seq<u8>,
}

/// The AUTHENTICATE_MESSAGE fields the client answers a CHALLENGE with, before
/// its MIC is computed (the MIC is zero).
pub open spec fn spec_authenticate_unsigned(c: ClientInputs, server_challenge: Seq<u8>, target_info: Seq<u8>) -> AuthenticateFields {
    let ntowf = spec_ntowf_v2(c.password, c.username, c.domain);
    let ts = spec_timestamp(spec_av_pairs(target_info));
    let time = match ts {
        Some(t) => t,
        None => zeros(8),
    };
    let t = spec_temp(time, c.client_challenge, target_info);
    let proof = spec_hmac_md5(ntowf, server_challenge + t);
    let lm = if ts is Some {
        zeros(24)
    } else {
        spec_hmac_md5(ntowf, server_challenge + c.client_challenge) + c.client_challenge
    };
    let sbk = spec_hmac_md5(ntowf, proof);
    AuthenticateFields {
        flags: spec_client_flags(),
        domain: spec_unicode(c.domain),
        user: spec_unicode(c.username),
        workstation: Seq::empty(),
        lm_response: lm,
        nt_response: proof + t,
        encrypted_session_key: xor(c.exported_session_key, spec_rc4_keystream(sbk, 16)),
        version: ntlm_version(),
        mic: zeros(16),
    }
}

/// The AUTHENTICATE_MESSAGE fields with the MIC over NEGOTIATE ‖ CHALLENGE ‖
/// AUTHENTICATE-with-zero-MIC.
pub open spec fn spec_authenticate(
    c: ClientInputs,
    negotiate: Seq<u8>,
    challenge: Seq<u8>,
    server_challenge: Seq<u8>,
    target_info: Seq<u8>,
) -> AuthenticateFields {
    let f = spec_authenticate_unsigned(c, server_challenge, target_info);
    AuthenticateFields {
        mic: spec_hmac_md5(c.exported_session_key, negotiate + challenge + spec_encode_authenticate(f)),
        ..f
    }
}

/// A TSRequest of this client's version carrying only the given fields.
pub open spec fn client_request(
    nego_tokens: Seq<Seq<u8>>,
    auth_info: Option<Seq<u8>>,
    pub_key_auth: Option<Seq<u8>>,
    client_nonce: Option<Seq<u8>>,
) -> TsView {
    TsView { version: CREDSSP_VERSION, nego_tokens, auth_info, pub_key_auth, error_code: None, client_nonce }
}

/// The NEGOTIATE_MESSAGE this client sends.
pub open spec fn spec_negotiate_message() -> Seq<u8> {
    spec_encode_negotiate(spec_client_flags(), Some(ntlm_version()))
}

/// Drives the CredSSP/NTLMv2 exchange for one connection.
pub struct CredSspClient {
    domain: String,
    username: String,
    password: String,
    /// The server's TLS-certificate SubjectPublicKey bytes (bound into pubKeyAuth).
    server_public_key: Vec<u8>,
    entropy: Entropy,
    flags: NegotiateFlags,
    negotiate_bytes: Vec<u8>,
    /// The confidentiality context, once the CHALLENGE has been answered.
    security: Option<SecurityContext>,
}

/// The two directions of an optional context.
pub open spec fn security_view(s: Option<SecurityContext>) -> Option<(Direction, Direction)> {
    match s {
        Some(c) => Some((c.own(), c.peer())),
        None => None,
    }
}

impl CredSspClient {
    /// The credentials, entropy and server key of this client.
    pub closed spec fn inputs(&self) -> ClientInputs {
        ClientInputs {
            domain: self.domain@,
            username: self.username@,
            password: self.password@,
            server_public_key: self.server_public_key@,
            client_challenge: self.entropy.client_challenge@,
            nonce: self.entropy.nonce@,
            exported_session_key: self.entropy.exported_session_key@,
        }
    }

    /// The NEGOTIATE_MESSAGE sent so far (empty before [`start`](Self::start)).
    pub closed spec fn negotiate_sent(&self) -> Seq<u8> {
        self.negotiate_bytes@
    }

    /// The directions of the confidentiality context, once there is one.
    pub closed spec fn security_state(&self) -> Option<(Direction, Direction)> {
        security_view(self.security)
    }

    /// Whether the CHALLENGE has been answered and a confidentiality context exists.
    pub fn has_security_context(&self) -> (r: bool)
        ensures
            r == self.security_state() is Some,
    {
        self.security.is_some()
    }

    /// Whether the flags field holds this client's flags.
    pub closed spec fn flags_ok(&self) -> bool {
        self.flags.0 == spec_client_flags()
    }

    /// A client with fresh entropy from the operating system's generator; a
    /// Protocol error when the generator fails.
    pub fn new(domain: &str, username: &str, password: &str, server_public_key: Vec<u8>) -> (r: Result<CredSspClient>)
        ensures
            r is Err ==> is_protocol(r),
            r matches Ok(c) ==> {
                &&& c.inputs().domain == domain@
                &&& c.inputs().username == username@
                &&& c.inputs().password == password@
                &&& c.inputs().server_public_key == server_public_key@
                &&& c.negotiate_sent() == Seq::<u8>::empty()
                &&& c.security_state() is None
                &&& c.flags_ok()
            },
    {
        let entropy = Entropy::random()?;
        Ok(Self::with_entropy(domain, username, password, server_public_key, entropy))
    }

    /// A client with the given entropy.
    pub fn with_entropy(domain: &str, username: &str, password: &str, server_public_key: Vec<u8>, entropy: Entropy) -> (r: CredSspClient)
        ensures
            r.inputs() == (ClientInputs {
                domain: domain@,
                username: username@,
                password: password@,
                server_public_key: server_public_key@,
                client_challenge: entropy.client_challenge@,
                nonce: entropy.nonce@,
                exported_session_key: entropy.exported_session_key@,
            }),
            r.negotiate_sent() == Seq::<u8>::empty(),
            r.security_state() is None,
            r.flags_ok(),
    {
        CredSspClient {
            domain: domain.to_string(),
            username: username.to_string(),
            password: password.to_string(),
            server_public_key,
            entropy,
            flags: client_flags(),
            negotiate_bytes: Vec::new(),
            security: None,
        }
    }

    /// Whether the domain and user name are short enough for the AUTHENTICATE
    /// message's payload offsets: their UTF-16 bytes together at most
    /// 0x1000_0000, as [`CredSspClient::process_challenge`] needs.
    pub fn credentials_fit(&self) -> (r: bool)
        ensures
            r == (spec_unicode(self.inputs().domain).len() + spec_unicode(self.inputs().username).len()
                <= 0x1000_0000),
    {
        let d = unicode(self.domain.as_str());
        let u = unicode(self.username.as_str());
        d.len() <= 0x1000_0000 && u.len() <= 0x1000_0000 - d.len()
    }

    /// Step 1: the first TSRequest, carrying the NTLM NEGOTIATE message.
    pub fn start(&mut self) -> (r: Vec<u8>)
        requires
            old(self).flags_ok(),
        ensures
            r@ == spec_encode_ts(client_request(seq![spec_negotiate_message()], None, None, None)),
            final(self).negotiate_sent() == spec_negotiate_message(),
            final(self).inputs() == old(self).inputs(),
            final(self).security_state() == old(self).security_state(),
            final(self).flags_ok(),
    {
        let neg = NegotiateMessage { flags: self.flags, version: Some(NTLM_VERSION) };
        proof {
            assert(NTLM_VERSION@ =~= ntlm_version());
        }
        self.negotiate_bytes = neg.encode();
        let mut req = TsRequest::new(CREDSSP_VERSION);
        req.nego_tokens = vec![to_vec(self.negotiate_bytes.as_slice())];
        proof {
            assert(views(req.nego_tokens@) =~= seq![spec_negotiate_message()]);
        }
        req.encode()
    }

    /// Step 3: consume the server's TSRequest (with the NTLM CHALLENGE) and
    /// return the TSRequest carrying the NTLM AUTHENTICATE, the sealed
    /// pubKeyAuth and the client nonce.
    pub fn process_challenge(&mut self, server_ts_request: &[u8]) -> (r: Result<Vec<u8>>)
        requires
            old(self).flags_ok(),
            spec_unicode(old(self).inputs().domain).len() + spec_unicode(old(self).inputs().username).len() <= 0x1000_0000,
            spec_decode_ts(server_ts_request@) matches Some(v) ==> (v.nego_tokens.len() > 0
                ==> challenge_header_complete(v.nego_tokens[0])),
        ensures
            r is Ok <==> (spec_decode_ts(server_ts_request@) matches Some(v) && v.nego_tokens.len() > 0
                && spec_decode_challenge(v.nego_tokens[0]) is Some),
            spec_decode_ts(server_ts_request@) matches Some(v) ==> (v.nego_tokens.len() == 0 ==> is_protocol(r)),
            r is Err ==> *final(self) == *old(self),
            r matches Ok(out) ==> ({
                let v = spec_decode_ts(server_ts_request@).unwrap();
                let chal = v.nego_tokens[0];
                let (_, sc, _, ti) = spec_decode_challenge(chal).unwrap();
                let c = old(self).inputs();
                let dirs = spec_directions(Role::Client, c.exported_session_key);
                let hash = spec_binding_hash(CLIENT_SERVER_MAGIC, c.nonce, c.server_public_key);
                &&& out@ == spec_encode_ts(client_request(
                    seq![spec_encode_authenticate(spec_authenticate(c, old(self).negotiate_sent(), chal, sc, ti))],
                    None,
                    Some(spec_seal(dirs.0, hash)),
                    Some(c.nonce),
                ))
                &&& final(self).security_state() == Some((advanced(dirs.0, 32), dirs.1))
                &&& final(self).inputs() == c
                &&& final(self).negotiate_sent() == old(self).negotiate_sent()
                &&& final(self).flags_ok()
            }),
    {
        let server_req = TsRequest::decode(server_ts_request)?;
        if server_req.nego_tokens.len() == 0 {
            return Err(Error::Protocol("server TSRequest has no CHALLENGE token"));
        }
        let challenge_bytes = to_vec(server_req.nego_tokens[0].as_slice());
        proof {
            assert(views(server_req.nego_tokens@)[0] == challenge_bytes@);
        }
        let challenge = ChallengeMessage::decode(challenge_bytes.as_slice())?;
        let ghost c = self.inputs();

        let ntowf = ntowf_v2(self.password.as_str(), self.username.as_str(), self.domain.as_str());
        let (timestamp, has_timestamp) = extract_timestamp(challenge.target_info.as_slice());
        let t = temp(timestamp, self.entropy.client_challenge, challenge.target_info.as_slice());
        let proof = nt_proof_str(&ntowf, &challenge.server_challenge, t.as_slice());
        let nt_response = nt_challenge_response(&proof, t.as_slice());
        let lm_response = if has_timestamp {
            let z: Vec<u8> = vec![0u8; 24];
            proof {
                assert(z@ =~= zeros(24));
            }
            z
        } else {
            let lm = lm_challenge_response(&ntowf, &challenge.server_challenge, &self.entropy.client_challenge);
            to_vec(&lm)
        };
        let sbk = session_base_key(&ntowf, &proof);
        let exported = self.entropy.exported_session_key;
        let key = encrypted_random_session_key(&sbk, &exported);
        let encrypted_session_key = to_vec(&key);

        let mut auth = AuthenticateMessage {
            flags: self.flags,
            domain: unicode(self.domain.as_str()),
            user: unicode(self.username.as_str()),
            workstation: Vec::new(),
            lm_response,
            nt_response,
            encrypted_session_key,
            version: NTLM_VERSION,
            mic: [0u8; 16],
        };
        proof {
            assert(NTLM_VERSION@ =~= ntlm_version());
            assert(auth.mic@ =~= zeros(16));
            assert(auth.workstation@ =~= Seq::<u8>::empty());
            assert(auth_fields(auth) == spec_authenticate_unsigned(c, challenge.server_challenge@, challenge.target_info@));
        }
        auth.compute_mic(&exported, self.negotiate_bytes.as_slice(), challenge_bytes.as_slice());
        let authenticate_bytes = auth.encode();

        let mut ctx = SecurityContext::new(Role::Client, &exported);
        let hash = client_server_binding_hash(&self.entropy.nonce, self.server_public_key.as_slice());
        let pub_key_auth = ctx.seal(&hash);
        self.security = Some(ctx);

        let mut req = TsRequest::new(CREDSSP_VERSION);
        req.nego_tokens = vec![authenticate_bytes];
        req.pub_key_auth = Some(pub_key_auth);
        req.client_nonce = Some(self.entropy.nonce);
        proof {
            assert(views(req.nego_tokens@) =~= seq![spec_encode_authenticate(spec_authenticate(
                c, self.negotiate_bytes@, challenge_bytes@, challenge.server_challenge@, challenge.target_info@))]);
        }
        Ok(req.encode())
    }

    /// Step 5: verify the server's pubKeyAuth reply and return the TSRequest
    /// carrying the sealed credentials (authInfo).
    pub fn process_pubkey(&mut self, server_ts_request: &[u8]) -> (r: Result<Vec<u8>>)
        requires
            old(self).security_state() matches Some((own, peer)) ==> peer.pos + server_ts_request.len() + 8 <= usize::MAX
                && own.pos + spec_ts_credentials(spec_password_creds(
                    old(self).inputs().domain, old(self).inputs().username, old(self).inputs().password)).len() + 8
                <= usize::MAX,
        ensures
            ({
                let c = old(self).inputs();
                let creds = spec_ts_credentials(spec_password_creds(c.domain, c.username, c.password));
                match spec_decode_ts(server_ts_request@) {
                    None => r is Err && *final(self) == *old(self),
                    Some(v) => if v.error_code matches Some(code) && code != 0 {
                        is_rejected(r) && *final(self) == *old(self)
                    } else if v.pub_key_auth is None || old(self).security_state() is None {
                        is_protocol(r) && *final(self) == *old(self)
                    } else {
                        let sealed = v.pub_key_auth.unwrap();
                        let (own, peer) = old(self).security_state().unwrap();
                        let expected = spec_binding_hash(SERVER_CLIENT_MAGIC, c.nonce, c.server_public_key);
                        &&& final(self).inputs() == c
                        &&& final(self).negotiate_sent() == old(self).negotiate_sent()
                        &&& final(self).flags_ok() == old(self).flags_ok()
                        &&& if sealed.len() < 16 {
                            r is Err && *final(self) == *old(self)
                        } else if !spec_signature_ok(peer, sealed) {
                            is_protocol(r) && final(self).security_state() == Some(
                                (own, advanced_stream(peer, (sealed.len() - 16) as nat)),
                            )
                        } else if spec_opened(peer, sealed) != expected {
                            is_protocol(r) && final(self).security_state() == Some(
                                (own, advanced(peer, (sealed.len() - 16) as nat)),
                            )
                        } else {
                            &&& r matches Ok(out) && out@ == spec_encode_ts(
                                client_request(Seq::empty(), Some(spec_seal(own, creds)), None, None),
                            )
                            &&& final(self).security_state() == Some(
                                (advanced(own, creds.len()), advanced(peer, (sealed.len() - 16) as nat)),
                            )
                        }
                    },
                }
            }),
    {
        let server_req = TsRequest::decode(server_ts_request)?;
        proof {
            lemma_decode_ts_bounded(server_ts_request@);
        }
        if let Some(code) = server_req.error_code {
            if code != 0 {
                return Err(Error::NegotiationFailure("server returned CredSSP errorCode"));
            }
        }
        let sealed = match server_req.pub_key_auth {
            Some(s) => s,
            None => {
                return Err(Error::Protocol("server TSRequest has no pubKeyAuth"));
            },
        };
        let mut ctx = match self.security.take() {
            Some(c) => c,
            None => {
                return Err(Error::Protocol("no security context"));
            },
        };
        let ghost c = self.inputs();
        let unsealed = ctx.unseal(sealed.as_slice());
        let server_hash = match unsealed {
            Ok(h) => h,
            Err(e) => {
                self.security = Some(ctx);
                return Err(e);
            },
        };
        let expected = server_client_binding_hash(&self.entropy.nonce, self.server_public_key.as_slice());
        if !bytes_eq(server_hash.as_slice(), &expected) {
            self.security = Some(ctx);
            return Err(Error::Protocol("server pubKeyAuth binding hash mismatch"));
        }
        let creds = PasswordCreds {
            domain: self.domain.clone(),
            username: self.username.clone(),
            password: self.password.clone(),
        };
        let creds_der = ts_credentials_password(&creds);
        let auth_info = ctx.seal(creds_der.as_slice());
        self.security = Some(ctx);
        let mut req = TsRequest::new(CREDSSP_VERSION);
        req.auth_info = Some(auth_info);
        Ok(req.encode())
    }
}

/// Whether `server_ts_request` is a TSRequest whose first token is an NTLM
/// CHALLENGE_MESSAGE too short for the fields its decoder reads: what
/// [`CredSspClient::process_challenge`] cannot be given.
pub fn challenge_incomplete(server_ts_request: &[u8]) -> (r: bool)
    ensures
        r == !(spec_decode_ts(server_ts_request@) matches Some(v) ==> (v.nego_tokens.len() > 0
            ==> challenge_header_complete(v.nego_tokens[0]))),
{
    match TsRequest::decode(server_ts_request) {
        Err(_) => false,
        Ok(req) => {
            if req.nego_tokens.len() == 0 {
                return false;
            }
            let tok = &req.nego_tokens[0];
            assert(req@.nego_tokens[0] == tok@);
            let n = tok.len();
            check_signature(tok.as_slice(), 2).is_ok() && !(n >= 24 && (n < 40 || n >= 48))
        },
    }
}

/// The pubKeyAuth exchange closes: the client-to-server binding hash the
/// client seals first opens, with a matching signature, on a server context
/// made from the same exported session key; and the server-to-client hash the
/// server then seals opens on the client's context.
pub proof fn lemma_pub_key_auth_exchange(c: ClientInputs)
    ensures
        ({
            let client = spec_directions(Role::Client, c.exported_session_key);
            let server = spec_directions(Role::Server, c.exported_session_key);
            let to_server = spec_seal(client.0, spec_binding_hash(CLIENT_SERVER_MAGIC, c.nonce, c.server_public_key));
            let to_client = spec_seal(server.0, spec_binding_hash(SERVER_CLIENT_MAGIC, c.nonce, c.server_public_key));
            &&& spec_signature_ok(server.1, to_server)
            &&& spec_opened(server.1, to_server) == spec_binding_hash(CLIENT_SERVER_MAGIC, c.nonce, c.server_public_key)
            &&& spec_signature_ok(client.1, to_client)
            &&& spec_opened(client.1, to_client) == spec_binding_hash(SERVER_CLIENT_MAGIC, c.nonce, c.server_public_key)
        }),
{
    let client = spec_directions(Role::Client, c.exported_session_key);
    lemma_roles_pair(c.exported_session_key);
    lemma_unseal_seal(client.0, spec_binding_hash(CLIENT_SERVER_MAGIC, c.nonce, c.server_public_key));
    lemma_unseal_seal(client.1, spec_binding_hash(SERVER_CLIENT_MAGIC, c.nonce, c.server_public_key));
}

} // verus!
