use bytes::{BufMut, BytesMut};
use ferropipe_rdp::nla::client::{challenge_incomplete, extract_timestamp, CredSspClient, Entropy, CREDSSP_VERSION};
use ferropipe_rdp::nla::credssp::{
    client_server_binding_hash, server_client_binding_hash, ts_credentials_password, PasswordCreds, TsRequest,
};
use ferropipe_rdp::nla::crypto::{hmac_md5, md4, md5, ntowf_v2, rc4, unicode};
use ferropipe_rdp::nla::der::{
    context, context_tag, encode_len, integer, octet_string, sequence, Reader, TAG_OCTET_STRING, TAG_SEQUENCE,
};
use ferropipe_rdp::nla::ntlm::{
    av_id, parse_av_pairs, AuthenticateMessage, ChallengeMessage, NegotiateFlags, NegotiateMessage, SIGNATURE,
};
use ferropipe_rdp::nla::ntlmv2::{
    encrypted_random_session_key, lm_challenge_response, nt_challenge_response, nt_proof_str, session_base_key, temp,
};
use ferropipe_rdp::nla::sspi::{Role, SecurityContext};
use ferropipe_rdp::Error;
use rc4::{KeyInit, Rc4, StreamCipher};

fn hex(s: &str) -> Vec<u8> {
    (0..s.len()).step_by(2).map(|i| u8::from_str_radix(&s[i..i + 2], 16).unwrap()).collect()
}

#[test]
fn integer_encodings() {
    assert_eq!(integer(6), vec![0x02, 0x01, 0x06]);
    assert_eq!(integer(0), vec![0x02, 0x01, 0x00]);
    assert_eq!(integer(128), vec![0x02, 0x02, 0x00, 0x80]);
    assert_eq!(integer(0x1234), vec![0x02, 0x02, 0x12, 0x34]);
}

#[test]
fn length_encodings() {
    assert_eq!(encode_len(10), vec![10]);
    assert_eq!(encode_len(127), vec![127]);
    assert_eq!(encode_len(128), vec![0x81, 128]);
    assert_eq!(encode_len(300), vec![0x82, 0x01, 0x2c]);
}

#[test]
fn octet_string_and_context_wrap() {
    assert_eq!(octet_string(&[1, 2, 3]), vec![0x04, 0x03, 1, 2, 3]);
    assert_eq!(context(0, &integer(2)), vec![0xA0, 0x03, 0x02, 0x01, 0x02]);
}

#[test]
fn nested_sequence_roundtrips() {
    let body = [context(0, &integer(5)), context(1, &octet_string(b"hi"))].concat();
    let seq = sequence(&body);

    let mut r = Reader::new(&seq);
    let inner = r.expect(TAG_SEQUENCE).unwrap();
    let mut ri = Reader::new(inner);
    let v0 = ri.expect(context_tag(0)).unwrap();
    assert_eq!(Reader::new(v0).read_integer().unwrap(), 5);
    let v1 = ri.expect(context_tag(1)).unwrap();
    assert_eq!(Reader::new(v1).expect(TAG_OCTET_STRING).unwrap(), b"hi");
}

#[test]
fn long_form_length_roundtrips() {
    let big = vec![0xABu8; 500];
    let enc = octet_string(&big);
    let mut r = Reader::new(&enc);
    assert_eq!(r.expect(TAG_OCTET_STRING).unwrap(), &big[..]);
}

#[test]
fn der_reader_rejects_a_truncated_value() {
    let enc = octet_string(b"hello");
    let mut r = Reader::new(&enc[..4]);
    assert!(r.expect(TAG_OCTET_STRING).is_err());
}

#[test]
fn md4_of_empty_matches_known_vector() {
    assert_eq!(
        md4(b""),
        [0x31, 0xd6, 0xcf, 0xe0, 0xd1, 0x6a, 0xe9, 0x31, 0xb7, 0x3c, 0x59, 0xd7, 0xe0, 0xc0, 0x89, 0xc0]
    );
}

#[test]
fn hmac_md5_matches_rfc2104_vector() {
    let key = [0x0bu8; 16];
    assert_eq!(
        hmac_md5(&key, b"Hi There"),
        [0x92, 0x94, 0x72, 0x7a, 0x36, 0x38, 0xbb, 0x1c, 0x13, 0xf4, 0x8e, 0xf8, 0x15, 0x8b, 0xfc, 0x9d]
    );
}

#[test]
fn rc4_matches_known_vector() {
    let mut key = [0u8; 16];
    key[..3].copy_from_slice(b"Key");
    let mut cipher = Rc4::<rc4::consts::U3>::new(b"Key".into());
    let mut buf = b"Plaintext".to_vec();
    cipher.apply_keystream(&mut buf);
    assert_eq!(buf, [0xBB, 0xF3, 0x16, 0xE8, 0xD9, 0x40, 0xAF, 0x0A, 0xD3]);
}

#[test]
fn unicode_is_utf16le() {
    assert_eq!(unicode("A"), [0x41, 0x00]);
    assert_eq!(unicode("User"), [0x55, 0, 0x73, 0, 0x65, 0, 0x72, 0]);
}

#[test]
fn md5_matches_known_vector() {
    assert_eq!(md5(b"").to_vec(), hex("d41d8cd98f00b204e9800998ecf8427e"));
    assert_eq!(md5(b"abc").to_vec(), hex("900150983cd24fb0d6963f7d28e17f72"));
}

#[test]
fn rc4_with_a_16_byte_key_is_an_involution_and_encrypts() {
    let key = [0x13u8; 16];
    let plain = b"the quick brown fox".to_vec();
    let sealed = rc4(&key, &plain);
    assert_ne!(sealed, plain);
    assert_eq!(rc4(&key, &sealed), plain);
}

const SERVER_CHALLENGE: [u8; 8] = [0x01, 0x23, 0x45, 0x67, 0x89, 0xab, 0xcd, 0xef];
const CLIENT_CHALLENGE: [u8; 8] = [0xaa; 8];
const TIME: [u8; 8] = [0u8; 8];
const TARGET_INFO: [u8; 36] = [
    0x02, 0x00, 0x0c, 0x00, 0x44, 0x00, 0x6f, 0x00, 0x6d, 0x00, 0x61, 0x00, 0x69, 0x00, 0x6e, 0x00, 0x01, 0x00,
    0x0c, 0x00, 0x53, 0x00, 0x65, 0x00, 0x72, 0x00, 0x76, 0x00, 0x65, 0x00, 0x72, 0x00, 0x00, 0x00, 0x00, 0x00,
];

#[test]
fn md4_of_password_matches_4241() {
    assert_eq!(md4(&unicode("Password")).to_vec(), hex("a4f49c406510bdcab6824ee7c30fd852"));
}

#[test]
fn ntowfv2_matches_4241() {
    assert_eq!(ntowf_v2("Password", "User", "Domain").to_vec(), hex("0c868a403bfd7a93a3001ef22ef02e3f"));
}

#[test]
fn temp_matches_4244() {
    let t = temp(TIME, CLIENT_CHALLENGE, &TARGET_INFO);
    let mut expected = Vec::new();
    expected.extend_from_slice(&hex("01010000000000000000000000000000"));
    expected.extend_from_slice(&CLIENT_CHALLENGE);
    expected.extend_from_slice(&[0, 0, 0, 0]);
    expected.extend_from_slice(&TARGET_INFO);
    expected.extend_from_slice(&[0, 0, 0, 0]);
    assert_eq!(t, expected);
    assert_eq!(t.len(), 68);
}

#[test]
fn nt_proof_and_response_match_4244() {
    let key = ntowf_v2("Password", "User", "Domain");
    let t = temp(TIME, CLIENT_CHALLENGE, &TARGET_INFO);
    let proof = nt_proof_str(&key, &SERVER_CHALLENGE, &t);
    assert_eq!(proof.to_vec(), hex("68cd0ab851e51c96aabc927bebef6a1c"));

    let resp = nt_challenge_response(&proof, &t);
    assert_eq!(&resp[..16], &proof);
    assert_eq!(resp.len(), 16 + t.len());
}

#[test]
fn lm_response_matches_4244() {
    let key = ntowf_v2("Password", "User", "Domain");
    let lm = lm_challenge_response(&key, &SERVER_CHALLENGE, &CLIENT_CHALLENGE);
    assert_eq!(lm.to_vec(), hex("86c35097ac9cec102554764a57cccc19aaaaaaaaaaaaaaaa"));
}

#[test]
fn session_base_key_matches_4244() {
    let key = ntowf_v2("Password", "User", "Domain");
    let proof = nt_proof_str(&key, &SERVER_CHALLENGE, &temp(TIME, CLIENT_CHALLENGE, &TARGET_INFO));
    let sbk = session_base_key(&key, &proof);
    assert_eq!(sbk.to_vec(), hex("8de40ccadbc14a82f15cb0ad0de95ca3"));
}

#[test]
fn encrypted_session_key_matches_4244() {
    let kx = {
        let mut k = [0u8; 16];
        k.copy_from_slice(&hex("8de40ccadbc14a82f15cb0ad0de95ca3"));
        k
    };
    let exported = [0x55u8; 16];
    let enc = encrypted_random_session_key(&kx, &exported);
    assert_eq!(enc.to_vec(), hex("c5dad2544fc9799094ce1ce90bc9d03e"));
}

#[test]
fn negotiate_message_roundtrips() {
    let msg = NegotiateMessage {
        flags: NegotiateFlags::default()
            .with(NegotiateFlags::UNICODE)
            .with(NegotiateFlags::NTLM)
            .with(NegotiateFlags::EXTENDED_SESSIONSECURITY)
            .with(NegotiateFlags::VERSION),
        version: Some([6, 1, 0, 0, 0, 0, 0, 15]),
    };
    let bytes = msg.encode();
    assert_eq!(&bytes[..8], &SIGNATURE);
    assert_eq!(NegotiateMessage::decode(&bytes).unwrap(), msg);
}

#[test]
fn challenge_message_roundtrips_with_target_info() {
    let mut target_info = BytesMut::new();
    target_info.put_u16_le(av_id::NB_DOMAIN_NAME);
    target_info.put_u16_le(8);
    target_info.extend_from_slice(&unicode("DOM"));
    target_info.extend_from_slice(&[0, 0]);
    target_info.put_u16_le(av_id::EOL);
    target_info.put_u16_le(0);

    let msg = ChallengeMessage {
        flags: NegotiateFlags::default().with(NegotiateFlags::UNICODE).with(NegotiateFlags::TARGET_INFO),
        server_challenge: [0x01, 0x23, 0x45, 0x67, 0x89, 0xab, 0xcd, 0xef],
        target_name: unicode("SERVER"),
        target_info: target_info.to_vec(),
    };
    let bytes = msg.encode();
    let back = ChallengeMessage::decode(&bytes).unwrap();
    assert_eq!(back.server_challenge, msg.server_challenge);
    assert_eq!(back.target_info, msg.target_info);
    assert_eq!(back.target_name, msg.target_name);

    let pairs = parse_av_pairs(&back.target_info);
    assert_eq!(pairs[0].0, av_id::NB_DOMAIN_NAME);
}

#[test]
fn authenticate_message_roundtrips_with_mic() {
    let mut msg = AuthenticateMessage {
        flags: NegotiateFlags::default()
            .with(NegotiateFlags::UNICODE)
            .with(NegotiateFlags::NTLM)
            .with(NegotiateFlags::EXTENDED_SESSIONSECURITY)
            .with(NegotiateFlags::KEY_EXCH)
            .with(NegotiateFlags::VERSION),
        domain: unicode("DOMAIN"),
        user: unicode("nicat"),
        workstation: unicode("WS"),
        lm_response: vec![0u8; 24],
        nt_response: vec![0xABu8; 48],
        encrypted_session_key: vec![0xCDu8; 16],
        version: [6, 1, 0xB1, 0x1D, 0, 0, 0, 0x0F],
        mic: [0u8; 16],
    };
    msg.compute_mic(&[0x55u8; 16], b"NEGOTIATE-bytes", b"CHALLENGE-bytes");
    assert_ne!(msg.mic, [0u8; 16], "MIC was computed");

    let bytes = msg.encode();
    assert_eq!(&bytes[AuthenticateMessage::MIC_OFFSET..AuthenticateMessage::MIC_OFFSET + 16], &msg.mic);
    assert_eq!(AuthenticateMessage::decode(&bytes).unwrap(), msg);
}

#[test]
fn mic_is_deterministic_and_binds_all_three_messages() {
    let mut a = AuthenticateMessage {
        flags: NegotiateFlags(0),
        domain: vec![],
        user: unicode("u"),
        workstation: vec![],
        lm_response: vec![0u8; 24],
        nt_response: vec![1u8; 16],
        encrypted_session_key: vec![],
        version: [0u8; 8],
        mic: [0u8; 16],
    };
    let mut b = a.clone();
    a.compute_mic(&[7u8; 16], b"NEG", b"CHAL");
    b.compute_mic(&[7u8; 16], b"NEG", b"CHAL-different");
    assert_ne!(a.mic, b.mic, "MIC changes when the CHALLENGE changes");
}

#[test]
fn ntlm_decode_rejects_a_wrong_signature() {
    let mut bytes = NegotiateMessage { flags: NegotiateFlags(0), version: None }.encode();
    bytes[0] = b'X';
    assert!(matches!(NegotiateMessage::decode(&bytes), Err(Error::Protocol(_))));
}

#[test]
fn seal_unseal_roundtrips_across_two_contexts() {
    let esk = [0x55u8; 16];
    let mut client = SecurityContext::new(Role::Client, &esk);
    let mut server = SecurityContext::new(Role::Server, &esk);

    for msg in [b"pubKeyAuth".as_slice(), b"credentials", b"third message here"] {
        let sealed = client.seal(msg);
        assert_ne!(&sealed[16..], msg, "payload is encrypted");
        assert_eq!(server.unseal(&sealed).unwrap(), msg);
    }
    let sealed = server.seal(b"server pubKeyAuth reply");
    assert_eq!(client.unseal(&sealed).unwrap(), b"server pubKeyAuth reply");
}

#[test]
fn tampered_ciphertext_is_rejected() {
    let esk = [0x11u8; 16];
    let mut client = SecurityContext::new(Role::Client, &esk);
    let mut server = SecurityContext::new(Role::Server, &esk);
    let mut sealed = client.seal(b"important");
    let last = sealed.len() - 1;
    sealed[last] ^= 0xff;
    assert!(matches!(server.unseal(&sealed), Err(Error::Protocol(_))));
}

#[test]
fn signature_layout_is_versioned_and_sequenced() {
    let esk = [0x42u8; 16];
    let mut client = SecurityContext::new(Role::Client, &esk);
    let s0 = client.seal(b"a");
    let s1 = client.seal(b"b");
    assert_eq!(&s0[..4], &1u32.to_le_bytes());
    assert_eq!(&s0[12..16], &0u32.to_le_bytes());
    assert_eq!(&s1[12..16], &1u32.to_le_bytes());
}

#[test]
fn unseal_of_a_blob_shorter_than_a_signature_is_short() {
    let mut server = SecurityContext::new(Role::Server, &[0u8; 16]);
    assert!(matches!(server.unseal(&[0u8; 15]), Err(Error::Short { need: 16, have: 15 })));
}

#[test]
fn ts_request_with_nego_token_roundtrips() {
    let req = TsRequest {
        version: 6,
        nego_tokens: vec![b"\x4eTLMSSP-negotiate".to_vec()],
        pub_key_auth: Some(vec![0xAA; 40]),
        client_nonce: Some([0x5A; 32]),
        ..Default::default()
    };
    let bytes = req.encode();
    let back = TsRequest::decode(&bytes).unwrap();
    assert_eq!(back.version, 6);
    assert_eq!(back.nego_tokens, req.nego_tokens);
    assert_eq!(back.pub_key_auth, req.pub_key_auth);
    assert_eq!(back.client_nonce, req.client_nonce);
}

#[test]
fn ts_request_version_only_roundtrips() {
    let req = TsRequest::new(2);
    let back = TsRequest::decode(&req.encode()).unwrap();
    assert_eq!(back.version, 2);
    assert!(back.nego_tokens.is_empty());
}

#[test]
fn ts_request_error_code_roundtrips() {
    let mut req = TsRequest::new(6);
    req.error_code = Some(0xC0000225);
    let back = TsRequest::decode(&req.encode()).unwrap();
    assert_eq!(back.error_code, Some(0xC0000225));
}

#[test]
fn ts_request_every_field_roundtrips() {
    let req = TsRequest {
        version: 6,
        nego_tokens: vec![vec![1, 2, 3], vec![4]],
        auth_info: Some(vec![9; 10]),
        pub_key_auth: Some(vec![8; 3]),
        error_code: Some(5),
        client_nonce: Some([7; 32]),
    };
    assert_eq!(TsRequest::decode(&req.encode()).unwrap(), req);
}

#[test]
fn ts_credentials_password_is_well_formed_der() {
    let creds = PasswordCreds { domain: "DOMAIN".into(), username: "nicat".into(), password: "secret".into() };
    let der = ts_credentials_password(&creds);
    let mut r = Reader::new(&der);
    let body = r.expect(TAG_SEQUENCE).unwrap();
    let mut br = Reader::new(body);
    let cred_type = Reader::new(br.expect(context_tag(0)).unwrap()).read_integer().unwrap();
    assert_eq!(cred_type, 1);
    let inner = Reader::new(br.expect(context_tag(1)).unwrap()).expect(TAG_OCTET_STRING).unwrap();
    let mut ir = Reader::new(inner);
    let pw_seq = ir.expect(TAG_SEQUENCE).unwrap();
    let mut pr = Reader::new(pw_seq);
    let dom = Reader::new(pr.expect(context_tag(0)).unwrap()).expect(TAG_OCTET_STRING).unwrap();
    assert_eq!(dom, &unicode("DOMAIN")[..]);
}

#[test]
fn binding_hashes_are_deterministic_and_direction_specific() {
    let nonce = [0x42u8; 32];
    let key = b"fake-subject-public-key-bytes";
    let c = client_server_binding_hash(&nonce, key);
    let s = server_client_binding_hash(&nonce, key);
    assert_eq!(c.len(), 32);
    assert_ne!(c, s, "client and server directions differ");
    assert_eq!(c, client_server_binding_hash(&nonce, key));
}

fn target_info() -> Vec<u8> {
    hex("02000c0044006f006d00610069006e0001000c005300650072007600650072000000000000000000")[..36].to_vec()
}

fn fixed_entropy() -> Entropy {
    Entropy { client_challenge: [0xaa; 8], nonce: [0x5a; 32], exported_session_key: [0x55; 16] }
}

#[test]
fn start_emits_negotiate_token() {
    let mut c = CredSspClient::with_entropy("Domain", "User", "Password", vec![1, 2, 3], fixed_entropy());
    let ts = c.start();
    let req = TsRequest::decode(&ts).unwrap();
    assert_eq!(req.version, CREDSSP_VERSION);
    let neg = NegotiateMessage::decode(&req.nego_tokens[0]).unwrap();
    assert!(neg.flags.has(NegotiateFlags::EXTENDED_SESSIONSECURITY));
}

#[test]
fn process_challenge_produces_correct_ntproofstr() {
    let mut c = CredSspClient::with_entropy("Domain", "User", "Password", vec![9, 9, 9, 9], fixed_entropy());
    c.start();

    let challenge = ChallengeMessage {
        flags: NegotiateFlags::default()
            .with(NegotiateFlags::UNICODE)
            .with(NegotiateFlags::TARGET_INFO)
            .with(NegotiateFlags::EXTENDED_SESSIONSECURITY),
        server_challenge: [0x01, 0x23, 0x45, 0x67, 0x89, 0xab, 0xcd, 0xef],
        target_name: unicode("Server"),
        target_info: target_info(),
    };
    let server_ts = {
        let mut r = TsRequest::new(CREDSSP_VERSION);
        r.nego_tokens = vec![challenge.encode().to_vec()];
        r.encode()
    };

    let out = c.process_challenge(&server_ts).unwrap();
    let req = TsRequest::decode(&out).unwrap();
    let auth = AuthenticateMessage::decode(&req.nego_tokens[0]).unwrap();

    assert_eq!(&auth.nt_response[..16], &hex("68cd0ab851e51c96aabc927bebef6a1c")[..]);
    assert!(req.pub_key_auth.is_some());
    assert_eq!(req.client_nonce, Some([0x5a; 32]));
    assert!(c.has_security_context());
}

#[test]
fn full_flow_round_trips_against_a_mock_server() {
    let server_pubkey = vec![0xDE, 0xAD, 0xBE, 0xEF, 0x01, 0x02];
    let ent = fixed_entropy();
    let mut c = CredSspClient::with_entropy("Domain", "User", "Password", server_pubkey.clone(), ent);
    c.start();

    let challenge = ChallengeMessage {
        flags: NegotiateFlags::default().with(NegotiateFlags::UNICODE).with(NegotiateFlags::TARGET_INFO),
        server_challenge: [0x01, 0x23, 0x45, 0x67, 0x89, 0xab, 0xcd, 0xef],
        target_name: unicode("Server"),
        target_info: target_info(),
    };
    let server_ts1 = {
        let mut r = TsRequest::new(CREDSSP_VERSION);
        r.nego_tokens = vec![challenge.encode().to_vec()];
        r.encode()
    };
    let out1 = c.process_challenge(&server_ts1).unwrap();
    let client_pubkeyauth = TsRequest::decode(&out1).unwrap().pub_key_auth.unwrap();

    let mut server_ctx = SecurityContext::new(Role::Server, &ent.exported_session_key);
    let client_hash = server_ctx.unseal(&client_pubkeyauth).unwrap();
    assert_eq!(client_hash, client_server_binding_hash(&ent.nonce, &server_pubkey));

    let server_hash = server_client_binding_hash(&ent.nonce, &server_pubkey);
    let server_pubkeyauth = server_ctx.seal(&server_hash);
    let server_ts2 = {
        let mut r = TsRequest::new(CREDSSP_VERSION);
        r.pub_key_auth = Some(server_pubkeyauth);
        r.encode()
    };

    let auth_info_ts = c.process_pubkey(&server_ts2).unwrap();
    let req = TsRequest::decode(&auth_info_ts).unwrap();
    let sealed_creds = req.auth_info.unwrap();
    let creds_der = server_ctx.unseal(&sealed_creds).unwrap();
    assert_eq!(creds_der[0], 0x30);
}

#[test]
fn ts_request_without_a_challenge_token_is_refused() {
    let mut c = CredSspClient::with_entropy("Domain", "User", "Password", vec![1], fixed_entropy());
    let ts = TsRequest::new(CREDSSP_VERSION).encode();
    assert!(c.process_challenge(&ts).is_err());
}

#[test]
fn timestamp_is_taken_from_target_info() {
    let mut ti = Vec::new();
    ti.extend_from_slice(&av_id::TIMESTAMP.to_le_bytes());
    ti.extend_from_slice(&8u16.to_le_bytes());
    ti.extend_from_slice(&[1, 2, 3, 4, 5, 6, 7, 8]);
    ti.extend_from_slice(&[0, 0, 0, 0]);
    assert_eq!(extract_timestamp(&ti), ([1, 2, 3, 4, 5, 6, 7, 8], true));
    assert_eq!(extract_timestamp(&TARGET_INFO), ([0u8; 8], false));
}

#[test]
fn negotiate_flags_describe_in_hex() {
    let f = NegotiateFlags::default().with(NegotiateFlags::UNICODE).with(NegotiateFlags::KEY_EXCH);
    assert_eq!(f.describe(), "NegotiateFlags(0x40000001)");
}

#[test]
fn authenticate_with_a_wrong_type_is_a_protocol_error() {
    let msg = NegotiateMessage { flags: NegotiateFlags(0), version: None }.encode();
    assert!(matches!(AuthenticateMessage::decode(&msg), Err(Error::Protocol(_))));
    assert!(matches!(ChallengeMessage::decode(&msg), Err(Error::Protocol(_))));
}

#[test]
fn truncated_challenge_is_flagged_before_processing() {
    let mut tok = SIGNATURE.to_vec();
    tok.extend_from_slice(&2u32.to_le_bytes());
    tok.extend_from_slice(&[0u8; 4]);
    let mut r = TsRequest::new(CREDSSP_VERSION);
    r.nego_tokens = vec![tok];
    assert!(challenge_incomplete(&r.encode()));
    assert!(!challenge_incomplete(&TsRequest::new(CREDSSP_VERSION).encode()));
}

#[test]
fn credentials_fit_counts_utf16_bytes() {
    let c = CredSspClient::with_entropy("Domain", "User", "Password", vec![1], fixed_entropy());
    assert!(c.credentials_fit());
    let long = "a".repeat(0x0800_0000);
    let c = CredSspClient::with_entropy(&long, "x", "", vec![1], fixed_entropy());
    assert!(!c.credentials_fit());
}
