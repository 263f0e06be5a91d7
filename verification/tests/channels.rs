use bytes::{BufMut, BytesMut};
use ferropipe_rdp::cert::subject_public_key;
use ferropipe_rdp::dvc::{self, capabilities_response, create_response, DvcPdu};
use ferropipe_rdp::emt::{self, create_request, tunnel_pdu, TunnelPdu, ACTION_CREATERESPONSE, ACTION_DATA};
use ferropipe_rdp::mcs::ber;
use ferropipe_rdp::multitransport::{initiate_response, InitiateRequest, PROTOCOL_UDPFECR};
use ferropipe_rdp::nla::der::context_tag;
use ferropipe_rdp::vchannel::{chunk, wrap, Reassembler, CHANNEL_FLAG_FIRST, CHANNEL_FLAG_LAST};
use ferropipe_rdp::Error;
use sha2::{Digest, Sha256};

fn fake_cert(with_version: bool, pubkey: &[u8]) -> Vec<u8> {
    let mut bit_string_content = vec![0u8];
    bit_string_content.extend_from_slice(pubkey);
    let bit_string = ber_tlv(0x03, &bit_string_content);
    let algorithm = ber::sequence(&ber::integer(1));
    let spki = ber::sequence(&[algorithm, bit_string].concat());

    let mut tbs_body = Vec::new();
    if with_version {
        tbs_body.extend_from_slice(&ber_tlv(context_tag(0), &ber::integer(2)));
    }
    tbs_body.extend_from_slice(&ber::integer(0x1234));
    tbs_body.extend_from_slice(&ber::sequence(&ber::integer(1)));
    tbs_body.extend_from_slice(&ber::sequence(&[]));
    tbs_body.extend_from_slice(&ber::sequence(&[]));
    tbs_body.extend_from_slice(&ber::sequence(&[]));
    tbs_body.extend_from_slice(&spki);
    let tbs = ber::sequence(&tbs_body);

    ber::sequence(&[tbs, ber::sequence(&[]), ber_tlv(0x03, &[0, 0])].concat())
}

fn ber_tlv(tag: u8, value: &[u8]) -> Vec<u8> {
    let mut out = vec![tag];
    out.extend_from_slice(&ber::length(value.len()));
    out.extend_from_slice(value);
    out
}

#[test]
fn extracts_public_key_with_version() {
    let key = b"the-servers-public-key-bytes";
    let cert = fake_cert(true, key);
    assert_eq!(subject_public_key(&cert).unwrap(), key);
}

#[test]
fn extracts_public_key_without_version() {
    let key = b"another-key";
    let cert = fake_cert(false, key);
    assert_eq!(subject_public_key(&cert).unwrap(), key);
}

#[test]
fn certificate_that_is_not_a_sequence_is_refused() {
    assert!(subject_public_key(&[0x02, 0x01, 0x00]).is_err());
}

#[test]
fn parses_capabilities_request() {
    let pdu = [0x50, 0x00, 0x03, 0x00, 0, 0, 0, 0, 0, 0, 0, 0];
    assert_eq!(dvc::parse(&pdu).unwrap(), DvcPdu::Capabilities { version: 3 });
}

#[test]
fn capabilities_response_roundtrips() {
    let resp = capabilities_response(2);
    assert_eq!(resp, vec![0x50, 0x00, 0x02, 0x00]);
    assert_eq!(dvc::parse(&resp).unwrap(), DvcPdu::Capabilities { version: 2 });
}

#[test]
fn parses_create_request() {
    let pdu = [0x10, 0x03, b'E', b'C', b'H', b'O', 0x00];
    assert_eq!(dvc::parse(&pdu).unwrap(), DvcPdu::Create { channel_id: 3, name: "ECHO".into() });
}

#[test]
fn create_response_success() {
    let resp = create_response(3, 0);
    assert_eq!(resp, vec![0x10, 0x03, 0x00, 0x00, 0x00, 0x00]);
}

#[test]
fn data_pdu_roundtrips() {
    let pdu = dvc::data(5, b"graphics-bytes");
    match dvc::parse(&pdu).unwrap() {
        DvcPdu::Data { channel_id, data } => {
            assert_eq!(channel_id, 5);
            assert_eq!(data, b"graphics-bytes");
        }
        other => panic!("expected Data, got {other:?}"),
    }
}

#[test]
fn two_byte_channel_id() {
    let pdu = dvc::data(0x0102, b"x");
    assert_eq!(pdu[0], 0x31);
    assert_eq!(u16::from_le_bytes([pdu[1], pdu[2]]), 0x0102);
}

#[test]
fn dvc_parse_of_an_empty_pdu_is_short() {
    assert!(matches!(dvc::parse(&[]), Err(Error::Short { need: 1, have: 0 })));
}

#[test]
fn create_request_matches_spec_example() {
    let cookie = [0x0F, 0x1E, 0x2D, 0x3C, 0x4B, 0x5A, 0x69, 0x78, 0x87, 0x96, 0xA5, 0xB4, 0xC3, 0xD2, 0xE1, 0xF0];
    let pdu = create_request(1, &cookie);
    assert_eq!(&pdu[..4], &[0x00, 0x18, 0x00, 0x04]);
    assert_eq!(&pdu[4..8], &[0x01, 0x00, 0x00, 0x00]);
    assert_eq!(&pdu[8..12], &[0x00, 0x00, 0x00, 0x00]);
    assert_eq!(&pdu[12..28], &cookie);
    assert_eq!(pdu.len(), 28);
}

#[test]
fn create_response_roundtrips() {
    let mut body = BytesMut::new();
    body.put_u32_le(0);
    let pdu = tunnel_pdu(ACTION_CREATERESPONSE, &body);
    assert_eq!(emt::parse(&pdu).unwrap(), TunnelPdu::CreateResponse { hr_response: 0 });
}

#[test]
fn data_wraps_and_unwraps() {
    let inner = b"fast-path-update-bytes";
    let pdu = emt::data(inner);
    assert_eq!(pdu[0], ACTION_DATA);
    match emt::parse(&pdu).unwrap() {
        TunnelPdu::Data { higher_layer } => assert_eq!(higher_layer, inner),
        other => panic!("expected Data, got {other:?}"),
    }
}

#[test]
fn parse_skips_subheaders_via_header_length() {
    let mut pdu = vec![ACTION_DATA, 0x03, 0x00, 0x06, 0xAA, 0xBB];
    pdu.extend_from_slice(&[1, 2, 3]);
    match emt::parse(&pdu).unwrap() {
        TunnelPdu::Data { higher_layer } => assert_eq!(higher_layer, vec![1, 2, 3]),
        other => panic!("expected Data, got {other:?}"),
    }
}

#[test]
fn tunnel_header_shorter_than_minimum_is_refused() {
    let pdu = [ACTION_DATA, 0x00, 0x00, 0x02];
    assert!(emt::parse(&pdu).is_err());
}

#[test]
fn parses_initiate_request_and_hashes_cookie() {
    let mut body = BytesMut::new();
    body.put_u32_le(0xDEAD_BEEF);
    body.put_u16_le(PROTOCOL_UDPFECR);
    body.put_u16_le(0);
    let cookie = [0x11u8; 16];
    body.extend_from_slice(&cookie);

    let req = InitiateRequest::parse(&body).unwrap();
    assert_eq!(req.request_id, 0xDEAD_BEEF);
    assert_eq!(req.requested_protocol, PROTOCOL_UDPFECR);
    assert_eq!(req.security_cookie, cookie);

    let mut h = Sha256::new();
    h.update(cookie);
    let expected: [u8; 32] = h.finalize().into();
    assert_eq!(req.cookie_hash(), expected);
}

#[test]
fn response_layout() {
    let r = initiate_response(0xDEAD_BEEF, 0);
    assert_eq!(u32::from_le_bytes([r[0], r[1], r[2], r[3]]), 0xDEAD_BEEF);
    assert_eq!(u32::from_le_bytes([r[4], r[5], r[6], r[7]]), 0);
}

#[test]
fn initiate_request_detected_behind_a_transport_security_header() {
    let mut pdu = vec![0x02, 0x00, 0x00, 0x00];
    pdu.extend_from_slice(&7u32.to_le_bytes());
    pdu.extend_from_slice(&PROTOCOL_UDPFECR.to_le_bytes());
    pdu.extend_from_slice(&[0, 0]);
    pdu.extend_from_slice(&[0x42u8; 16]);
    let req = InitiateRequest::detect(&pdu).unwrap();
    assert_eq!(req.request_id, 7);
    assert_eq!(req.security_cookie, [0x42u8; 16]);
    // A licensing header (SEC_LICENSE_PKT) is no transport request.
    pdu[0] = 0x80;
    assert!(InitiateRequest::detect(&pdu).is_none());
}

#[test]
fn initiate_request_needs_its_cookie() {
    assert!(matches!(InitiateRequest::parse(&[0u8; 23]), Err(Error::Short { need: 24, have: 23 })));
}

#[test]
fn single_chunk_wraps_and_reassembles() {
    let data = b"hello dynamic channel";
    let pdu = wrap(data);
    let mut r = Reassembler::new();
    assert_eq!(r.push(&pdu).unwrap(), Some(data.to_vec()));
}

#[test]
fn large_message_chunks_and_reassembles() {
    let data: Vec<u8> = (0..4000u32).map(|i| i as u8).collect();
    let chunks = chunk(&data);
    assert!(chunks.len() >= 3);
    let mut r = Reassembler::new();
    let mut result = None;
    for c in &chunks {
        if let Some(msg) = r.push(c).unwrap() {
            result = Some(msg);
        }
    }
    assert_eq!(result, Some(data));
}

#[test]
fn first_chunk_flags_are_set() {
    let chunks = chunk(&vec![0u8; 3500]);
    let first_flags = u32::from_le_bytes([chunks[0][4], chunks[0][5], chunks[0][6], chunks[0][7]]);
    assert!(first_flags & CHANNEL_FLAG_FIRST != 0);
    assert!(first_flags & CHANNEL_FLAG_LAST == 0);
    let last = chunks.last().unwrap();
    let last_flags = u32::from_le_bytes([last[4], last[5], last[6], last[7]]);
    assert!(last_flags & CHANNEL_FLAG_LAST != 0);
}

#[test]
fn chunking_into_a_reassembler_mid_message_still_yields_the_message() {
    // The chunk/reassemble law holds from any state: a fresh FIRST chunk restarts.
    let mut r = Reassembler::new();
    let stray = chunk(&vec![9u8; 3300]);
    assert_eq!(r.push(&stray[0]).unwrap(), None);
    let data: Vec<u8> = (0..2000u32).map(|i| (i % 251) as u8).collect();
    let mut result = None;
    for c in &chunk(&data) {
        if let Some(msg) = r.push(c).unwrap() {
            result = Some(msg);
        }
    }
    assert_eq!(result, Some(data));
}

#[test]
fn tunnel_header_gives_the_remaining_length() {
    assert_eq!(emt::tunnel_remaining_len(&[ACTION_DATA, 0x03, 0x00, 0x06]).unwrap(), 5);
    assert!(matches!(emt::tunnel_remaining_len(&[ACTION_DATA, 0x03, 0x00, 0x03]), Err(Error::Protocol(_))));
}

#[test]
fn empty_bit_string_is_a_protocol_error() {
    let spki = ber::sequence(&[ber::sequence(&ber::integer(1)), vec![0x03, 0x00]].concat());
    let mut tbs_body = Vec::new();
    tbs_body.extend_from_slice(&ber::integer(0x1234));
    for _ in 0..4 {
        tbs_body.extend_from_slice(&ber::sequence(&[]));
    }
    tbs_body.extend_from_slice(&spki);
    let der = ber::sequence(&[ber::sequence(&tbs_body), ber::sequence(&[])].concat());
    assert!(matches!(subject_public_key(&der), Err(Error::Protocol(_))));
}

#[test]
fn tunnel_create_response_is_checked() {
    assert!(emt::check_create_response(&tunnel_pdu(ACTION_CREATERESPONSE, &[0, 0, 0, 0])).is_ok());
    assert!(matches!(
        emt::check_create_response(&tunnel_pdu(ACTION_CREATERESPONSE, &[5, 0, 0, 0x80])),
        Err(Error::NegotiationFailure(_))
    ));
    assert!(matches!(emt::check_create_response(&emt::data(&[1, 2])), Err(Error::Protocol(_))));
    assert!(matches!(
        emt::check_create_response(&tunnel_pdu(ACTION_CREATERESPONSE, &[0, 0])),
        Err(Error::Short { need: 4, have: 2 })
    ));
}

#[test]
fn every_chunk_but_the_last_completes_nothing() {
    let data: Vec<u8> = (0..4000u32).map(|i| (i * 7) as u8).collect();
    let chunks = chunk(&data);
    let mut r = Reassembler::new();
    for c in &chunks[..chunks.len() - 1] {
        assert_eq!(r.push(c).unwrap(), None);
    }
    assert_eq!(r.push(&chunks[chunks.len() - 1]).unwrap(), Some(data));
}
