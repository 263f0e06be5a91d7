use ferropipe_rdp::nego::{NegotiationRequest, NegotiationResponse, SecurityProtocol};
use ferropipe_rdp::tpkt::{decode, encode, peek_total_len};
use ferropipe_rdp::x224::{
    unwrap_data, wrap_data, ConnectionConfirm, ConnectionRequest, DATA_HEADER, TPDU_CC, TPDU_CR,
};
use ferropipe_rdp::Error;

#[test]
fn encode_then_decode_roundtrips() {
    let payload = b"\xe0\x00\x00\x00\x00\x00";
    let pkt = encode(payload).unwrap();
    assert_eq!(pkt[0], 3);
    assert_eq!(pkt[1], 0);
    assert_eq!(u16::from_be_bytes([pkt[2], pkt[3]]) as usize, payload.len() + 4);
    assert_eq!(decode(&pkt).unwrap(), payload);
}

#[test]
fn peek_reports_total_length() {
    let pkt = encode(&[0u8; 10]).unwrap();
    assert_eq!(peek_total_len(&pkt).unwrap(), 14);
}

#[test]
fn decode_needs_the_whole_packet() {
    let pkt = encode(&[0u8; 20]).unwrap();
    assert!(matches!(decode(&pkt[..10]), Err(Error::Short { .. })));
}

#[test]
fn rejects_bad_version() {
    let mut pkt = encode(&[0u8; 4]).unwrap();
    pkt[0] = 4;
    assert!(matches!(peek_total_len(&pkt), Err(Error::Protocol(_))));
}

#[test]
fn tpkt_refuses_an_oversized_payload() {
    let big = vec![0u8; 65532];
    assert!(matches!(encode(&big), Err(Error::Protocol(_))));
    assert!(encode(&big[..65531]).is_ok());
}

fn sample_req() -> ConnectionRequest {
    ConnectionRequest {
        cookie: Some("nicat".to_string()),
        nego: Some(NegotiationRequest {
            flags: 0,
            requested: SecurityProtocol::default().with(SecurityProtocol::SSL).with(SecurityProtocol::HYBRID),
        }),
    }
}

#[test]
fn connection_request_roundtrips_with_cookie_and_nego() {
    let req = sample_req();
    let bytes = req.encode();
    assert_eq!(bytes[1], TPDU_CR);
    assert_eq!(bytes[0] as usize + 1, bytes.len(), "LI covers the whole TPDU");
    assert_eq!(ConnectionRequest::decode(&bytes).unwrap(), req);
}

#[test]
fn connection_request_without_cookie_roundtrips() {
    let req = ConnectionRequest {
        cookie: None,
        nego: Some(NegotiationRequest { flags: 0, requested: SecurityProtocol(SecurityProtocol::SSL) }),
    };
    let bytes = req.encode();
    assert_eq!(ConnectionRequest::decode(&bytes).unwrap(), req);
}

#[test]
fn connection_confirm_roundtrips() {
    let cc = ConnectionConfirm {
        nego: Some(NegotiationResponse::Selected { flags: 0, protocol: SecurityProtocol(SecurityProtocol::HYBRID) }),
    };
    let bytes = cc.encode();
    assert_eq!(bytes[1], TPDU_CC);
    assert_eq!(ConnectionConfirm::decode(&bytes).unwrap(), cc);
}

#[test]
fn data_tpdu_wraps_and_unwraps() {
    let payload = b"mcs-pdu-bytes-here";
    let wrapped = wrap_data(payload);
    assert_eq!(&wrapped[..3], &DATA_HEADER);
    assert_eq!(unwrap_data(&wrapped).unwrap(), payload);
}

#[test]
fn neg_request_roundtrips() {
    let req = NegotiationRequest {
        flags: 0,
        requested: SecurityProtocol::default().with(SecurityProtocol::SSL).with(SecurityProtocol::HYBRID),
    };
    let mut out = Vec::new();
    req.write(&mut out);
    assert_eq!(out.len(), NegotiationRequest::SIZE);
    assert_eq!(NegotiationRequest::read(&mut &out[..]).unwrap(), req);
}

#[test]
fn neg_response_selected_roundtrips() {
    let rsp = NegotiationResponse::Selected { flags: 0x02, protocol: SecurityProtocol(SecurityProtocol::HYBRID) };
    let mut out = Vec::new();
    rsp.write(&mut out);
    assert_eq!(NegotiationResponse::read(&mut &out[..]).unwrap(), rsp);
}

#[test]
fn neg_response_failure_roundtrips_with_reason() {
    let rsp = NegotiationResponse::Failure { code: 0x0005 };
    let mut out = Vec::new();
    rsp.write(&mut out);
    let back = NegotiationResponse::read(&mut &out[..]).unwrap();
    assert_eq!(back, rsp);
    if let NegotiationResponse::Failure { code } = back {
        assert_eq!(NegotiationResponse::failure_reason(code), "HYBRID_REQUIRED_BY_SERVER");
    }
}

#[test]
fn neg_request_read_rejects_a_wrong_type() {
    let bytes = [0x02u8, 0, 8, 0, 1, 0, 0, 0];
    assert!(matches!(NegotiationRequest::read(&mut &bytes[..]), Err(Error::Protocol(_))));
}

#[test]
fn security_protocol_describes_its_bits() {
    let p = SecurityProtocol::default().with(SecurityProtocol::SSL).with(SecurityProtocol::HYBRID);
    assert_eq!(p.describe(), "SecurityProtocol(0x00000003 [SSL|HYBRID])");
    assert_eq!(SecurityProtocol(0).describe(), "SecurityProtocol(0x00000000 [RDP])");
    assert_eq!(SecurityProtocol(0xC).describe(), "SecurityProtocol(0x0000000c [RDSTLS|HYBRID_EX])");
}

#[test]
fn connection_request_with_a_short_length_indicator_is_refused() {
    let buf = [0x02, 0xE0, 0x00, 0x00, 0x00, 0x00, 0x00];
    assert!(matches!(ConnectionRequest::decode(&buf), Err(Error::Protocol(_))));
    assert!(matches!(ConnectionConfirm::decode(&[0x02, 0xD0, 0, 0, 0, 0, 0]), Err(Error::Protocol(_))));
}

#[test]
fn non_data_tpdu_is_refused_before_its_length_indicator() {
    assert!(matches!(unwrap_data(&[0x40, 0xE0, 0x80]), Err(Error::Protocol(_))));
}

#[test]
fn short_negotiation_response_leaves_the_buffer() {
    let bytes = [0x02u8, 0, 8];
    let mut slice = &bytes[..];
    assert!(matches!(NegotiationResponse::read(&mut slice), Err(Error::Short { need: 8, have: 3 })));
    assert_eq!(slice.len(), 3);
}
