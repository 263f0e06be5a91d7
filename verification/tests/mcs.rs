use bytes::{BufMut, BytesMut};
use ferropipe_rdp::gcc::{
    client_network_data, conference_create_request, parse_server_network_data, ud_block, ChannelDef,
    ClientCoreData, CS_CORE, CS_NET, SC_CORE, SC_NET,
};
use ferropipe_rdp::mcs::ber::{
    application, application_tag_bytes, enumerated, integer, length, octet_string, Reader,
};
use ferropipe_rdp::mcs::connect::{connect_initial, domain_parameters, parse_connect_response, CONNECT_RESPONSE};
use ferropipe_rdp::mcs::domain::{
    attach_user_request, channel_join_request, erect_domain_request, parse_attach_user_confirm,
    parse_channel_join_confirm, parse_send_data_indication, send_data_request, IO_CHANNEL, MCS_BASE,
};
use ferropipe_rdp::mcs::per::{read_length, write_length};
use ferropipe_rdp::Error;

#[test]
fn integer_and_length() {
    assert_eq!(integer(0), vec![0x02, 0x01, 0x00]);
    assert_eq!(integer(2), vec![0x02, 0x01, 0x02]);
    assert_eq!(integer(65535), vec![0x02, 0x03, 0x00, 0xff, 0xff]);
    assert_eq!(length(200), vec![0x81, 0xc8]);
}

#[test]
fn application_tag_short_and_long() {
    assert_eq!(application_tag_bytes(101), vec![0x7f, 0x65]);
    assert_eq!(application_tag_bytes(102), vec![0x7f, 0x66]);
    assert_eq!(application_tag_bytes(30), vec![0x40 | 0x20 | 30]);
}

#[test]
fn reader_roundtrips_integer_and_octet_string() {
    let enc = [integer(65535), octet_string(b"hello")].concat();
    let mut r = Reader::new(&enc);
    assert_eq!(r.read_integer().unwrap(), 65535);
    assert_eq!(r.expect(&[0x04]).unwrap(), b"hello");
}

#[test]
fn application_wrap_roundtrips() {
    let inner = integer(7);
    let app = application(101, &inner);
    assert_eq!(&app[..2], &[0x7f, 0x65]);
    let mut r = Reader::new(&app);
    let contents = r.expect(&[0x7f, 0x65]).unwrap();
    assert_eq!(Reader::new(contents).read_integer().unwrap(), 7);
}

#[test]
fn ber_reader_rejects_a_wrong_tag() {
    let enc = integer(5);
    let mut r = Reader::new(&enc);
    assert!(matches!(r.expect(&[0x04]), Err(Error::Protocol(_))));
}

#[test]
fn length_short_form() {
    let mut out = Vec::new();
    write_length(&mut out, 0x1f);
    assert_eq!(&out[..], &[0x1f]);
    let mut slice = &out[..];
    assert_eq!(read_length(&mut slice).unwrap(), 0x1f);
}

#[test]
fn length_two_byte_form() {
    let mut out = Vec::new();
    write_length(&mut out, 0x200);
    assert_eq!(&out[..], &[0x82, 0x00]);
    let mut slice = &out[..];
    assert_eq!(read_length(&mut slice).unwrap(), 0x200);
}

#[test]
fn length_boundary_127_and_128() {
    for n in [0usize, 1, 127, 128, 255, 1000, 0x3fff] {
        let mut out = Vec::new();
        write_length(&mut out, n);
        let mut slice = &out[..];
        assert_eq!(read_length(&mut slice).unwrap(), n, "n={n}");
    }
}

#[test]
fn per_length_read_needs_its_second_byte() {
    let bytes = [0x81u8];
    let mut slice = &bytes[..];
    assert!(matches!(read_length(&mut slice), Err(Error::Short { .. })));
}

#[test]
fn connect_initial_has_application_101_tag() {
    let ccr = conference_create_request(&[0xAA, 0xBB, 0xCC, 0xDD]);
    let pdu = connect_initial(&ccr);
    assert_eq!(&pdu[..2], &[0x7f, 0x65]);
}

#[test]
fn connect_initial_embeds_the_gcc_userdata() {
    let blocks = ClientCoreData::default().encode();
    let ccr = conference_create_request(&blocks);
    let pdu = connect_initial(&ccr);
    assert!(pdu.windows(4).any(|w| w == b"Duca"));
}

#[test]
fn connect_response_roundtrips_and_extracts_userdata() {
    let user_data = b"GCC-response-bytes-here".to_vec();
    let mut body = Vec::new();
    body.extend_from_slice(&enumerated(0));
    body.extend_from_slice(&integer(0));
    body.extend_from_slice(&domain_parameters([34, 3, 0, 1, 0, 1, 0xFFFF, 2]));
    body.extend_from_slice(&octet_string(&user_data));
    let pdu = application(CONNECT_RESPONSE, &body);

    let extracted = parse_connect_response(&pdu).unwrap();
    assert_eq!(extracted, &user_data[..]);
}

#[test]
fn connect_response_rejects_failure_result() {
    let mut body = Vec::new();
    body.extend_from_slice(&enumerated(1));
    body.extend_from_slice(&integer(0));
    body.extend_from_slice(&domain_parameters([34, 3, 0, 1, 0, 1, 0xFFFF, 2]));
    body.extend_from_slice(&octet_string(b"x"));
    let pdu = application(CONNECT_RESPONSE, &body);
    assert!(matches!(parse_connect_response(&pdu), Err(Error::NegotiationFailure(_))));
}

#[test]
fn erect_and_attach_have_expected_choice_bytes() {
    assert_eq!(erect_domain_request()[0], 0x04);
    assert_eq!(attach_user_request(), vec![0x28]);
}

#[test]
fn attach_user_confirm_extracts_channel() {
    let buf = [0x2E, 0x00, 0x00, 0x06];
    assert_eq!(parse_attach_user_confirm(&buf).unwrap(), 1007);
}

#[test]
fn attach_user_confirm_reports_a_refusal() {
    let buf = [0x2E, 0x01, 0x00, 0x06];
    assert!(matches!(parse_attach_user_confirm(&buf), Err(Error::NegotiationFailure(_))));
}

#[test]
fn channel_join_request_encoding() {
    let req = channel_join_request(1007, IO_CHANNEL);
    assert_eq!(req[0], 0x38);
    assert_eq!(u16::from_be_bytes([req[1], req[2]]), 1007 - MCS_BASE);
    assert_eq!(u16::from_be_bytes([req[3], req[4]]), IO_CHANNEL);
}

#[test]
fn channel_join_confirm_extracts_channel() {
    let mut buf = BytesMut::new();
    buf.put_u8(0x3E);
    buf.put_u8(0x00);
    buf.put_u16(6);
    buf.put_u16(1003);
    buf.put_u16(1003);
    assert_eq!(parse_channel_join_confirm(&buf).unwrap(), 1003);
}

#[test]
fn send_data_request_roundtrips_via_indication_parser() {
    let payload = b"an-rdp-pdu-payload";
    let req = send_data_request(1007, IO_CHANNEL, payload);
    assert_eq!(req[0], 0x64);
    let mut ind = req.clone();
    ind[0] = 0x68;
    let (chan, data) = parse_send_data_indication(&ind).unwrap();
    assert_eq!(chan, IO_CHANNEL);
    assert_eq!(data, payload);
}

#[test]
fn send_data_indication_rejects_a_request_tag() {
    let req = send_data_request(1007, IO_CHANNEL, b"x");
    assert!(matches!(parse_send_data_indication(&req), Err(Error::Protocol(_))));
}

#[test]
fn cs_core_has_ud_header_and_selected_protocol() {
    let core = ClientCoreData { server_selected_protocol: 0x02, ..Default::default() };
    let enc = core.encode();
    assert_eq!(u16::from_le_bytes([enc[0], enc[1]]), CS_CORE);
    assert_eq!(u16::from_le_bytes([enc[2], enc[3]]) as usize, enc.len());
    assert_eq!(u32::from_le_bytes([enc[4], enc[5], enc[6], enc[7]]), ClientCoreData::VERSION_RDP5);
}

#[test]
fn cs_net_lists_channels() {
    let chans = [
        ChannelDef { name: "rdpdr".into(), options: 0x8000_0000 },
        ChannelDef { name: "cliprdr".into(), options: 0xC000_0000 },
    ];
    let enc = client_network_data(&chans);
    assert_eq!(u16::from_le_bytes([enc[0], enc[1]]), CS_NET);
    assert_eq!(u32::from_le_bytes([enc[4], enc[5], enc[6], enc[7]]), 2);
}

#[test]
fn parse_sc_net_extracts_channel_ids() {
    let mut body = BytesMut::new();
    body.put_u16_le(1003);
    body.put_u16_le(2);
    body.put_u16_le(1004);
    body.put_u16_le(1005);
    let block = ud_block(SC_NET, &body);
    let parsed = parse_server_network_data(&block).unwrap();
    assert_eq!(parsed.io_channel_id, 1003);
    assert_eq!(parsed.channel_ids, vec![1004, 1005]);
}

#[test]
fn parse_sc_net_skips_other_blocks() {
    let core = ud_block(SC_CORE, &[0, 0, 8, 0]);
    let mut netbody = BytesMut::new();
    netbody.put_u16_le(1003);
    netbody.put_u16_le(0);
    let net = ud_block(SC_NET, &netbody);
    let combined = [core, net].concat();
    let parsed = parse_server_network_data(&combined).unwrap();
    assert_eq!(parsed.io_channel_id, 1003);
    assert!(parsed.channel_ids.is_empty());
}

#[test]
fn sc_net_missing_is_a_protocol_error() {
    let core = ud_block(SC_CORE, &[0, 0, 8, 0]);
    assert!(matches!(parse_server_network_data(&core), Err(Error::Protocol(_))));
}

#[test]
fn attach_user_confirm_outside_the_user_id_range_is_refused() {
    assert!(matches!(parse_attach_user_confirm(&[0x2E, 0x00, 0xFF, 0xFF]), Err(Error::Protocol(_))));
    assert_eq!(parse_attach_user_confirm(&[0x2E, 0x00, 0xFC, 0x16]).unwrap(), 65535);
}

#[test]
fn ber_reader_keeps_its_place_on_a_wrong_tag() {
    let enc = integer(5);
    let mut r = Reader::new(&enc);
    assert!(r.expect(&[0x04]).is_err());
    assert_eq!(r.read_integer().unwrap(), 5);
}
