use bytes::{BufMut, BytesMut};
use ferropipe_rdp::caps::{bitmap_caps, general_caps};
use ferropipe_rdp::connection::{
    client_capabilities, connect_initial_pdu, demand_step, establish, finalization_pdus, is_share_data_pdu,
    user_channel, ChannelJoiner, DemandStep, DemandWaiter, FinalAction, Finalizer, PduTransport, SessionConfig,
    MAX_SKIP,
};
use ferropipe_rdp::mcs::domain::channel_join_request;
use ferropipe_rdp::frame::{der_content_length, der_length_bytes, fast_path_length, is_slow_path};
use ferropipe_rdp::gcc::{ChannelDef, SC_NET};
use ferropipe_rdp::mcs::domain::{parse_send_data_indication, send_data_request as sdr, IO_CHANNEL};
use ferropipe_rdp::mcs::{ber, per};
use ferropipe_rdp::pdu::{
    control, parse_share_control, share_control, share_data, synchronize, CTRLACTION_COOPERATE,
    PDUTYPE2_CONTROL, PDUTYPE2_FONTMAP, PDUTYPE2_SYNCHRONIZE, PDUTYPE_CONFIRMACTIVE, PDUTYPE_DEMANDACTIVE,
};
use ferropipe_rdp::session::SessionParams;
use ferropipe_rdp::{Error, Result};

struct MockTransport {
    responses: std::collections::VecDeque<Vec<u8>>,
    sent: Vec<Vec<u8>>,
}

impl PduTransport for MockTransport {
    fn send(&mut self, mcs_pdu: &[u8]) -> Result<()> {
        self.sent.push(mcs_pdu.to_vec());
        Ok(())
    }
    fn recv(&mut self) -> Result<Vec<u8>> {
        self.responses.pop_front().ok_or(Error::Protocol("mock: no more responses"))
    }
}

fn connect_response(io_channel: u16, channels: &[u16]) -> Vec<u8> {
    let mut sc_net = BytesMut::new();
    sc_net.put_u16_le(io_channel);
    sc_net.put_u16_le(channels.len() as u16);
    for &c in channels {
        sc_net.put_u16_le(c);
    }
    let mut block = BytesMut::new();
    block.put_u16_le(SC_NET);
    block.put_u16_le((sc_net.len() + 4) as u16);
    block.extend_from_slice(&sc_net);

    let mut gcc = Vec::new();
    gcc.extend_from_slice(&[0x00, 0x05, 0x00, 0x14, 0x7c, 0x00, 0x01]);
    gcc.extend_from_slice(b"McDn");
    per::write_length(&mut gcc, block.len());
    gcc.extend_from_slice(&block);

    let mut body = Vec::new();
    body.extend_from_slice(&ber::enumerated(0));
    body.extend_from_slice(&ber::integer(0));
    let dp: Vec<u8> = [34u32, 3, 0, 1, 0, 1, 0xFFFF, 2].iter().flat_map(|&v| ber::integer(v)).collect();
    body.extend_from_slice(&ber::sequence(&dp));
    body.extend_from_slice(&ber::octet_string(&gcc));
    ber::application(102, &body)
}

fn attach_user_confirm(user_channel: u16) -> Vec<u8> {
    let mut v = BytesMut::new();
    v.put_u8(0x2E);
    v.put_u8(0x00);
    v.put_u16(user_channel - 1001);
    v.to_vec()
}

fn channel_join_confirm(channel: u16) -> Vec<u8> {
    let mut v = BytesMut::new();
    v.put_u8(0x3E);
    v.put_u8(0x00);
    v.put_u16(6);
    v.put_u16(channel);
    v.put_u16(channel);
    v.to_vec()
}

fn server_data_pdu(pdu_type2: u8, body: &[u8]) -> Vec<u8> {
    let sc = share_data(0x03EA, 0x0001_03EA, pdu_type2, body);
    let mut ind = sdr(0x03EA, IO_CHANNEL, &sc);
    ind[0] = 0x68;
    ind
}

fn demand_active_indication() -> Vec<u8> {
    let caps = [general_caps(), bitmap_caps(1024, 768)];
    let combined: Vec<u8> = caps.concat();
    let mut body = BytesMut::new();
    body.put_u32_le(0x0001_03EA);
    body.put_u16_le(4);
    body.put_u16_le((combined.len() + 4) as u16);
    body.extend_from_slice(b"RDP\0");
    body.put_u16_le(2);
    body.put_u16_le(0);
    body.extend_from_slice(&combined);
    let sc = share_control(PDUTYPE_DEMANDACTIVE, 0x03EA, &body);
    let mut ind = sdr(0x03EA, IO_CHANNEL, &sc);
    ind[0] = 0x68;
    ind
}

fn sample_config() -> SessionConfig {
    SessionConfig {
        width: 1024,
        height: 768,
        domain: "DOM".into(),
        username: "nicat".into(),
        selected_protocol: 0x02,
        channels: vec![ChannelDef { name: "rdpdr".into(), options: 0x8000_0000 }],
    }
}

#[test]
fn full_connection_sequence_against_mock_server() {
    let mut responses = std::collections::VecDeque::new();
    responses.push_back(connect_response(IO_CHANNEL, &[1004]));
    responses.push_back(attach_user_confirm(1007));
    responses.push_back(channel_join_confirm(1007));
    responses.push_back(channel_join_confirm(1003));
    responses.push_back(channel_join_confirm(1004));
    responses.push_back(demand_active_indication());
    responses.push_back(server_data_pdu(PDUTYPE2_SYNCHRONIZE, &synchronize(1007)));
    responses.push_back(server_data_pdu(PDUTYPE2_CONTROL, &control(CTRLACTION_COOPERATE, 0, 0)));
    responses.push_back(server_data_pdu(PDUTYPE2_CONTROL, &control(0x0002, 0, 0)));
    responses.push_back(server_data_pdu(PDUTYPE2_FONTMAP, &[0u8; 8]));

    let mut t = MockTransport { responses, sent: Vec::new() };
    let cfg = sample_config();

    let session = establish(&mut t, &cfg).unwrap();
    assert_eq!(session.user_id, 1007);
    assert_eq!(session.io_channel, IO_CHANNEL);
    assert_eq!(session.channel_ids, vec![1004]);
    assert_eq!(session.share_id, 0x0001_03EA);

    assert_eq!(&t.sent[0][..2], &[0x7f, 0x65]);
    let sent_confirm = t.sent.iter().any(|p| {
        parse_send_data_indication(&{
            let mut v = p.clone();
            if !v.is_empty() && v[0] == 0x64 {
                v[0] = 0x68;
            }
            v
        })
        .ok()
        .and_then(|(_c, d)| parse_share_control(d).ok())
        .map(|(h, _)| h.pdu_type == PDUTYPE_CONFIRMACTIVE)
        .unwrap_or(false)
    });
    assert!(sent_confirm, "client sent a Confirm Active PDU");
}

#[test]
fn connection_sends_the_planned_pdus() {
    let mut responses = std::collections::VecDeque::new();
    responses.push_back(connect_response(IO_CHANNEL, &[1004]));
    responses.push_back(attach_user_confirm(1007));
    for c in [1007, 1003, 1004] {
        responses.push_back(channel_join_confirm(c));
    }
    responses.push_back(demand_active_indication());
    for _ in 0..4 {
        responses.push_back(server_data_pdu(PDUTYPE2_SYNCHRONIZE, &synchronize(1007)));
    }
    let mut t = MockTransport { responses, sent: Vec::new() };
    let cfg = sample_config();
    establish(&mut t, &cfg).unwrap();
    assert_eq!(t.sent[0], connect_initial_pdu(&cfg));
    // The last four PDUs sent are the finalization PDUs on the I/O channel.
    let fin = finalization_pdus(1007, 0x0001_03EA);
    let n = t.sent.len();
    for (k, pdu) in fin.iter().enumerate() {
        assert_eq!(t.sent[n - 4 + k], sdr(1007, IO_CHANNEL, pdu));
    }
}

#[test]
fn missing_demand_active_gives_up_after_the_skip_bound() {
    let mut responses = std::collections::VecDeque::new();
    responses.push_back(connect_response(IO_CHANNEL, &[]));
    responses.push_back(attach_user_confirm(1007));
    responses.push_back(channel_join_confirm(1007));
    responses.push_back(channel_join_confirm(1003));
    for _ in 0..16 {
        responses.push_back(server_data_pdu(PDUTYPE2_SYNCHRONIZE, &synchronize(1007)));
    }
    let mut t = MockTransport { responses, sent: Vec::new() };
    let cfg = SessionConfig { channels: vec![], ..sample_config() };
    assert!(matches!(establish(&mut t, &cfg), Err(Error::Protocol("no Demand Active PDU received"))));
}

#[test]
fn transport_errors_are_passed_on() {
    let mut t = MockTransport { responses: std::collections::VecDeque::new(), sent: Vec::new() };
    assert!(matches!(establish(&mut t, &sample_config()), Err(Error::Protocol("mock: no more responses"))));
    assert_eq!(t.sent.len(), 1);
}

#[test]
fn virtual_channel_caps_only_with_channels() {
    let with = client_capabilities(&sample_config());
    let without = client_capabilities(&SessionConfig { channels: vec![], ..sample_config() });
    assert_eq!(with.len(), 21);
    assert_eq!(without.len(), 20);
    assert_eq!(u16::from_le_bytes([with[20][0], with[20][1]]), 20);
}

#[test]
fn frame_lengths_are_decoded() {
    assert!(is_slow_path(3));
    assert!(!is_slow_path(0));
    assert_eq!(fast_path_length(0x10, 0xFF), (0x10, 1));
    assert_eq!(fast_path_length(0x81, 0x2C), (0x12C, 2));
    assert_eq!(der_length_bytes(0x82), 2);
    assert_eq!(der_content_length(0x82, &[0x01, 0x2C]), 300);
    assert_eq!(der_content_length(0x05, &[]), 5);
}

#[test]
fn session_params_defaults() {
    let p = SessionParams::new("host", "user", "pw");
    assert_eq!(p.host, "host");
    assert_eq!(p.port, 3389);
    assert_eq!(p.domain, "");
    assert_eq!((p.username.as_str(), p.password.as_str()), ("user", "pw"));
    assert_eq!((p.width, p.height), (1280, 800));
}

#[test]
fn demand_step_classifies_io_pdus() {
    let ind = demand_active_indication();
    let (_c, pdu) = parse_send_data_indication(&ind).unwrap();
    match demand_step(pdu, false).unwrap() {
        DemandStep::Demand(d) => assert_eq!(d.share_id, 0x0001_03EA),
        other => panic!("expected Demand, got {other:?}"),
    }
    let mut mt = vec![0x02, 0x00, 0x00, 0x00];
    mt.extend_from_slice(&[1, 0, 0, 0, 1, 0, 0, 0]);
    mt.extend_from_slice(&[0x33u8; 16]);
    assert!(matches!(demand_step(&mt, false).unwrap(), DemandStep::Multitransport(_)));
    assert!(matches!(demand_step(&mt, true).unwrap(), DemandStep::Skip));
    let sync = share_data(0x03EA, 1, PDUTYPE2_SYNCHRONIZE, &synchronize(1007));
    assert!(matches!(demand_step(&sync, false).unwrap(), DemandStep::Skip));
    assert!(is_share_data_pdu(&sync));
    assert!(!is_share_data_pdu(&mt));
}

#[test]
fn user_channel_out_of_range_is_refused() {
    assert_eq!(user_channel(&[0x2E, 0x00, 0x00, 0x06]).unwrap(), 1007);
    assert!(matches!(user_channel(&[0x2E, 0x00, 0xFF, 0xFF]), Err(Error::Protocol(_))));
}

#[test]
fn channel_joiner_requests_each_channel_in_order() {
    let (mut j, first) = ChannelJoiner::start(&attach_user_confirm(1007), &[1004, 1005]).unwrap();
    assert_eq!(j.user_id, 1007);
    assert_eq!(j.channels, vec![1007, 1003, 1004, 1005]);
    assert_eq!(first, channel_join_request(1007, 1007));
    let next = j.on_confirm(&channel_join_confirm(1007)).unwrap();
    assert_eq!(next, Some(channel_join_request(1007, 1003)));
    let next = j.on_confirm(&channel_join_confirm(1003)).unwrap();
    assert_eq!(next, Some(channel_join_request(1007, 1004)));
    assert!(j.joined.is_empty());
    let next = j.on_confirm(&channel_join_confirm(1004)).unwrap();
    assert_eq!(next, Some(channel_join_request(1007, 1005)));
    assert_eq!(j.joined, vec![1004]);
    assert_eq!(j.on_confirm(&channel_join_confirm(1005)).unwrap(), None);
    assert_eq!(j.joined, vec![1004, 1005]);
}

#[test]
fn channel_joiner_keeps_its_place_on_a_bad_confirm() {
    let (mut j, _) = ChannelJoiner::start(&attach_user_confirm(1007), &[1004]).unwrap();
    assert!(matches!(j.on_confirm(&[0x2E, 0x00, 0x00, 0x06]), Err(Error::Protocol(_))));
    assert!(matches!(j.on_confirm(&[0x3E]), Err(Error::Short { need: 2, have: 1 })));
    assert_eq!(j.next, 0);
    assert!(matches!(ChannelJoiner::start(&[0x2E, 0x00, 0xFF, 0xFF], &[]), Err(Error::Protocol(_))));
}

#[test]
fn demand_waiter_returns_the_demand_active() {
    let mut w = DemandWaiter { reads: 0 };
    let mut mt = None;
    let sync = server_data_pdu(PDUTYPE2_SYNCHRONIZE, &synchronize(1007));
    assert!(w.on_pdu(&sync, &mut mt).unwrap().is_none());
    assert_eq!(w.reads, 1);
    let d = w.on_pdu(&demand_active_indication(), &mut mt).unwrap().unwrap();
    assert_eq!(d.share_id, 0x0001_03EA);
    assert_eq!(d.capability_sets.len(), 2);
    assert!(mt.is_none());
}

#[test]
fn demand_waiter_gives_up_on_the_last_skipped_pdu() {
    let mut w = DemandWaiter { reads: MAX_SKIP - 1 };
    let mut mt = None;
    let sync = server_data_pdu(PDUTYPE2_SYNCHRONIZE, &synchronize(1007));
    assert!(matches!(w.on_pdu(&sync, &mut mt), Err(Error::Protocol(_))));
    let mut w = DemandWaiter { reads: 0 };
    assert!(matches!(w.on_pdu(&[], &mut mt), Err(Error::Short { need: 1, have: 0 })));
    assert_eq!(w.reads, 0);
}

#[test]
fn finalizer_sends_four_pdus_then_drains_replies() {
    let mut f = Finalizer::new(1007, 0x0001_03EA);
    let pdus = finalization_pdus(1007, 0x0001_03EA);
    for p in &pdus {
        match f.next_action() {
            FinalAction::Send(framed) => assert_eq!(framed, sdr(1007, IO_CHANNEL, p)),
            _ => panic!("expected a PDU to send"),
        }
    }
    for _ in 0..4 {
        assert!(matches!(f.next_action(), FinalAction::Receive));
        f.on_reply(&server_data_pdu(PDUTYPE2_CONTROL, &control(CTRLACTION_COOPERATE, 0, 0))).unwrap();
    }
    assert_eq!(f.seen, 4);
    assert!(matches!(f.next_action(), FinalAction::Done));
}

#[test]
fn finalizer_stops_after_the_skip_bound_and_refuses_non_indications() {
    let mut f = Finalizer::new(1007, 1);
    for _ in 0..4 {
        f.next_action();
    }
    assert!(matches!(f.on_reply(&[0x2E, 0x00]), Err(Error::Protocol(_))));
    assert_eq!(f.reads, 0);
    let mut n = 0;
    while let FinalAction::Receive = f.next_action() {
        let mut ind = sdr(1007, IO_CHANNEL, &[1, 2, 3]);
        ind[0] = 0x68;
        f.on_reply(&ind).unwrap();
        n += 1;
    }
    assert_eq!(n, MAX_SKIP);
    assert_eq!(f.seen, 0);
}
