use bytes::{BufMut, BytesMut};
use ferropipe_rdp::caps::{
    bitmap_caps, capability_set, confirm_active, general_caps, input_caps, parse_demand_active, pointer_caps,
    share_caps, CAPSTYPE_BITMAP, CAPSTYPE_GENERAL,
};
use ferropipe_rdp::info::{client_info, LogonInfo, INFO_AUTOLOGON, SEC_INFO_PKT};
use ferropipe_rdp::input::{
    input_pdu, mouse_event, scancode_event, KBDFLAGS_RELEASE, PTRFLAGS_BUTTON1, PTRFLAGS_DOWN, PTRFLAGS_MOVE,
};
use ferropipe_rdp::pdu::{
    control, parse_share_control, parse_share_data, share_control, share_data, synchronize, CTRLACTION_COOPERATE,
    PDUTYPE2_SYNCHRONIZE, PDUTYPE_CONFIRMACTIVE, PDUTYPE_DATA,
};
use ferropipe_rdp::Error;

#[test]
fn share_control_roundtrips() {
    let body = b"share-control-body";
    let enc = share_control(PDUTYPE_CONFIRMACTIVE, 1002, body);
    let (hdr, inner) = parse_share_control(&enc).unwrap();
    assert_eq!(hdr.pdu_type, PDUTYPE_CONFIRMACTIVE);
    assert_eq!(hdr.pdu_source, 1002);
    assert_eq!(inner, body);
}

#[test]
fn share_data_wraps_and_unwraps() {
    let inner = synchronize(1002);
    let enc = share_data(1007, 0x103EA, PDUTYPE2_SYNCHRONIZE, &inner);
    let (hdr, body) = parse_share_control(&enc).unwrap();
    assert_eq!(hdr.pdu_type, PDUTYPE_DATA);
    let (pdu_type2, data) = parse_share_data(body).unwrap();
    assert_eq!(pdu_type2, PDUTYPE2_SYNCHRONIZE);
    assert_eq!(data, &inner[..]);
}

#[test]
fn control_cooperate_is_well_formed() {
    let c = control(CTRLACTION_COOPERATE, 0, 0);
    assert_eq!(u16::from_le_bytes([c[0], c[1]]), CTRLACTION_COOPERATE);
    assert_eq!(c.len(), 8);
}

#[test]
fn synchronize_targets_user() {
    let s = synchronize(0x03EA);
    assert_eq!(u16::from_le_bytes([s[0], s[1]]), 1);
    assert_eq!(u16::from_le_bytes([s[2], s[3]]), 0x03EA);
}

#[test]
fn share_control_rejects_a_short_buffer() {
    assert!(matches!(parse_share_control(&[1, 0, 0]), Err(Error::Short { need: 6, have: 3 })));
    assert!(matches!(parse_share_data(&[0u8; 11]), Err(Error::Short { need: 12, have: 11 })));
}

#[test]
fn capability_set_framing() {
    let cs = capability_set(CAPSTYPE_GENERAL, &[1, 2, 3, 4]);
    assert_eq!(u16::from_le_bytes([cs[0], cs[1]]), CAPSTYPE_GENERAL);
    assert_eq!(u16::from_le_bytes([cs[2], cs[3]]) as usize, cs.len());
}

#[test]
fn confirm_active_is_valid_share_control() {
    let caps = [general_caps(), bitmap_caps(1024, 768), pointer_caps(), input_caps(0x409), share_caps()];
    let pdu = confirm_active(1007, 0x0001_03EA, &caps);
    let (hdr, _body) = parse_share_control(&pdu).unwrap();
    assert_eq!(hdr.pdu_type, PDUTYPE_CONFIRMACTIVE);
    assert_eq!(hdr.pdu_source, 1007);
}

#[test]
fn demand_active_roundtrips_through_parse() {
    let caps = [general_caps(), bitmap_caps(800, 600)];
    let combined: Vec<u8> = caps.concat();
    let mut body = BytesMut::new();
    body.put_u32_le(0x0001_03EA);
    body.put_u16_le(6);
    body.put_u16_le((combined.len() + 4) as u16);
    body.extend_from_slice(b"RDP\0\0\0");
    body.put_u16_le(2);
    body.put_u16_le(0);
    body.extend_from_slice(&combined);

    let da = parse_demand_active(&body).unwrap();
    assert_eq!(da.share_id, 0x0001_03EA);
    assert_eq!(da.capability_sets.len(), 2);
    assert_eq!(da.capability_sets[0].0, CAPSTYPE_GENERAL);
    assert_eq!(da.capability_sets[1].0, CAPSTYPE_BITMAP);
}

#[test]
fn demand_active_rejects_a_truncated_body() {
    assert!(matches!(parse_demand_active(&[0u8; 7]), Err(Error::Short { need: 8, have: 7 })));
}

#[test]
fn client_info_starts_with_security_header() {
    let info = LogonInfo { domain: "DOM".into(), username: "nicat".into(), ..Default::default() };
    let pdu = client_info(&info, false);
    assert_eq!(u16::from_le_bytes([pdu[0], pdu[1]]), SEC_INFO_PKT);
    assert_eq!(u16::from_le_bytes([pdu[2], pdu[3]]), 0);
}

#[test]
fn cb_fields_exclude_null_terminator() {
    let info = LogonInfo { username: "ab".into(), ..Default::default() };
    let pdu = client_info(&info, false);
    let cb_domain = u16::from_le_bytes([pdu[12], pdu[13]]);
    let cb_username = u16::from_le_bytes([pdu[14], pdu[15]]);
    assert_eq!(cb_domain, 0);
    assert_eq!(cb_username, 4);
}

#[test]
fn autologon_flag_only_with_password() {
    let with_pw = LogonInfo { username: "u".into(), password: "p".into(), ..Default::default() };
    let pdu = client_info(&with_pw, true);
    let flags = u32::from_le_bytes([pdu[8], pdu[9], pdu[10], pdu[11]]);
    assert!(flags & INFO_AUTOLOGON != 0);

    let no_pw = LogonInfo { username: "u".into(), ..Default::default() };
    let pdu = client_info(&no_pw, true);
    let flags = u32::from_le_bytes([pdu[8], pdu[9], pdu[10], pdu[11]]);
    assert!(flags & INFO_AUTOLOGON == 0);
}

#[test]
fn scancode_press_and_release() {
    let press = scancode_event(0x1E, true, false);
    assert_eq!(press, vec![0x00, 0x1E]);
    let release = scancode_event(0x1E, false, false);
    assert_eq!(release, vec![KBDFLAGS_RELEASE, 0x1E]);
}

#[test]
fn mouse_move_event_layout() {
    let ev = mouse_event(PTRFLAGS_MOVE, 100, 200);
    assert_eq!(ev[0], 0x20);
    assert_eq!(u16::from_le_bytes([ev[1], ev[2]]), PTRFLAGS_MOVE);
    assert_eq!(u16::from_le_bytes([ev[3], ev[4]]), 100);
    assert_eq!(u16::from_le_bytes([ev[5], ev[6]]), 200);
}

#[test]
fn input_pdu_wraps_events_with_count() {
    let events = vec![scancode_event(0x1E, true, false), mouse_event(PTRFLAGS_MOVE, 1, 2)];
    let pdu = input_pdu(&events);
    assert_eq!(pdu[0] >> 2 & 0x0f, 2);
    assert_eq!(pdu[0] & 0x03, 0);
    assert_eq!(pdu[1] as usize, pdu.len());
}

#[test]
fn left_click_is_down_plus_button1() {
    let down = mouse_event(PTRFLAGS_DOWN | PTRFLAGS_BUTTON1, 5, 6);
    let flags = u16::from_le_bytes([down[1], down[2]]);
    assert!(flags & PTRFLAGS_DOWN != 0 && flags & PTRFLAGS_BUTTON1 != 0);
}

#[test]
fn demand_active_with_a_bad_capability_length_is_a_protocol_error() {
    let mut body = BytesMut::new();
    body.put_u32_le(1);
    body.put_u16_le(0);
    body.put_u16_le(0);
    body.put_u16_le(1);
    body.put_u16_le(0);
    body.put_u16_le(CAPSTYPE_GENERAL);
    body.put_u16_le(2);
    assert!(matches!(parse_demand_active(&body), Err(Error::Protocol(_))));
}
