use bytes::{BufMut, BytesMut};
use ferropipe_rdp::egfx::{
    caps_advertise, decode_surface_bits, frame_acknowledge, frame_header, parse_all, parse_command, GfxCommand,
    Rect16, SurfaceStore, CMDID_CAPSADVERTISE, CMDID_CREATESURFACE, CMDID_DELETESURFACE, CMDID_FRAMEACKNOWLEDGE,
    CMDID_STARTFRAME, CMDID_WIRETOSURFACE_1, CODECID_AVC444, CODECID_UNCOMPRESSED,
};
use ferropipe_rdp::Error;

fn pdu(cmd_id: u16, body: &[u8]) -> Vec<u8> {
    frame_header(cmd_id, body)
}

#[test]
fn parse_create_and_map_surface() {
    let mut body = BytesMut::new();
    body.put_u16_le(7);
    body.put_u16_le(640);
    body.put_u16_le(480);
    body.put_u8(0x20);
    let p = pdu(CMDID_CREATESURFACE, &body);
    let (cmd, n) = parse_command(&p).unwrap();
    assert_eq!(n, p.len());
    assert_eq!(cmd, GfxCommand::CreateSurface { surface_id: 7, width: 640, height: 480, pixel_format: 0x20 });
}

#[test]
fn caps_advertise_and_frame_ack_are_well_formed() {
    let ca = caps_advertise(&[0x0008_0004]);
    let (cmd, _) = parse_command(&ca).unwrap();
    assert!(matches!(cmd, GfxCommand::Other { cmd_id } if cmd_id == CMDID_CAPSADVERTISE));

    let fa = frame_acknowledge(42, 42);
    assert_eq!(u16::from_le_bytes([fa[0], fa[1]]), CMDID_FRAMEACKNOWLEDGE);
    assert_eq!(u32::from_le_bytes([fa[12], fa[13], fa[14], fa[15]]), 42);
}

#[test]
fn uncompressed_wire_to_surface_paints() {
    let mut store = SurfaceStore::new();
    let mut cb = BytesMut::new();
    cb.put_u16_le(1);
    cb.put_u16_le(2);
    cb.put_u16_le(1);
    cb.put_u8(0x20);
    store.apply(&parse_command(&pdu(CMDID_CREATESURFACE, &cb)).unwrap().0).unwrap();

    let mut wb = BytesMut::new();
    wb.put_u16_le(1);
    wb.put_u16_le(CODECID_UNCOMPRESSED);
    wb.put_u8(0x20);
    wb.put_u16_le(0);
    wb.put_u16_le(0);
    wb.put_u16_le(2);
    wb.put_u16_le(1);
    let pixels = [0x00, 0x00, 0xFF, 0xFF, 0x00, 0xFF, 0x00, 0xFF];
    wb.put_u32_le(pixels.len() as u32);
    wb.extend_from_slice(&pixels);
    let (cmd, _) = parse_command(&pdu(CMDID_WIRETOSURFACE_1, &wb)).unwrap();
    let changed = store.apply(&cmd).unwrap();
    assert_eq!(changed, Some(1));
    assert_eq!(store.surface(1).unwrap().pixel(0, 0), (255, 0, 0, 255));
    assert_eq!(store.surface(1).unwrap().pixel(1, 0), (0, 255, 0, 255));
}

#[test]
fn h264_codec_reports_boundary() {
    let dest = Rect16 { left: 0, top: 0, right: 4, bottom: 4 };
    assert!(matches!(decode_surface_bits(CODECID_AVC444, &dest, &[0u8; 64]), Err(Error::Protocol(_))));
}

#[test]
fn delete_surface_forgets_it() {
    let mut store = SurfaceStore::new();
    let mut cb = BytesMut::new();
    cb.put_u16_le(3);
    cb.put_u16_le(2);
    cb.put_u16_le(2);
    cb.put_u8(0x20);
    store.apply(&parse_command(&pdu(CMDID_CREATESURFACE, &cb)).unwrap().0).unwrap();
    assert!(store.surface(3).is_some());
    store.apply(&GfxCommand::DeleteSurface { surface_id: 3 }).unwrap();
    assert!(store.surface(3).is_none());
    let del = pdu(CMDID_DELETESURFACE, &3u16.to_le_bytes());
    assert_eq!(parse_command(&del).unwrap().0, GfxCommand::DeleteSurface { surface_id: 3 });
}

#[test]
fn parse_all_walks_concatenated_commands() {
    let mut stream = pdu(CMDID_STARTFRAME, &[0, 0, 0, 0, 9, 0, 0, 0]);
    stream.extend_from_slice(&pdu(CMDID_DELETESURFACE, &5u16.to_le_bytes()));
    let cmds = parse_all(&stream).unwrap();
    assert_eq!(cmds.len(), 2);
    assert_eq!(cmds[0], GfxCommand::StartFrame { frame_id: 9 });
    assert_eq!(cmds[1], GfxCommand::DeleteSurface { surface_id: 5 });
}

#[test]
fn truncated_command_is_short() {
    let p = pdu(CMDID_CREATESURFACE, &[1, 0, 2, 0, 1, 0, 0x20]);
    assert!(matches!(parse_command(&p[..6]), Err(Error::Short { .. })));
}

#[test]
fn rect_size_is_right_minus_left() {
    let r = Rect16 { left: 2, top: 3, right: 10, bottom: 4 };
    assert_eq!((r.width(), r.height()), (8, 1));
}

#[test]
fn parse_all_of_joined_streams_joins_the_commands() {
    let a = pdu(CMDID_STARTFRAME, &[0, 0, 0, 0, 9, 0, 0, 0]);
    let b = pdu(CMDID_DELETESURFACE, &5u16.to_le_bytes());
    let mut ab = a.clone();
    ab.extend_from_slice(&b);
    let mut joined = parse_all(&a).unwrap();
    joined.extend(parse_all(&b).unwrap());
    assert_eq!(parse_all(&ab).unwrap(), joined);
    assert!(parse_all(&[]).unwrap().is_empty());
    let mut bad = a.clone();
    bad.extend_from_slice(&[1, 2, 3]);
    assert!(matches!(parse_all(&bad), Err(Error::Short { need: 8, have: 3 })));
}
