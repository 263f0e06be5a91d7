use bytes::{BufMut, BytesMut};
use ferropipe_rdp::graphics::bitmap::{apply, parse_bitmap_update, to_rgba};
use ferropipe_rdp::graphics::fastpath::{
    parse_output_pdu, FastPathUpdate, UPDATETYPE_BITMAP, UPDATETYPE_POINTER, UPDATETYPE_PTR_NULL,
    UPDATETYPE_PTR_POSITION, UPDATETYPE_SYNCHRONIZE,
};
use ferropipe_rdp::graphics::framebuffer::Framebuffer;
use ferropipe_rdp::graphics::planar::{self, NA_FLAG, RLE_FLAG};
use ferropipe_rdp::graphics::pointer::{decode_color_pointer, Cursor};
use ferropipe_rdp::graphics::rle::{decompress, overruns, BLACK, WHITE};
use ferropipe_rdp::graphics::update::Display;
use ferropipe_rdp::Error;

#[test]
fn color_run_fills_pixels() {
    let data = [0x64, 0x00, 0xF8];
    let out = decompress(&data, 4, 1, 16).unwrap();
    assert_eq!(out, [0x00, 0xF8, 0x00, 0xF8, 0x00, 0xF8, 0x00, 0xF8]);
}

#[test]
fn color_image_is_raw_copy() {
    let data = [0x82, 0x00, 0xF8, 0x1F, 0x00];
    let out = decompress(&data, 2, 1, 16).unwrap();
    assert_eq!(out, [0x00, 0xF8, 0x1F, 0x00]);
}

#[test]
fn black_and_white_single_pixels() {
    let data = [WHITE, BLACK];
    let out = decompress(&data, 2, 1, 8).unwrap();
    assert_eq!(out, [0xFF, 0x00]);
}

#[test]
fn background_run_on_first_line_is_black() {
    let data = [0x03];
    let out = decompress(&data, 3, 1, 8).unwrap();
    assert_eq!(out, [0, 0, 0]);
}

#[test]
fn foreground_run_first_line_writes_fgpel() {
    let data = [0x22];
    let out = decompress(&data, 2, 1, 8).unwrap();
    assert_eq!(out, [0xFF, 0xFF]);
}

#[test]
fn fgbg_second_line_xors_against_row_above() {
    let mut data = vec![0x88];
    data.extend_from_slice(&[1, 2, 3, 4, 5, 6, 7, 8]);
    data.push(0x41);
    data.push(0x0F);
    let out = decompress(&data, 8, 2, 8).unwrap();
    assert_eq!(&out[8..16], &[1 ^ 0xFF, 2 ^ 0xFF, 3 ^ 0xFF, 4 ^ 0xFF, 5, 6, 7, 8]);
}

#[test]
fn rle_run_past_the_buffer_is_an_overrun() {
    // A COLOR_RUN of 4 pixels into a 2-pixel image.
    let data = [0x64, 0x00, 0xF8];
    assert!(overruns(&data, 2, 1, 16));
    assert!(!overruns(&data, 4, 1, 16));
}

#[test]
fn rle_truncated_color_image_is_short() {
    let data = [0x82, 0x00, 0xF8];
    assert!(matches!(decompress(&data, 2, 1, 16), Err(Error::Short { .. })));
}

#[test]
fn uncompressed_shortcut_decodes_bgra() {
    let data = [0x00, 0x00, 0x00, 0xFF, 0xFF];
    let rgba = planar::decode(&data, 1, 1).unwrap();
    assert_eq!(rgba, [255, 0, 0, 255]);
}

#[test]
fn raw_planes_no_alpha() {
    let mut data = vec![NA_FLAG];
    data.extend_from_slice(&[10, 20]);
    data.extend_from_slice(&[30, 40]);
    data.extend_from_slice(&[50, 60]);
    let rgba = planar::decode(&data, 2, 1).unwrap();
    assert_eq!(&rgba[..4], &[10, 30, 50, 255]);
    assert_eq!(&rgba[4..8], &[20, 40, 60, 255]);
}

#[test]
fn raw_planes_with_alpha() {
    let mut data = vec![0x00 | RLE_FLAG & 0];
    data.clear();
    data.push(NA_FLAG);
    data.extend_from_slice(&[1]);
    data.extend_from_slice(&[2]);
    data.extend_from_slice(&[3]);
    let rgba = planar::decode(&data, 1, 1).unwrap();
    assert_eq!(rgba, [1, 2, 3, 255]);
}

#[test]
fn rle_plane_run_and_delta() {
    fn plane_bytes() -> Vec<u8> {
        vec![0x20, 5, 5, 0x20, 0, 0]
    }
    let mut data = vec![RLE_FLAG | NA_FLAG];
    data.extend(plane_bytes());
    data.extend(plane_bytes());
    data.extend(plane_bytes());
    let rgba = planar::decode(&data, 2, 2).unwrap();
    for px in rgba.chunks(4) {
        assert_eq!(px, &[5, 5, 5, 255]);
    }
}

#[test]
fn planar_raw_planes_too_short_are_refused() {
    let data = [NA_FLAG, 10, 20, 30];
    assert!(planar::decode(&data, 2, 1).is_err());
}

#[test]
fn blit_places_pixels_at_offset() {
    let mut fb = Framebuffer::new(4, 4);
    let red = [255u8, 0, 0, 255].repeat(4);
    fb.blit_rgba(1, 1, 2, 2, &red);
    assert_eq!(fb.pixel(1, 1), (255, 0, 0, 255));
    assert_eq!(fb.pixel(2, 2), (255, 0, 0, 255));
    assert_eq!(fb.pixel(0, 0), (0, 0, 0, 0));
}

#[test]
fn blit_clips_at_edges() {
    let mut fb = Framebuffer::new(3, 3);
    let green = [0u8, 255, 0, 255].repeat(4);
    fb.blit_rgba(2, 2, 2, 2, &green);
    assert_eq!(fb.pixel(2, 2), (0, 255, 0, 255));
}

#[test]
fn blit_entirely_outside_changes_nothing() {
    let mut fb = Framebuffer::new(2, 2);
    let before = fb.pixels().to_vec();
    fb.blit_rgba(5, 5, 1, 1, &[1, 2, 3, 4]);
    assert_eq!(fb.pixels(), &before[..]);
    assert_eq!((fb.width(), fb.height()), (2, 2));
}

fn make_rect_bytes(w: u16, h: u16, bpp: u16, pixels: &[u8]) -> Vec<u8> {
    let mut b = BytesMut::new();
    b.put_u16_le(1);
    b.put_u16_le(0);
    b.put_u16_le(0);
    b.put_u16_le(w - 1);
    b.put_u16_le(h - 1);
    b.put_u16_le(w);
    b.put_u16_le(h);
    b.put_u16_le(bpp);
    b.put_u16_le(0);
    b.put_u16_le(pixels.len() as u16);
    b.extend_from_slice(pixels);
    b.to_vec()
}

#[test]
fn parses_uncompressed_rect() {
    let pixels = [0x00, 0xF8, 0x1F, 0x00];
    let bytes = make_rect_bytes(2, 1, 16, &pixels);
    let rects = parse_bitmap_update(&bytes).unwrap();
    assert_eq!(rects.len(), 1);
    assert_eq!(rects[0].width, 2);
    assert!(!rects[0].compressed);
}

#[test]
fn rgb565_converts_to_rgba() {
    let pixels = [0x00, 0xF8];
    let rgba = to_rgba(&pixels, 1, 1, 16).unwrap();
    assert_eq!(&rgba[..4], &[255, 0, 0, 255]);
}

#[test]
fn bgr24_converts_and_flips_rows() {
    let pixels = [0x00, 0xFF, 0x00, 0x00, 0x00, 0xFF];
    let rgba = to_rgba(&pixels, 1, 2, 24).unwrap();
    assert_eq!(&rgba[..4], &[255, 0, 0, 255]);
    assert_eq!(&rgba[4..8], &[0, 255, 0, 255]);
}

#[test]
fn to_rgba_refuses_an_unknown_depth() {
    assert!(matches!(to_rgba(&[0, 0], 1, 1, 12), Err(Error::Protocol(_))));
}

#[test]
fn apply_compressed_rle_rect() {
    let rle = [0x64u8, 0x00, 0xF8];
    let mut b = BytesMut::new();
    b.put_u16_le(1);
    b.put_u16_le(0);
    b.put_u16_le(0);
    b.put_u16_le(3);
    b.put_u16_le(0);
    b.put_u16_le(4);
    b.put_u16_le(1);
    b.put_u16_le(16);
    b.put_u16_le(0x0001 | 0x0400);
    b.put_u16_le(rle.len() as u16);
    b.extend_from_slice(&rle);

    let rects = parse_bitmap_update(&b).unwrap();
    assert!(rects[0].compressed);
    let mut fb = Framebuffer::new(4, 1);
    apply(&mut fb, &rects[0]).unwrap();
    for x in 0..4 {
        assert_eq!(fb.pixel(x, 0), (255, 0, 0, 255));
    }
}

#[test]
fn apply_uncompressed_paints_framebuffer() {
    let mut fb = Framebuffer::new(4, 4);
    let pixels = [0x00, 0xF8];
    let bytes = make_rect_bytes(1, 1, 16, &pixels);
    let rect = &parse_bitmap_update(&bytes).unwrap()[0];
    apply(&mut fb, rect).unwrap();
    assert_eq!(fb.pixel(0, 0), (255, 0, 0, 255));
}

fn pad(n: usize, align: usize) -> usize {
    (n + align - 1) / align * align
}

#[test]
fn decodes_a_2x2_color_pointer() {
    let mut xor = Vec::new();
    xor.extend_from_slice(&[0x00, 0x00, 0xFF, 0x00, 0x00, 0xFF]);
    xor.extend_from_slice(&[0x00, 0xFF, 0x00, 0x00, 0xFF, 0x00]);
    let and = vec![0x00, 0x00, 0x00, 0x00];

    let mut b = BytesMut::new();
    b.put_u16_le(0);
    b.put_u16_le(1);
    b.put_u16_le(1);
    b.put_u16_le(2);
    b.put_u16_le(2);
    b.put_u16_le(and.len() as u16);
    b.put_u16_le(xor.len() as u16);
    b.extend_from_slice(&xor);
    b.extend_from_slice(&and);

    let cur = decode_color_pointer(&b).unwrap();
    assert_eq!((cur.width, cur.height), (2, 2));
    assert_eq!(cur.hotspot_x, 1);
    assert_eq!(&cur.rgba[..4], &[0, 255, 0, 255]);
    let bl = 2 * 4;
    assert_eq!(&cur.rgba[bl..bl + 4], &[255, 0, 0, 255]);
}

#[test]
fn and_mask_makes_pixels_transparent() {
    let xor = vec![0u8; pad(8 * 3, 2)];
    let and = vec![0xFF, 0x00];
    let mut b = BytesMut::new();
    b.put_u16_le(0);
    b.put_u16_le(0);
    b.put_u16_le(0);
    b.put_u16_le(8);
    b.put_u16_le(1);
    b.put_u16_le(and.len() as u16);
    b.put_u16_le(xor.len() as u16);
    b.extend_from_slice(&xor);
    b.extend_from_slice(&and);
    let cur = decode_color_pointer(&b).unwrap();
    assert!(cur.rgba.chunks(4).all(|p| p[3] == 0), "all pixels transparent");
}

fn wrap(update_code: u8, data: &[u8]) -> Vec<u8> {
    let mut update = Vec::new();
    update.push(update_code);
    update.extend_from_slice(&(data.len() as u16).to_le_bytes());
    update.extend_from_slice(data);

    let mut pdu = vec![0u8];
    let total = 2 + update.len();
    pdu.push(total as u8);
    pdu.extend_from_slice(&update);
    pdu
}

#[test]
fn parses_a_single_bitmap_update() {
    let pdu = wrap(UPDATETYPE_BITMAP, b"bitmap-update-bytes");
    let updates = parse_output_pdu(&pdu).unwrap();
    assert_eq!(updates.len(), 1);
    assert_eq!(updates[0].update_code, UPDATETYPE_BITMAP);
    assert_eq!(updates[0].data, b"bitmap-update-bytes");
}

#[test]
fn parses_multiple_updates() {
    let mut update = Vec::new();
    for (code, data) in [(UPDATETYPE_SYNCHRONIZE, &b"\x00\x00"[..]), (UPDATETYPE_POINTER, &b"cursor"[..])] {
        update.push(code);
        update.extend_from_slice(&(data.len() as u16).to_le_bytes());
        update.extend_from_slice(data);
    }
    let mut pdu = vec![0u8];
    pdu.push((2 + update.len()) as u8);
    pdu.extend_from_slice(&update);

    let updates = parse_output_pdu(&pdu).unwrap();
    assert_eq!(updates.len(), 2);
    assert_eq!(updates[0].update_code, UPDATETYPE_SYNCHRONIZE);
    assert_eq!(updates[1].update_code, UPDATETYPE_POINTER);
}

#[test]
fn two_byte_length_form() {
    let big = vec![0xABu8; 300];
    let pdu = wrap(UPDATETYPE_BITMAP, &big);
    let mut update = vec![UPDATETYPE_BITMAP];
    update.extend_from_slice(&(big.len() as u16).to_le_bytes());
    update.extend_from_slice(&big);
    let total = 1 + 2 + update.len();
    let mut pdu2 = vec![0u8];
    pdu2.push(0x80 | (total >> 8) as u8);
    pdu2.push((total & 0xff) as u8);
    pdu2.extend_from_slice(&update);
    let _ = pdu;

    let updates = parse_output_pdu(&pdu2).unwrap();
    assert_eq!(updates[0].data.len(), 300);
}

#[test]
fn rejects_non_fastpath_action() {
    assert!(matches!(parse_output_pdu(&[0x03, 0x02]), Err(Error::Protocol(_))));
}

fn bitmap_update_bytes() -> Vec<u8> {
    let mut b = BytesMut::new();
    b.put_u16_le(1);
    b.put_u16_le(2);
    b.put_u16_le(2);
    b.put_u16_le(2);
    b.put_u16_le(2);
    b.put_u16_le(1);
    b.put_u16_le(1);
    b.put_u16_le(16);
    b.put_u16_le(0);
    b.put_u16_le(2);
    b.put_u16_le(0xF800);
    b.to_vec()
}

#[test]
fn bitmap_update_paints_framebuffer() {
    let mut d = Display::new(8, 8);
    let update = FastPathUpdate { update_code: UPDATETYPE_BITMAP, fragmentation: 0, data: bitmap_update_bytes() };
    d.apply(&update).unwrap();
    assert!(d.dirty);
    assert_eq!(d.framebuffer.pixel(2, 2), (255, 0, 0, 255));
}

#[test]
fn ptr_position_updates_cursor_pos() {
    let mut d = Display::new(8, 8);
    let mut data = Vec::new();
    data.extend_from_slice(&10u16.to_le_bytes());
    data.extend_from_slice(&20u16.to_le_bytes());
    let update = FastPathUpdate { update_code: UPDATETYPE_PTR_POSITION, fragmentation: 0, data };
    d.apply(&update).unwrap();
    assert_eq!(d.cursor_pos, (10, 20));
}

#[test]
fn ptr_null_clears_cursor() {
    let mut d = Display::new(8, 8);
    d.cursor = Some(Cursor { width: 1, height: 1, hotspot_x: 0, hotspot_y: 0, rgba: vec![0; 4] });
    let update = FastPathUpdate { update_code: UPDATETYPE_PTR_NULL, fragmentation: 0, data: vec![] };
    d.apply(&update).unwrap();
    assert!(d.cursor.is_none());
}

#[test]
fn display_applies_updates_in_order() {
    let mut d = Display::new(8, 8);
    let mut pos = Vec::new();
    pos.extend_from_slice(&3u16.to_le_bytes());
    pos.extend_from_slice(&4u16.to_le_bytes());
    let updates = vec![
        FastPathUpdate { update_code: UPDATETYPE_BITMAP, fragmentation: 0, data: bitmap_update_bytes() },
        FastPathUpdate { update_code: UPDATETYPE_PTR_POSITION, fragmentation: 0, data: pos },
    ];
    assert!(!updates.iter().any(Display::would_overrun));
    d.apply_all(&updates).unwrap();
    assert_eq!(d.framebuffer.pixel(2, 2), (255, 0, 0, 255));
    assert_eq!(d.cursor_pos, (3, 4));
}

#[test]
fn new_pointer_at_24_bpp_is_the_color_pointer() {
    let xor = [0x00u8, 0x00, 0xFF, 0x00, 0x00, 0xFF, 0x00, 0xFF, 0x00, 0x00, 0xFF, 0x00];
    let and = [0x80u8, 0x00, 0x00, 0x00];
    let mut b = BytesMut::new();
    for v in [0u16, 1, 1, 2, 2, and.len() as u16, xor.len() as u16] {
        b.put_u16_le(v);
    }
    b.extend_from_slice(&xor);
    b.extend_from_slice(&and);
    let mut np = vec![24u8, 0];
    np.extend_from_slice(&b);
    let a = ferropipe_rdp::graphics::pointer::decode_new_pointer(&np).unwrap();
    let c = decode_color_pointer(&b).unwrap();
    assert_eq!(a, c);
    assert_eq!(a.rgba.len(), 2 * 2 * 4);
    // The AND bit of source row 0 (output row 1), column 0 is set: transparent.
    assert_eq!(a.rgba[4 * 2 + 3], 0);
    assert_eq!(a.rgba[3], 255);
    assert_eq!(a.rgba[7], 255);
}
