//! Pointer (cursor) updates. The server sends the mouse cursor shape as a
//! color (XOR) bitmap plus a 1-bpp AND transparency mask; this decodes it into
//! a top-down RGBA image the UI can draw.

use vstd::prelude::*;
use crate::wire::{get_le16, le16, lemma_le16, read_u16_le, slice_range};
use crate::{is_protocol, is_short, Error, Result};

verus! {

/// A decoded cursor: RGBA image plus the hot spot (click point).
#[derive(Clone, Debug, PartialEq, Eq)]
pub struct Cursor {
    pub width: usize,
    pub height: usize,
    pub hotspot_x: u16,
    pub hotspot_y: u16,
    pub rgba: Vec<u8>,
}

/// `n` rounded up to a multiple of 2.
pub open spec fn pad2(n: int) -> int {
    ((n + 1) / 2) * 2
}

fn pad2_exec(n: usize) -> (r: usize)
    requires
        n <= 0x10_0000,
    ensures
        r == pad2(n as int),
{
    ((n + 1) / 2) * 2
}

/// `s[i]`, or `d` where `i` is out of range.
pub open spec fn byte_or(s: Seq<u8>, i: int, d: u8) -> u8 {
    if 0 <= i < s.len() {
        s[i]
    } else {
        d
    }
}

fn get_or(s: &[u8], i: u64, d: u8) -> (r: u8)
    ensures
        r == byte_or(s@, i as int, d),
{
    if i < s.len() as u64 {
        s[i as usize]
    } else {
        d
    }
}

/// Bytes per pixel of a cursor XOR mask (15, 16, 24 or 32 bpp).
pub open spec fn cursor_bytes_pp(bpp: u16) -> Option<nat> {
    if bpp == 24 {
        Some(3)
    } else if bpp == 32 {
        Some(4)
    } else if bpp == 16 || bpp == 15 {
        Some(2)
    } else {
        None
    }
}

/// The geometry a cursor's masks are read with.
pub struct MaskGeometry {
    pub width: nat,
    pub height: nat,
    pub bpp: u16,
    pub bytes_pp: nat,
    pub xor_stride: int,
    pub and_stride: int,
}

/// The geometry of a `width × height` cursor with `bytes_pp`-byte XOR pixels:
/// both masks have rows padded to 2 bytes.
pub open spec fn geometry(width: nat, height: nat, bpp: u16, bytes_pp: nat) -> MaskGeometry {
    MaskGeometry {
        width,
        height,
        bpp,
        bytes_pp,
        xor_stride: pad2((width * bytes_pp) as int),
        and_stride: pad2(((width + 7) / 8) as int),
    }
}

/// The RGBA of cursor pixel `(x, y)`: the color from the bottom-up XOR mask
/// (BGR for 24/32 bpp, 5-6-5 packed otherwise; missing bytes read as 0), and
/// transparent where the AND mask bit is set (missing bytes read as 0xFF).
pub open spec fn cursor_px(xor: Seq<u8>, and: Seq<u8>, g: MaskGeometry, x: int, y: int) -> Seq<u8> {
    let src_row = g.height - 1 - y;
    let xo = src_row * g.xor_stride + x * g.bytes_pp;
    let b0 = byte_or(xor, xo, 0);
    let b1 = byte_or(xor, xo + 1, 0);
    let b2 = byte_or(xor, xo + 2, 0);
    let and_byte = byte_or(and, src_row * g.and_stride + x / 8, 0xff);
    let alpha: u8 = if (and_byte >> ((7 - x % 8) as u8)) & 1 == 1 { 0 } else { 255 };
    if g.bpp == 24 || g.bpp == 32 {
        seq![b2, b1, b0, alpha]
    } else {
        let p = (b0 + b1 * 256) as u16;
        seq![
            (((p >> 11) & 0x1f) * 255 / 31) as u8,
            (((p >> 5) & 0x3f) * 255 / 63) as u8,
            ((p & 0x1f) * 255 / 31) as u8,
            alpha,
        ]
    }
}

/// Columns `0..c` of cursor row `y`.
pub open spec fn cursor_row(xor: Seq<u8>, and: Seq<u8>, g: MaskGeometry, y: int, c: nat) -> Seq<u8>
    decreases c,
{
    if c == 0 {
        Seq::empty()
    } else {
        cursor_row(xor, and, g, y, (c - 1) as nat) + cursor_px(xor, and, g, c - 1, y)
    }
}

/// Cursor rows `0..r`, top-down.
pub open spec fn cursor_rows(xor: Seq<u8>, and: Seq<u8>, g: MaskGeometry, r: nat) -> Seq<u8>
    decreases r,
{
    if r == 0 {
        Seq::empty()
    } else {
        cursor_rows(xor, and, g, (r - 1) as nat) + cursor_row(xor, and, g, r - 1, g.width)
    }
}

/// The contents of a cursor.
pub struct CursorView {
    pub width: nat,
    pub height: nat,
    pub hotspot_x: u16,
    pub hotspot_y: u16,
    pub rgba: Seq<u8>,
}

impl View for Cursor {
    type V = CursorView;

    open spec fn view(&self) -> CursorView {
        CursorView {
            width: self.width as nat,
            height: self.height as nat,
            hotspot_x: self.hotspot_x,
            hotspot_y: self.hotspot_y,
            rgba: self.rgba@,
        }
    }
}

/// The cursor the masks describe, if the bpp is supported.
pub open spec fn spec_decode_masks(width: nat, height: nat, hx: u16, hy: u16, xor: Seq<u8>, and: Seq<u8>, bpp: u16) -> Option<CursorView> {
    match cursor_bytes_pp(bpp) {
        None => None,
        Some(bp) => {
            let g = geometry(width, height, bpp, bp);
            Some(CursorView { width, height, hotspot_x: hx, hotspot_y: hy, rgba: cursor_rows(xor, and, g, height) })
        },
    }
}

fn cursor_pixel(xor: &[u8], and: &[u8], height: usize, xor_stride: usize, and_stride: usize, bytes_pp: usize, bpp: u16, x: usize, y: usize, Ghost(g): Ghost<MaskGeometry>) -> (r: [u8; 4])
    requires
        g.height == height,
        g.bpp == bpp,
        g.bytes_pp == bytes_pp,
        g.xor_stride == xor_stride,
        g.and_stride == and_stride,
        y < height,
        x < 0x1_0000,
        height <= 0x1_0000,
        xor_stride <= 0x4_0000,
        and_stride <= 0x4_0000,
        bytes_pp <= 4,
    ensures
        r@ == cursor_px(xor@, and@, g, x as int, y as int),
{
    let src_row = (height - 1 - y) as u64;
    assert(src_row * xor_stride <= 0x1_0000 * 0x4_0000 && src_row * and_stride <= 0x1_0000 * 0x4_0000 && x * bytes_pp
        <= 0x1_0000 * 4) by (nonlinear_arith)
        requires
            src_row < 0x1_0000,
            xor_stride <= 0x4_0000,
            and_stride <= 0x4_0000,
            x < 0x1_0000,
            bytes_pp <= 4,
    ;
    let xo = src_row * (xor_stride as u64) + (x as u64) * (bytes_pp as u64);
    let b0 = get_or(xor, xo, 0);
    let b1 = get_or(xor, xo + 1, 0);
    let b2 = get_or(xor, xo + 2, 0);
    let and_byte = get_or(and, src_row * (and_stride as u64) + (x as u64) / 8, 0xff);
    let alpha: u8 = if (and_byte >> ((7 - x % 8) as u8)) & 1 == 1 { 0 } else { 255 };
    let q = if bpp == 24 || bpp == 32 {
        [b2, b1, b0, alpha]
    } else {
        let p = (b0 as u16) + (b1 as u16) * 256;
        assert((p >> 11) & 0x1f <= 0x1f && (p >> 5) & 0x3f <= 0x3f && p & 0x1f <= 0x1f) by (bit_vector);
        [(((p >> 11) & 0x1f) * 255 / 31) as u8, (((p >> 5) & 0x3f) * 255 / 63) as u8, ((p & 0x1f) * 255 / 31) as u8, alpha]
    };
    assert(q@ =~= cursor_px(xor@, and@, g, x as int, y as int));
    q
}

/// Decode a cursor from its XOR and AND masks.
fn decode_masks(width: usize, height: usize, hotspot_x: u16, hotspot_y: u16, xor_mask: &[u8], and_mask: &[u8], xor_bpp: u16) -> (r: Result<Cursor>)
    requires
        width <= 0xFFFF,
        height <= 0xFFFF,
    ensures
        spec_decode_masks(width as nat, height as nat, hotspot_x, hotspot_y, xor_mask@, and_mask@, xor_bpp) matches Some(c)
            ==> (r matches Ok(v) && v@ == c),
        spec_decode_masks(width as nat, height as nat, hotspot_x, hotspot_y, xor_mask@, and_mask@, xor_bpp) is None
            ==> is_protocol(r),
{
    let bytes_pp: usize = if xor_bpp == 24 {
        3
    } else if xor_bpp == 32 {
        4
    } else if xor_bpp == 16 || xor_bpp == 15 {
        2
    } else {
        return Err(Error::Protocol("unsupported cursor bpp"));
    };
    let xor_stride = pad2_exec(width * bytes_pp);
    let and_stride = pad2_exec((width + 7) / 8);
    let ghost g = geometry(width as nat, height as nat, xor_bpp, bytes_pp as nat);
    let mut rgba: Vec<u8> = Vec::new();
    let mut y: usize = 0;
    while y < height
        invariant
            y <= height <= 0xFFFF,
            width <= 0xFFFF,
            g == geometry(width as nat, height as nat, xor_bpp, bytes_pp as nat),
            xor_stride == g.xor_stride,
            and_stride == g.and_stride,
            bytes_pp == g.bytes_pp,
            1 <= bytes_pp <= 4,
            cursor_bytes_pp(xor_bpp) == Some(bytes_pp as nat),
            xor_stride <= 0x4_0000,
            and_stride <= 0x4_0000,
            rgba@ == cursor_rows(xor_mask@, and_mask@, g, y as nat),
        decreases height - y,
    {
        let ghost prefix = rgba@;
        let mut x: usize = 0;
        while x < width
            invariant
                y < height <= 0xFFFF,
                x <= width <= 0xFFFF,
                g == geometry(width as nat, height as nat, xor_bpp, bytes_pp as nat),
                xor_stride == g.xor_stride,
                and_stride == g.and_stride,
                bytes_pp == g.bytes_pp,
                1 <= bytes_pp <= 4,
                xor_stride <= 0x4_0000,
                and_stride <= 0x4_0000,
                rgba@ == prefix + cursor_row(xor_mask@, and_mask@, g, y as int, x as nat),
            decreases width - x,
        {
            let q = cursor_pixel(xor_mask, and_mask, height, xor_stride, and_stride, bytes_pp, xor_bpp, x, y, Ghost(g));
            rgba.push(q[0]);
            rgba.push(q[1]);
            rgba.push(q[2]);
            rgba.push(q[3]);
            proof {
                assert(rgba@ =~= prefix + cursor_row(xor_mask@, and_mask@, g, y as int, x as nat + 1));
            }
            x = x + 1;
        }
        y = y + 1;
    }
    Ok(Cursor { width, height, hotspot_x, hotspot_y, rgba })
}

/// The header fields of a TS_COLORPOINTERATTRIBUTE and its two masks, or the
/// bytes needed and available when it is cut short.
pub open spec fn spec_color_pointer_parts(buf: Seq<u8>) -> core::result::Result<(u16, u16, u16, u16, Seq<u8>, Seq<u8>), (int, int)> {
    if buf.len() < 14 {
        Err((14, buf.len() as int))
    } else {
        let len_and = get_le16(buf, 10) as int;
        let len_xor = get_le16(buf, 12) as int;
        let rest = buf.subrange(14, buf.len() as int);
        if rest.len() < len_xor + len_and {
            Err((len_xor + len_and, rest.len() as int))
        } else {
            Ok(
                (
                    get_le16(buf, 2),
                    get_le16(buf, 4),
                    get_le16(buf, 6),
                    get_le16(buf, 8),
                    rest.subrange(0, len_xor),
                    rest.subrange(len_xor, len_xor + len_and),
                ),
            )
        }
    }
}

/// The cursor a color pointer (or a new pointer with XOR bpp `bpp`) holds.
pub open spec fn spec_pointer(buf: Seq<u8>, bpp: u16) -> core::result::Result<Option<CursorView>, (int, int)> {
    match spec_color_pointer_parts(buf) {
        Err(e) => Err(e),
        Ok((hx, hy, w, h, xor, and)) => Ok(spec_decode_masks(w as nat, h as nat, hx, hy, xor, and, bpp)),
    }
}

fn color_pointer(buf: &[u8], xor_bpp: u16) -> (r: Result<Cursor>)
    ensures
        spec_pointer(buf@, xor_bpp) matches Err((n, h)) ==> is_short(r, n, h),
        spec_pointer(buf@, xor_bpp) matches Ok(Some(c)) ==> (r matches Ok(v) && v@ == c),
        spec_pointer(buf@, xor_bpp) matches Ok(None) ==> is_protocol(r),
{
    if buf.len() < 14 {
        return Err(Error::Short { need: 14, have: buf.len() });
    }
    let hotspot_x = read_u16_le(buf, 2);
    let hotspot_y = read_u16_le(buf, 4);
    let width = read_u16_le(buf, 6) as usize;
    let height = read_u16_le(buf, 8) as usize;
    let len_and = read_u16_le(buf, 10) as usize;
    let len_xor = read_u16_le(buf, 12) as usize;
    let rest = slice_range(buf, 14, buf.len());
    if rest.len() < len_xor + len_and {
        return Err(Error::Short { need: len_xor + len_and, have: rest.len() });
    }
    let xor_mask = slice_range(rest, 0, len_xor);
    let and_mask = slice_range(rest, len_xor, len_xor + len_and);
    decode_masks(width, height, hotspot_x, hotspot_y, xor_mask, and_mask, xor_bpp)
}

/// Decode a TS_COLORPOINTERATTRIBUTE (24-bpp XOR mask + 1-bpp AND mask).
pub fn decode_color_pointer(buf: &[u8]) -> (r: Result<Cursor>)
    ensures
        spec_pointer(buf@, 24) matches Err((n, h)) ==> is_short(r, n, h),
        spec_pointer(buf@, 24) matches Ok(c) ==> c is Some && (r matches Ok(v) && v@ == c.unwrap()),
{
    color_pointer(buf, 24)
}

/// Decode a TS_POINTERATTRIBUTE ("New Pointer"): an xorBpp prefix, then a
/// color pointer whose XOR mask has that bpp.
pub fn decode_new_pointer(buf: &[u8]) -> (r: Result<Cursor>)
    ensures
        buf.len() < 2 ==> is_short(r, 2, buf.len() as int),
        buf.len() >= 2 ==> {
            let b = buf@.subrange(2, buf.len() as int);
            let bpp = get_le16(buf@, 0);
            &&& spec_pointer(b, bpp) matches Err((n, h)) ==> is_short(r, n, h)
            &&& spec_pointer(b, bpp) matches Ok(Some(c)) ==> (r matches Ok(v) && v@ == c)
            &&& spec_pointer(b, bpp) matches Ok(None) ==> is_protocol(r)
        },
{
    if buf.len() < 2 {
        return Err(Error::Short { need: 2, have: buf.len() });
    }
    let xor_bpp = read_u16_le(buf, 0);
    let b = slice_range(buf, 2, buf.len());
    let c = decode_color_pointer(b)?;
    if xor_bpp != 24 {
        return color_pointer(b, xor_bpp);
    }
    Ok(c)
}

/// A New Pointer whose XOR bpp field is 24 decodes as the color pointer
/// that follows the field.
pub proof fn lemma_new_pointer_24(buf: Seq<u8>)
    ensures
        ({
            let np = le16(24) + buf;
            &&& get_le16(np, 0) == 24
            &&& spec_pointer(np.subrange(2, np.len() as int), get_le16(np, 0)) == spec_pointer(buf, 24)
        }),
{
    lemma_le16(24);
    let np = le16(24) + buf;
    assert(np[0] == le16(24)[0] && np[1] == le16(24)[1]);
    assert(np.subrange(2, np.len() as int) =~= buf);
}

/// Row `y` of a cursor holds `4 * c` bytes: pixel `x` is `cursor_px(.., x, y)`.
proof fn lemma_cursor_row(xor: Seq<u8>, and: Seq<u8>, g: MaskGeometry, y: int, c: nat)
    ensures
        cursor_row(xor, and, g, y, c).len() == 4 * c,
        forall|x: int, k: int|
            0 <= x < c && 0 <= k < 4 ==> #[trigger] cursor_row(xor, and, g, y, c)[4 * x + k] == cursor_px(
                xor,
                and,
                g,
                x,
                y,
            )[k],
    decreases c,
{
    if c > 0 {
        lemma_cursor_row(xor, and, g, y, (c - 1) as nat);
        let prev = cursor_row(xor, and, g, y, (c - 1) as nat);
        let row = cursor_row(xor, and, g, y, c);
        assert forall|x: int, k: int| 0 <= x < c && 0 <= k < 4 implies #[trigger] row[4 * x + k] == cursor_px(
            xor,
            and,
            g,
            x,
            y,
        )[k] by {
            if x < c - 1 {
                assert(row[4 * x + k] == prev[4 * x + k]);
            }
        }
    }
}

/// The first `r` rows of a cursor hold `4 * width * r` bytes: pixel (`x`,
/// `y`) starts at byte `4 * (width * y + x)`.
proof fn lemma_cursor_rows(xor: Seq<u8>, and: Seq<u8>, g: MaskGeometry, r: nat)
    ensures
        cursor_rows(xor, and, g, r).len() == 4 * (g.width * r),
        forall|x: int, y: int, k: int|
            0 <= x < g.width && 0 <= y < r && 0 <= k < 4 ==> #[trigger] cursor_rows(xor, and, g, r)[4 * (g.width * y
                + x) + k] == cursor_px(xor, and, g, x, y)[k],
    decreases r,
{
    if r > 0 {
        lemma_cursor_rows(xor, and, g, (r - 1) as nat);
        lemma_cursor_row(xor, and, g, r - 1, g.width);
        let prev = cursor_rows(xor, and, g, (r - 1) as nat);
        let all = cursor_rows(xor, and, g, r);
        let w = g.width;
        assert(4 * (w * r) == 4 * (w * (r - 1)) + 4 * w) by (nonlinear_arith);
        assert forall|x: int, y: int, k: int| 0 <= x < w && 0 <= y < r && 0 <= k < 4 implies #[trigger] all[4 * (w * y
            + x) + k] == cursor_px(xor, and, g, x, y)[k] by {
            if y < r - 1 {
                assert(4 * (w * y + x) + k < 4 * (w * (r - 1))) by (nonlinear_arith)
                    requires
                        0 <= x < w,
                        0 <= y < r - 1,
                        0 <= k < 4,
                ;
                assert(0 <= 4 * (w * y + x) + k) by (nonlinear_arith)
                    requires
                        0 <= x,
                        0 <= y,
                        0 <= k,
                ;
                assert(all[4 * (w * y + x) + k] == prev[4 * (w * y + x) + k]);
            } else {
                assert(4 * (w * y + x) + k == 4 * (w * (r - 1)) + (4 * x + k)) by (nonlinear_arith)
                    requires
                        y == r - 1,
                ;
                assert(all[4 * (w * (r - 1)) + (4 * x + k)] == cursor_row(xor, and, g, r - 1, w)[4 * x + k]);
            }
        }
    } else {
        assert(4 * (g.width * r) == 0) by (nonlinear_arith)
            requires
                r == 0,
        ;
    }
}

/// A decoded cursor holds `4 * width * height` RGBA bytes, top-down: pixel
/// (`x`, `y`) starts at byte `4 * (width * y + x)` and is taken from source
/// row `height - 1 - y` of the masks. Its alpha is 0 where the AND mask bit
/// is set (a missing AND byte counts as all bits set) and 255 elsewhere.
pub proof fn lemma_cursor_image(width: nat, height: nat, hx: u16, hy: u16, xor: Seq<u8>, and: Seq<u8>, bpp: u16)
    ensures
        spec_decode_masks(width, height, hx, hy, xor, and, bpp) matches Some(c) ==> {
            let g = geometry(width, height, bpp, cursor_bytes_pp(bpp).unwrap());
            &&& c.width == width && c.height == height && c.hotspot_x == hx && c.hotspot_y == hy
            &&& c.rgba.len() == 4 * (width * height)
            &&& forall|x: int, y: int|
                0 <= x < width && 0 <= y < height ==> {
                    let and_byte = byte_or(and, (height - 1 - y) * g.and_stride + x / 8, 0xff);
                    &&& #[trigger] c.rgba[4 * (width * y + x) + 3] == if (and_byte >> ((7 - x % 8) as u8)) & 1
                        == 1 {
                        0u8
                    } else {
                        255u8
                    }
                    &&& forall|k: int| 0 <= k < 4 ==> c.rgba[4 * (width * y + x) + k] == cursor_px(xor, and, g, x, y)[k]
                }
        },
{
    if let Some(bp) = cursor_bytes_pp(bpp) {
        let g = geometry(width, height, bpp, bp);
        lemma_cursor_rows(xor, and, g, height);
        let rgba = cursor_rows(xor, and, g, height);
        assert forall|x: int, y: int| 0 <= x < width && 0 <= y < height implies {
            let and_byte = byte_or(and, (height - 1 - y) * g.and_stride + x / 8, 0xff);
            &&& #[trigger] rgba[4 * (width * y + x) + 3] == if (and_byte >> ((7 - x % 8) as u8)) & 1 == 1 {
                0u8
            } else {
                255u8
            }
            &&& forall|k: int| 0 <= k < 4 ==> rgba[4 * (width * y + x) + k] == cursor_px(xor, and, g, x, y)[k]
        } by {
            assert(rgba[4 * (width * y + x) + 3] == cursor_px(xor, and, g, x, y)[3]);
        }
    }
}

} // verus!
