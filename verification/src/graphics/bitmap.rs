//! Bitmap updates: a set of rectangles the server sends to repaint parts of
//! the desktop. Each rectangle carries raw or interleaved-RLE-compressed pixel
//! data in 15/16/24/32 bpp.
//!
//! Bitmap scanlines are stored bottom-up (the first row in the stream is the
//! bottom of the image); [`to_rgba`] flips them to the top-down RGBA the
//! framebuffer expects.

use vstd::prelude::*;
use super::framebuffer::{clip_w, px_at, Framebuffer};
use super::rle::{decompress, rle_sizes_ok, spec_decompress, Outcome};
use crate::wire::{get_le16, read_u16_le, slice_range, to_vec};
use crate::{is_protocol, is_short, Error, Result};

verus! {

pub const BITMAP_COMPRESSION: u16 = 0x0001;
pub const NO_BITMAP_COMPRESSION_HDR: u16 = 0x0400;

/// One bitmap rectangle to repaint.
#[derive(Clone, Debug)]
pub struct BitmapRect {
    pub dest_left: u16,
    pub dest_top: u16,
    pub width: u16,
    pub height: u16,
    pub bits_per_pixel: u16,
    pub compressed: bool,
    pub data: Vec<u8>,
}

/// The contents of a bitmap rectangle.
pub struct RectView {
    pub dest_left: u16,
    pub dest_top: u16,
    pub width: u16,
    pub height: u16,
    pub bits_per_pixel: u16,
    pub compressed: bool,
    pub data: Seq<u8>,
}

impl View for BitmapRect {
    type V = RectView;

    open spec fn view(&self) -> RectView {
        RectView {
            dest_left: self.dest_left,
            dest_top: self.dest_top,
            width: self.width,
            height: self.height,
            bits_per_pixel: self.bits_per_pixel,
            compressed: self.compressed,
            data: self.data@,
        }
    }
}

/// One TS_BITMAP_DATA at the front of `s`, with the bytes it takes, or the
/// bytes that were needed and available when it is cut short. A compressed
/// rectangle without NO_BITMAP_COMPRESSION_HDR carries an 8-byte compression
/// header whose cbCompMainBodySize gives the data length.
pub open spec fn spec_parse_rect(s: Seq<u8>) -> core::result::Result<(RectView, int), (int, int)> {
    if s.len() < 18 {
        Err((18, s.len() as int))
    } else {
        let flags = get_le16(s, 14);
        let compressed = flags & BITMAP_COMPRESSION != 0;
        let with_header = compressed && flags & NO_BITMAP_COMPRESSION_HDR == 0;
        if with_header && s.len() - 18 < 8 {
            Err((8, s.len() - 18))
        } else {
            let start: int = if with_header { 26 } else { 18 };
            let data_len: int = if with_header { get_le16(s, 20) as int } else { get_le16(s, 16) as int };
            if s.len() - start < data_len {
                Err((data_len, s.len() - start))
            } else {
                Ok(
                    (
                        RectView {
                            dest_left: get_le16(s, 0),
                            dest_top: get_le16(s, 2),
                            width: get_le16(s, 8),
                            height: get_le16(s, 10),
                            bits_per_pixel: get_le16(s, 12),
                            compressed,
                            data: s.subrange(start, start + data_len),
                        },
                        start + data_len,
                    ),
                )
            }
        }
    }
}

/// `count` rectangles read one after another from `s`.
pub open spec fn spec_parse_rects(s: Seq<u8>, count: nat) -> core::result::Result<Seq<RectView>, (int, int)>
    decreases count,
{
    if count == 0 {
        Ok(Seq::empty())
    } else {
        match spec_parse_rect(s) {
            Err(e) => Err(e),
            Ok((r, k)) => if 0 < k <= s.len() {
                match spec_parse_rects(s.subrange(k, s.len() as int), (count - 1) as nat) {
                    Err(e) => Err(e),
                    Ok(rest) => Ok(seq![r] + rest),
                }
            } else {
                Err((0, 0))
            },
        }
    }
}

/// A bitmap update body: numberRectangles, then that many TS_BITMAP_DATA.
pub open spec fn spec_parse_bitmap_update(buf: Seq<u8>) -> core::result::Result<Seq<RectView>, (int, int)> {
    if buf.len() < 2 {
        Err((2, buf.len() as int))
    } else {
        spec_parse_rects(buf.subrange(2, buf.len() as int), get_le16(buf, 0) as nat)
    }
}

/// The rectangles a vector holds.
pub open spec fn rect_views(v: Seq<BitmapRect>) -> Seq<RectView> {
    Seq::new(v.len(), |i: int| v[i]@)
}

fn parse_rect(s: &[u8]) -> (r: Result<(BitmapRect, usize)>)
    ensures
        r matches Ok((rect, k)) ==> spec_parse_rect(s@) == Ok::<(RectView, int), (int, int)>((rect@, k as int)),
        r is Err ==> (spec_parse_rect(s@) matches Err((n, h)) && is_short(r, n, h)),
{
    if s.len() < 18 {
        return Err(Error::Short { need: 18, have: s.len() });
    }
    let dest_left = read_u16_le(s, 0);
    let dest_top = read_u16_le(s, 2);
    let width = read_u16_le(s, 8);
    let height = read_u16_le(s, 10);
    let bits_per_pixel = read_u16_le(s, 12);
    let flags = read_u16_le(s, 14);
    let bitmap_length = read_u16_le(s, 16);
    let compressed = flags & BITMAP_COMPRESSION != 0;
    let mut start: usize = 18;
    let mut data_len = bitmap_length as usize;
    if compressed && flags & NO_BITMAP_COMPRESSION_HDR == 0 {
        if s.len() - 18 < 8 {
            return Err(Error::Short { need: 8, have: s.len() - 18 });
        }
        data_len = read_u16_le(s, 20) as usize;
        start = 26;
    }
    if s.len() - start < data_len {
        return Err(Error::Short { need: data_len, have: s.len() - start });
    }
    let data = to_vec(slice_range(s, start, start + data_len));
    Ok((BitmapRect { dest_left, dest_top, width, height, bits_per_pixel, compressed, data }, start + data_len))
}

/// Parse a bitmap update body: numberRectangles + TS_BITMAP_DATA[].
pub fn parse_bitmap_update(buf: &[u8]) -> (r: Result<Vec<BitmapRect>>)
    ensures
        r matches Ok(v) ==> spec_parse_bitmap_update(buf@) == Ok::<Seq<RectView>, (int, int)>(rect_views(v@)),
        r is Err ==> (spec_parse_bitmap_update(buf@) matches Err((n, h)) && is_short(r, n, h)),
{
    if buf.len() < 2 {
        return Err(Error::Short { need: 2, have: buf.len() });
    }
    let count = read_u16_le(buf, 0) as usize;
    let mut rest = slice_range(buf, 2, buf.len());
    let mut rects: Vec<BitmapRect> = Vec::new();
    let mut i: usize = 0;
    while i < count
        invariant
            i <= count,
            count == get_le16(buf@, 0),
            buf.len() >= 2,
            spec_parse_bitmap_update(buf@) == (match spec_parse_rects(rest@, (count - i) as nat) {
                Err(e) => Err(e),
                Ok(tail) => Ok::<Seq<RectView>, (int, int)>(rect_views(rects@) + tail),
            }),
        decreases count - i,
    {
        let (rect, k) = parse_rect(rest)?;
        let ghost prev = rects@;
        rects.push(rect);
        proof {
            assert(rect_views(rects@) =~= rect_views(prev) + seq![rect@]);
            match spec_parse_rects(rest@.subrange(k as int, rest@.len() as int), (count - i - 1) as nat) {
                Err(e) => {},
                Ok(tail) => {
                    assert(rect_views(prev) + (seq![rect@] + tail) =~= rect_views(rects@) + tail);
                },
            }
        }
        rest = slice_range(rest, k, rest.len());
        i = i + 1;
    }
    proof {
        assert(rect_views(rects@) + Seq::<RectView>::empty() =~= rect_views(rects@));
    }
    Ok(rects)
}

/// Bytes per pixel of an uncompressed bitmap bpp (15, 16, 24 or 32).
pub open spec fn spec_bytes_pp(bpp: u16) -> Option<nat> {
    if bpp == 15 || bpp == 16 {
        Some(2)
    } else if bpp == 24 {
        Some(3)
    } else if bpp == 32 {
        Some(4)
    } else {
        None
    }
}

/// An `max`-level channel value scaled to 8 bits, rounding to nearest.
pub open spec fn scale(v: u16, max: u16) -> u8 {
    ((v * 255 + max / 2) / (max as int)) as u8
}

/// The RGBA quad of the source pixel at `o`: 5-6-5 or 5-5-5 packed for 16 and
/// 15 bpp, BGR for 24 bpp and BGRX for 32 bpp; always opaque.
pub open spec fn quad(s: Seq<u8>, o: int, bpp: u16) -> Seq<u8> {
    if bpp == 16 {
        let p = get_le16(s, o);
        seq![scale((p >> 11) & 0x1f, 31), scale((p >> 5) & 0x3f, 63), scale(p & 0x1f, 31), 255u8]
    } else if bpp == 15 {
        let p = get_le16(s, o);
        seq![scale((p >> 10) & 0x1f, 31), scale((p >> 5) & 0x1f, 31), scale(p & 0x1f, 31), 255u8]
    } else {
        seq![s[o + 2], s[o + 1], s[o], 255u8]
    }
}

/// Columns `0..c` of output row `row`: source row `height - 1 - row`.
pub open spec fn rgba_row(s: Seq<u8>, width: nat, height: nat, bpp: u16, row: nat, c: nat) -> Seq<u8>
    decreases c,
{
    if c == 0 {
        Seq::empty()
    } else {
        let bp = spec_bytes_pp(bpp).unwrap();
        let o = (height - 1 - row) * (width * bp) + (c - 1) * bp;
        rgba_row(s, width, height, bpp, row, (c - 1) as nat) + quad(s, o, bpp)
    }
}

/// Output rows `0..r`, top-down.
pub open spec fn rgba_rows(s: Seq<u8>, width: nat, height: nat, bpp: u16, r: nat) -> Seq<u8>
    decreases r,
{
    if r == 0 {
        Seq::empty()
    } else {
        rgba_rows(s, width, height, bpp, (r - 1) as nat) + rgba_row(s, width, height, bpp, (r - 1) as nat, width)
    }
}

fn scale_channel(v: u16, max: u16) -> (r: u8)
    requires
        v <= 63,
        max == 31 || max == 63,
    ensures
        r == scale(v, max),
{
    ((v * 255 + max / 2) / max) as u8
}

fn read_quad(src: &[u8], o: usize, bpp: u16) -> (r: [u8; 4])
    requires
        bpp == 15 || bpp == 16 || bpp == 24 || bpp == 32,
        o + spec_bytes_pp(bpp).unwrap() <= src.len(),
    ensures
        r@ == quad(src@, o as int, bpp),
{
    let q = if bpp == 16 {
        let p = read_u16_le(src, o);
        assert((p >> 11) & 0x1f <= 0x1f && (p >> 5) & 0x3f <= 0x3f && p & 0x1f <= 0x1f) by (bit_vector);
        [scale_channel((p >> 11) & 0x1f, 31), scale_channel((p >> 5) & 0x3f, 63), scale_channel(p & 0x1f, 31), 255u8]
    } else if bpp == 15 {
        let p = read_u16_le(src, o);
        assert((p >> 10) & 0x1f <= 0x1f && (p >> 5) & 0x1f <= 0x1f && p & 0x1f <= 0x1f) by (bit_vector);
        [scale_channel((p >> 10) & 0x1f, 31), scale_channel((p >> 5) & 0x1f, 31), scale_channel(p & 0x1f, 31), 255u8]
    } else {
        [src[o + 2], src[o + 1], src[o], 255u8]
    };
    assert(q@ =~= quad(src@, o as int, bpp));
    q
}

proof fn lemma_source_pixel(width: nat, height: nat, bp: nat, row: nat, col: nat)
    requires
        row < height,
        col < width,
        1 <= bp <= 4,
    ensures
        (height - 1 - row) * (width * bp) + col * bp + bp <= width * bp * height,
        0 <= (height - 1 - row) * (width * bp),
        (height - 1 - row) * (width * bp) <= (height - 1 - row) * (width * bp) + col * bp,
{
    let sr: int = height - 1 - row;
    assert(sr * (width * bp) + col * bp + bp <= (sr + 1) * (width * bp)) by (nonlinear_arith)
        requires
            col < width,
            0 <= sr,
            1 <= bp,
    ;
    assert((sr + 1) * (width * bp) <= height * (width * bp)) by (nonlinear_arith)
        requires
            sr + 1 <= height,
            0 <= width,
            1 <= bp,
    ;
    assert(height * (width * bp) == width * bp * height) by (nonlinear_arith);
    assert(0 <= sr * (width * bp)) by (nonlinear_arith)
        requires
            0 <= sr,
    ;
    assert(0 <= col * bp) by (nonlinear_arith);
}

/// Convert bottom-up pixel bytes of the given bpp into top-down RGBA.
pub fn to_rgba(pixels: &[u8], width: usize, height: usize, bpp: u16) -> (r: Result<Vec<u8>>)
    requires
        width * 4 <= usize::MAX,
        width * height * 4 <= usize::MAX,
    ensures
        spec_bytes_pp(bpp) is None ==> is_protocol(r),
        spec_bytes_pp(bpp) matches Some(bp) ==> {
            let need = width * bp * height;
            &&& pixels.len() < need ==> is_short(r, need, pixels.len() as int)
            &&& pixels.len() >= need ==> (r matches Ok(v) && v@ == rgba_rows(
                pixels@,
                width as nat,
                height as nat,
                bpp,
                height as nat,
            ))
        },
{
    let bytes_pp: usize = if bpp == 15 || bpp == 16 {
        2
    } else if bpp == 24 {
        3
    } else if bpp == 32 {
        4
    } else {
        return Err(Error::Protocol("unsupported bitmap bpp"));
    };
    assert(width * bytes_pp <= width * 4 && width * bytes_pp * height <= width * height * 4) by (nonlinear_arith)
        requires
            bytes_pp <= 4,
    ;
    let stride = width * bytes_pp;
    if pixels.len() < stride * height {
        return Err(Error::Short { need: stride * height, have: pixels.len() });
    }
    let mut out: Vec<u8> = Vec::new();
    let mut row: usize = 0;
    while row < height
        invariant
            row <= height,
            stride == width * bytes_pp,
            spec_bytes_pp(bpp) == Some(bytes_pp as nat),
            bpp == 15 || bpp == 16 || bpp == 24 || bpp == 32,
            pixels.len() >= stride * height,
            out@ == rgba_rows(pixels@, width as nat, height as nat, bpp, row as nat),
        decreases height - row,
    {
        let src_row = height - 1 - row;
        let ghost prefix = out@;
        let mut col: usize = 0;
        while col < width
            invariant
                row < height,
                col <= width,
                src_row == height - 1 - row,
                stride == width * bytes_pp,
                spec_bytes_pp(bpp) == Some(bytes_pp as nat),
                bpp == 15 || bpp == 16 || bpp == 24 || bpp == 32,
                pixels.len() >= stride * height,
                out@ == prefix + rgba_row(pixels@, width as nat, height as nat, bpp, row as nat, col as nat),
            decreases width - col,
        {
            proof {
                lemma_source_pixel(width as nat, height as nat, bytes_pp as nat, row as nat, col as nat);
            }
            let o = src_row * stride + col * bytes_pp;
            let q = read_quad(pixels, o, bpp);
            out.push(q[0]);
            out.push(q[1]);
            out.push(q[2]);
            out.push(q[3]);
            proof {
                assert(out@ =~= prefix + rgba_row(pixels@, width as nat, height as nat, bpp, row as nat, col as nat + 1));
            }
            col = col + 1;
        }
        row = row + 1;
    }
    Ok(out)
}

/// What a rectangle's pixel bytes are: decompressed, or its data as is.
pub open spec fn spec_rect_pixels(r: RectView) -> Option<Seq<u8>> {
    if r.compressed {
        match spec_decompress(r.data, r.width as nat, r.height as nat, r.bits_per_pixel) {
            Some(Outcome::Done(out)) => Some(out),
            _ => None,
        }
    } else {
        Some(r.data)
    }
}

/// The RGBA image of a rectangle, when it decodes.
pub open spec fn spec_rect_rgba(r: RectView) -> Option<Seq<u8>> {
    match spec_rect_pixels(r) {
        None => None,
        Some(px) => match spec_bytes_pp(r.bits_per_pixel) {
            None => None,
            Some(bp) => if px.len() < r.width * bp * r.height {
                None
            } else {
                Some(rgba_rows(px, r.width as nat, r.height as nat, r.bits_per_pixel, r.height as nat))
            },
        },
    }
}

/// `new` is the `w × h` framebuffer `old` with the `rw × rh` RGBA image `rgba`
/// blitted at `(x, y)`, clipped.
pub open spec fn blitted(old: Seq<u8>, new: Seq<u8>, w: nat, h: nat, x: int, y: int, rw: int, rh: int, rgba: Seq<u8>) -> bool {
    &&& new.len() == old.len()
    &&& forall|px: int, py: int|
        0 <= px < w && 0 <= py < h ==> #[trigger] px_at(new, w as int, px, py) == if x <= px < x + clip_w(
            w as int,
            x,
            rw,
        ) && y <= py < y + rh {
            px_at(rgba, rw, px - x, py - y)
        } else {
            px_at(old, w as int, px, py)
        }
}

/// Whether decoding `r` would write past the end of its bitmap.
pub open spec fn rect_overruns(r: RectView) -> bool {
    r.compressed && spec_decompress(r.data, r.width as nat, r.height as nat, r.bits_per_pixel) matches Some(
        Outcome::Overrun,
    )
}

/// The machine limits decoding a rectangle works within.
pub open spec fn rect_sizes_ok(r: RectView) -> bool {
    &&& rle_sizes_ok(r.data.len(), r.width as nat, r.height as nat)
    &&& r.width * r.height * 4 <= usize::MAX
}

/// Decode one bitmap rectangle and blit it into the framebuffer.
pub fn apply(fb: &mut Framebuffer, rect: &BitmapRect) -> (r: Result<()>)
    requires
        old(fb).wf(),
        rect_sizes_ok(rect@),
        !rect_overruns(rect@),
    ensures
        final(fb).wf(),
        final(fb).spec_width() == old(fb).spec_width(),
        final(fb).spec_height() == old(fb).spec_height(),
        r is Ok <==> spec_rect_rgba(rect@) is Some,
        r is Ok ==> blitted(
            old(fb).spec_pixels(),
            final(fb).spec_pixels(),
            old(fb).spec_width(),
            old(fb).spec_height(),
            rect.dest_left as int,
            rect.dest_top as int,
            rect.width as int,
            rect.height as int,
            spec_rect_rgba(rect@).unwrap(),
        ),
        r is Err ==> *final(fb) == *old(fb),
{
    let pixels = if rect.compressed {
        decompress(rect.data.as_slice(), rect.width as usize, rect.height as usize, rect.bits_per_pixel)?
    } else {
        to_vec(rect.data.as_slice())
    };
    let rgba = to_rgba(pixels.as_slice(), rect.width as usize, rect.height as usize, rect.bits_per_pixel)?;
    proof {
        let w = rect.width as nat;
        let h = rect.height as nat;
        assert(rgba@.len() >= w * h * 4) by {
            lemma_rgba_rows_len(pixels@, w, h, rect.bits_per_pixel, h);
        }
    }
    fb.blit_rgba(rect.dest_left as usize, rect.dest_top as usize, rect.width as usize, rect.height as usize, rgba.as_slice());
    Ok(())
}

proof fn lemma_rgba_row_len(s: Seq<u8>, width: nat, height: nat, bpp: u16, row: nat, c: nat)
    ensures
        rgba_row(s, width, height, bpp, row, c).len() == c * 4,
    decreases c,
{
    if c > 0 {
        lemma_rgba_row_len(s, width, height, bpp, row, (c - 1) as nat);
    }
}

proof fn lemma_rgba_rows_len(s: Seq<u8>, width: nat, height: nat, bpp: u16, r: nat)
    ensures
        rgba_rows(s, width, height, bpp, r).len() == width * r * 4,
    decreases r,
{
    if r > 0 {
        lemma_rgba_rows_len(s, width, height, bpp, (r - 1) as nat);
        lemma_rgba_row_len(s, width, height, bpp, (r - 1) as nat, width);
        assert(width * (r - 1) * 4 + width * 4 == width * r * 4) by (nonlinear_arith);
    } else {
        assert(width * r * 4 == 0) by (nonlinear_arith)
            requires
                r == 0,
        ;
    }
}

/// Whether a rectangle's data and dimensions are within the machine limits
/// that decoding it works within.
pub fn rect_sizes_fit(rect: &BitmapRect) -> (r: bool)
    ensures
        r == rect_sizes_ok(rect@),
{
    let w = rect.width as u64;
    let h = rect.height as u64;
    assert(w * h * 4 <= 0xFFFF * 0xFFFF * 4) by (nonlinear_arith)
        requires
            w <= 0xFFFF,
            h <= 0xFFFF,
    ;
    rect.data.len() as u64 <= isize::MAX as u64 && w * 3 <= isize::MAX as u64 && w * h * 3 <= isize::MAX as u64 && w * h
        * 4 <= usize::MAX as u64
}

/// The byte offset of source pixel `col` of the source row that output row
/// `row` is converted from (rows are stored bottom-up).
pub open spec fn source_offset(width: nat, height: nat, bp: nat, row: nat, col: int) -> int {
    (height - 1 - row) * (width * bp) + col * bp
}

/// Each output row holds, pixel by pixel, the RGBA quads of the source row
/// `height - 1 - row` in column order; every alpha byte is 255.
pub proof fn lemma_rgba_row_pixels(s: Seq<u8>, width: nat, height: nat, bpp: u16, row: nat, c: nat)
    requires
        spec_bytes_pp(bpp) is Some,
    ensures
        rgba_row(s, width, height, bpp, row, c).len() == 4 * c,
        forall|i: int|
            0 <= i < 4 * c ==> #[trigger] rgba_row(s, width, height, bpp, row, c)[i] == quad(
                s,
                source_offset(width, height, spec_bytes_pp(bpp).unwrap(), row, i / 4),
                bpp,
            )[i % 4],
        forall|i: int| 0 <= i < 4 * c && i % 4 == 3 ==> #[trigger] rgba_row(s, width, height, bpp, row, c)[i] == 255,
    decreases c,
{
    if c > 0 {
        lemma_rgba_row_pixels(s, width, height, bpp, row, (c - 1) as nat);
        let bp = spec_bytes_pp(bpp).unwrap();
        let prev = rgba_row(s, width, height, bpp, row, (c - 1) as nat);
        let q = quad(s, source_offset(width, height, bp, row, c - 1), bpp);
        assert(rgba_row(s, width, height, bpp, row, c) == prev + q);
        assert forall|i: int| 0 <= i < 4 * c implies #[trigger] rgba_row(s, width, height, bpp, row, c)[i] == quad(
            s,
            source_offset(width, height, bp, row, i / 4),
            bpp,
        )[i % 4] by {
            if i >= 4 * (c - 1) {
                assert(i / 4 == c - 1);
            }
        }
    }
}

/// The output of a conversion is its rows in order: output row `row` takes
/// bytes `4 * width * row` up to `4 * width * (row + 1)`.
pub proof fn lemma_rgba_rows_layout(s: Seq<u8>, width: nat, height: nat, bpp: u16, r: nat)
    requires
        spec_bytes_pp(bpp) is Some,
    ensures
        rgba_rows(s, width, height, bpp, r).len() == 4 * width * r,
        forall|row: int|
            0 <= row < r ==> #[trigger] rgba_rows(s, width, height, bpp, r).subrange(
                4 * width * row,
                4 * width * (row + 1),
            ) == rgba_row(s, width, height, bpp, row as nat, width),
    decreases r,
{
    if r > 0 {
        lemma_rgba_rows_layout(s, width, height, bpp, (r - 1) as nat);
        lemma_rgba_row_pixels(s, width, height, bpp, (r - 1) as nat, width);
        let prev = rgba_rows(s, width, height, bpp, (r - 1) as nat);
        let last = rgba_row(s, width, height, bpp, (r - 1) as nat, width);
        let all = rgba_rows(s, width, height, bpp, r);
        assert(all == prev + last);
        assert(4 * width * (r - 1) + 4 * width == 4 * width * r) by (nonlinear_arith);
        assert forall|row: int| 0 <= row < r implies #[trigger] all.subrange(4 * width * row, 4 * width * (row + 1))
            == rgba_row(s, width, height, bpp, row as nat, width) by {
            lemma_rgba_row_pixels(s, width, height, bpp, row as nat, width);
            assert(4 * width * row + 4 * width == 4 * width * (row + 1)) by (nonlinear_arith);
            if row < r - 1 {
                assert(4 * width * (row + 1) <= 4 * width * (r - 1)) by (nonlinear_arith)
                    requires
                        row + 1 <= r - 1,
                        0 <= row,
                ;
                assert(0 <= 4 * width * row) by (nonlinear_arith)
                    requires
                        0 <= row,
                ;
                assert(all.subrange(4 * width * row, 4 * width * (row + 1)) =~= prev.subrange(
                    4 * width * row,
                    4 * width * (row + 1),
                ));
            } else {
                assert(row == r - 1);
                assert(all.subrange(4 * width * row, 4 * width * (row + 1)) =~= last);
            }
        }
    }
}

/// The image `to_rgba` returns for `width` x `height` pixels of `s`: it holds
/// `4 * width * height` bytes; output pixel (`row`, `col`) is the RGBA quad of
/// source pixel `col` of source row `height - 1 - row` (rows are flipped);
/// every alpha byte is 255; and at 24 and 32 bpp the quad is the source's
/// third, second and first byte (BGR to RGB).
pub proof fn lemma_to_rgba_image(s: Seq<u8>, width: nat, height: nat, bpp: u16)
    requires
        spec_bytes_pp(bpp) is Some,
    ensures
        ({
            let out = rgba_rows(s, width, height, bpp, height);
            let bp = spec_bytes_pp(bpp).unwrap();
            &&& out.len() == 4 * width * height
            &&& forall|row: int, col: int, k: int|
                0 <= row < height && 0 <= col < width && 0 <= k < 4 ==> #[trigger] out[4 * (width * row + col) + k]
                    == quad(s, source_offset(width, height, bp, row as nat, col), bpp)[k]
            &&& forall|i: int| 0 <= i < out.len() && i % 4 == 3 ==> #[trigger] out[i] == 255
            &&& (bpp == 24 || bpp == 32) ==> forall|row: int, col: int|
                0 <= row < height && 0 <= col < width ==> {
                    let o = source_offset(width, height, bp, row as nat, col);
                    &&& #[trigger] out[4 * (width * row + col)] == s[o + 2]
                    &&& out[4 * (width * row + col) + 1] == s[o + 1]
                    &&& out[4 * (width * row + col) + 2] == s[o]
                }
        }),
{
    let out = rgba_rows(s, width, height, bpp, height);
    let bp = spec_bytes_pp(bpp).unwrap();
    lemma_rgba_rows_layout(s, width, height, bpp, height);
    assert(4 * width * height == out.len());
    assert forall|row: int, col: int, k: int|
        0 <= row < height && 0 <= col < width && 0 <= k < 4 implies #[trigger] out[4 * (width * row + col) + k]
        == quad(s, source_offset(width, height, bp, row as nat, col), bpp)[k] by {
        lemma_rgba_row_pixels(s, width, height, bpp, row as nat, width);
        let line = rgba_row(s, width, height, bpp, row as nat, width);
        let a = 4 * width * row;
        assert(0 <= a && a + 4 * width == 4 * width * (row + 1) && 4 * width * (row + 1) <= 4 * width * height)
            by (nonlinear_arith)
            requires
                a == 4 * width * row,
                0 <= row < height,
        ;
        assert(out.subrange(a, 4 * width * (row + 1)) == line);
        assert(4 * (width * row + col) + k == a + (4 * col + k)) by (nonlinear_arith)
            requires
                a == 4 * width * row,
        ;
        assert(line[4 * col + k] == out.subrange(a, 4 * width * (row + 1))[4 * col + k]);
        assert((4 * col + k) / 4 == col);
        assert((4 * col + k) % 4 == k);
    }
    assert forall|i: int| 0 <= i < out.len() && i % 4 == 3 implies #[trigger] out[i] == 255 by {
        let row = i / (4 * width as int);
        let j = i % (4 * width as int);
        assert(width > 0) by (nonlinear_arith)
            requires
                0 <= i < 4 * width * height,
        ;
        assert(i == 4 * width * row + j && 0 <= j < 4 * width) by (nonlinear_arith)
            requires
                width > 0,
                row == i / (4 * width as int),
                j == i % (4 * width as int),
        ;
        assert(0 <= row < height) by (nonlinear_arith)
            requires
                width > 0,
                0 <= i < 4 * width * height,
                i == 4 * width * row + j,
                0 <= j < 4 * width,
        ;
        let m: int = width * row;
        assert(4 * width * row == 4 * m) by (nonlinear_arith)
            requires
                m == width * row,
        ;
        assert(j % 4 == 3);
        lemma_rgba_row_pixels(s, width, height, bpp, row as nat, width);
        let line = rgba_row(s, width, height, bpp, row as nat, width);
        let a = 4 * width * row;
        assert(0 <= a && a + 4 * width == 4 * width * (row + 1) && 4 * width * (row + 1) <= 4 * width * height)
            by (nonlinear_arith)
            requires
                a == 4 * width * row,
                0 <= row < height,
        ;
        assert(out.subrange(a, 4 * width * (row + 1)) == line);
        assert(line[j] == out.subrange(a, 4 * width * (row + 1))[j]);
    }
    if bpp == 24 || bpp == 32 {
        assert forall|row: int, col: int| 0 <= row < height && 0 <= col < width implies {
            let o = source_offset(width, height, bp, row as nat, col);
            &&& #[trigger] out[4 * (width * row + col)] == s[o + 2]
            &&& out[4 * (width * row + col) + 1] == s[o + 1]
            &&& out[4 * (width * row + col) + 2] == s[o]
        } by {
            let o = source_offset(width, height, bp, row as nat, col);
            assert(out[4 * (width * row + col) + 0] == quad(s, o, bpp)[0]);
            assert(out[4 * (width * row + col) + 1] == quad(s, o, bpp)[1]);
            assert(out[4 * (width * row + col) + 2] == quad(s, o, bpp)[2]);
        }
    }
}

/// The 8-bit value of a `bits`-bit channel value `v` (at most `max`), rounded
/// to nearest.
pub open spec fn channel8(v: int, max: int) -> int {
    (v * 255 + max / 2) / max
}

proof fn lemma_565_fields(p: u16)
    by (bit_vector)
    ensures
        (p >> 11) & 0x1f == p / 2048,
        (p >> 5) & 0x3f == (p / 32) % 64,
        (p >> 10) & 0x1f == (p / 1024) % 32,
        (p >> 5) & 0x1f == (p / 32) % 32,
        p & 0x1f == p % 32,
{
}

/// At 16 and 15 bpp, output pixel (`row`, `col`) of `to_rgba` is the source
/// pixel `p` (little-endian, at its source offset) unpacked: at 16 bpp red is
/// bits 11-15, green bits 5-10 and blue bits 0-4 (5-6-5); at 15 bpp red is
/// bits 10-14, green bits 5-9 and blue bits 0-4 (5-5-5); each channel scaled
/// to 8 bits, rounded to nearest; alpha 255.
pub proof fn lemma_to_rgba_packed(s: Seq<u8>, width: nat, height: nat, bpp: u16, row: int, col: int)
    requires
        bpp == 15 || bpp == 16,
        0 <= row < height,
        0 <= col < width,
    ensures
        ({
            let out = rgba_rows(s, width, height, bpp, height);
            let o = source_offset(width, height, 2, row as nat, col);
            let p: int = s[o] + 256 * s[o + 1];
            let i = 4 * (width * row + col);
            &&& bpp == 16 ==> {
                &&& out[i] == channel8(p / 2048, 31)
                &&& out[i + 1] == channel8((p / 32) % 64, 63)
                &&& out[i + 2] == channel8(p % 32, 31)
            }
            &&& bpp == 15 ==> {
                &&& out[i] == channel8((p / 1024) % 32, 31)
                &&& out[i + 1] == channel8((p / 32) % 32, 31)
                &&& out[i + 2] == channel8(p % 32, 31)
            }
            &&& out[i + 3] == 255
        }),
{
    lemma_to_rgba_image(s, width, height, bpp);
    let out = rgba_rows(s, width, height, bpp, height);
    let o = source_offset(width, height, 2, row as nat, col);
    let pv = get_le16(s, o);
    lemma_565_fields(pv);
    assert(pv as int == s[o] + 256 * s[o + 1]);
    let q = quad(s, o, bpp);
    assert(out[4 * (width * row + col) + 0] == q[0]);
    assert(out[4 * (width * row + col) + 1] == q[1]);
    assert(out[4 * (width * row + col) + 2] == q[2]);
    assert(out[4 * (width * row + col) + 3] == q[3]);
}

/// A rectangle read from the front of `s` is flagged compressed exactly when
/// BITMAP_COMPRESSION is set, and holds as many data bytes as its header
/// gives: cbCompMainBodySize of the compression header when there is one,
/// bitmapLength otherwise.
pub proof fn lemma_parse_rect_fields(s: Seq<u8>)
    ensures
        spec_parse_rect(s) matches Ok((r, k)) ==> {
            let flags = get_le16(s, 14);
            let with_header = r.compressed && flags & NO_BITMAP_COMPRESSION_HDR == 0;
            &&& r.compressed == (flags & BITMAP_COMPRESSION != 0)
            &&& r.data.len() == (if with_header { get_le16(s, 20) } else { get_le16(s, 16) })
            &&& k == (if with_header { 26int } else { 18int }) + r.data.len()
        },
{
}

/// Reading `count` rectangles gives exactly `count`, each one read where the
/// previous one ended.
pub proof fn lemma_parse_rects_count(s: Seq<u8>, count: nat)
    ensures
        spec_parse_rects(s, count) matches Ok(rs) ==> rs.len() == count && (count > 0 ==> (spec_parse_rect(s)
            matches Ok((r, k)) && rs[0] == r && spec_parse_rects(s.subrange(k, s.len() as int), (count - 1) as nat)
            == Ok::<Seq<RectView>, (int, int)>(rs.drop_first()))),
    decreases count,
{
    if count > 0 {
        if let Ok((r, k)) = spec_parse_rect(s) {
            if 0 < k <= s.len() {
                lemma_parse_rects_count(s.subrange(k, s.len() as int), (count - 1) as nat);
                if let Ok(rest) = spec_parse_rects(s.subrange(k, s.len() as int), (count - 1) as nat) {
                    assert((seq![r] + rest).drop_first() =~= rest);
                }
            }
        }
    }
}

/// A bitmap update gives exactly numberRectangles rectangles.
pub proof fn lemma_bitmap_update_count(buf: Seq<u8>)
    ensures
        spec_parse_bitmap_update(buf) matches Ok(rs) ==> rs.len() == get_le16(buf, 0),
{
    if buf.len() >= 2 {
        lemma_parse_rects_count(buf.subrange(2, buf.len() as int), get_le16(buf, 0) as nat);
    }
}

/// The rectangle `r` is the one read at offset `o` of `buf`: flagged
/// compressed exactly when BITMAP_COMPRESSION is set there, and holding as
/// many data bytes as its header gives (cbCompMainBodySize of the compression
/// header when there is one, bitmapLength otherwise).
pub open spec fn rect_at(buf: Seq<u8>, o: int, r: RectView) -> bool {
    let s = buf.subrange(o, buf.len() as int);
    let flags = get_le16(s, 14);
    let with_header = r.compressed && flags & NO_BITMAP_COMPRESSION_HDR == 0;
    &&& 0 <= o < buf.len()
    &&& spec_parse_rect(s) matches Ok((q, _)) && q == r
    &&& r.compressed == (flags & BITMAP_COMPRESSION != 0)
    &&& r.data.len() == (if with_header { get_le16(s, 20) } else { get_le16(s, 16) })
}

/// The offset in `s` at which the `i`-th of `count` rectangles starts: the
/// first at 0, each next one where the previous one ended.
pub open spec fn rect_offset(s: Seq<u8>, count: nat, i: nat) -> int
    decreases count,
{
    if count == 0 || i == 0 {
        0
    } else {
        match spec_parse_rect(s) {
            Ok((_, k)) => if 0 < k <= s.len() {
                k + rect_offset(s.subrange(k, s.len() as int), (count - 1) as nat, (i - 1) as nat)
            } else {
                0
            },
            Err(_) => 0,
        }
    }
}

/// Each of `count` rectangles read from `s` is the one read at its offset.
proof fn lemma_parse_rects_each(s: Seq<u8>, count: nat, i: nat)
    ensures
        spec_parse_rects(s, count) matches Ok(rs) ==> (i < rs.len() ==> {
            rect_at(s, rect_offset(s, count, i), rs[i as int])
        }),
    decreases count,
{
    if count > 0 {
        if let Ok((r, k)) = spec_parse_rect(s) {
            if 0 < k <= s.len() {
                let t = s.subrange(k, s.len() as int);
                if let Ok(rest) = spec_parse_rects(t, (count - 1) as nat) {
                    let rs = seq![r] + rest;
                    assert(spec_parse_rects(s, count) == Ok::<Seq<RectView>, (int, int)>(rs));
                    if i == 0 {
                        assert(s.subrange(0, s.len() as int) =~= s);
                        lemma_parse_rect_fields(s);
                        assert(rect_at(s, 0, rs[0]));
                    } else if i < rs.len() {
                        lemma_parse_rects_each(t, (count - 1) as nat, (i - 1) as nat);
                        let o2 = rect_offset(t, (count - 1) as nat, (i - 1) as nat);
                        assert(rs[i as int] == rest[i - 1]);
                        assert(t.subrange(o2, t.len() as int) =~= s.subrange(k + o2, s.len() as int));
                        assert(rect_at(s, k + o2, rs[i as int]));
                    }
                }
            }
        }
    }
}

/// A bitmap update gives exactly numberRectangles rectangles, in wire order:
/// the `i`-th is the one read at offset `2 + rect_offset(..)` of `buf`, with
/// the compressed flag and data length its header gives (see [`rect_at`]).
pub proof fn lemma_bitmap_update_rects(buf: Seq<u8>)
    ensures
        spec_parse_bitmap_update(buf) matches Ok(rs) ==> {
            &&& rs.len() == get_le16(buf, 0)
            &&& forall|i: int|
                #![trigger rs[i]]
                0 <= i < rs.len() ==> rect_at(
                    buf,
                    2 + rect_offset(buf.subrange(2, buf.len() as int), get_le16(buf, 0) as nat, i as nat),
                    rs[i],
                )
        },
{
    lemma_bitmap_update_count(buf);
    if buf.len() >= 2 {
        let t = buf.subrange(2, buf.len() as int);
        let n = get_le16(buf, 0) as nat;
        let res = spec_parse_bitmap_update(buf);
        if res is Ok {
            let rs = res->Ok_0;
            assert forall|i: int| #![trigger rs[i]] 0 <= i < rs.len() implies rect_at(
                buf,
                2 + rect_offset(t, n, i as nat),
                rs[i],
            ) by {
                lemma_parse_rects_each(t, n, i as nat);
                let o2 = rect_offset(t, n, i as nat);
                assert(0 <= o2 < t.len());
                assert(t.subrange(o2, t.len() as int) =~= buf.subrange(2 + o2, buf.len() as int));
            }
        }
    }
}

} // verus!
