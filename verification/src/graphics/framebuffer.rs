//! An RGBA framebuffer that decoded rectangles are blitted into. Each pixel is
//! `[R, G, B, A]`, rows top-down.

use vstd::prelude::*;
use crate::wire::{copy_within, overwrite, put_zeros, zeros};

verus! {

/// The four bytes of pixel `(px, py)` in a row-major RGBA image `w` pixels wide.
pub open spec fn px_at(s: Seq<u8>, w: int, px: int, py: int) -> Seq<u8> {
    s.subrange((py * w + px) * 4, (py * w + px) * 4 + 4)
}

/// The columns a blit at `x` of a `rect_w`-wide rectangle covers in a
/// `width`-wide framebuffer.
pub open spec fn clip_w(width: int, x: int, rect_w: int) -> int {
    let room = if x < width { width - x } else { 0 };
    if rect_w < room { rect_w } else { room }
}

/// An RGBA (8 bits per channel) framebuffer.
#[derive(Clone)]
pub struct Framebuffer {
    width: usize,
    height: usize,
    pixels: Vec<u8>,
}

impl Framebuffer {
    /// The pixel bytes are `width * height * 4` long.
    pub closed spec fn wf(&self) -> bool {
        self.pixels@.len() == self.width * self.height * 4
    }

    /// The width in pixels.
    pub closed spec fn spec_width(&self) -> nat {
        self.width as nat
    }

    /// The height in pixels.
    pub closed spec fn spec_height(&self) -> nat {
        self.height as nat
    }

    /// The RGBA bytes, row-major.
    pub closed spec fn spec_pixels(&self) -> Seq<u8> {
        self.pixels@
    }

    /// A black, fully transparent framebuffer.
    pub fn new(width: usize, height: usize) -> (r: Framebuffer)
        requires
            width * height * 4 <= usize::MAX,
        ensures
            r.wf(),
            r.spec_width() == width,
            r.spec_height() == height,
            r.spec_pixels() == zeros(width as nat * height as nat * 4),
    {
        let mut pixels: Vec<u8> = Vec::new();
        put_zeros(&mut pixels, width * height * 4);
        Framebuffer { width, height, pixels }
    }

    pub fn width(&self) -> (r: usize)
        ensures
            r == self.spec_width(),
    {
        self.width
    }

    pub fn height(&self) -> (r: usize)
        ensures
            r == self.spec_height(),
    {
        self.height
    }

    pub fn pixels(&self) -> (r: &[u8])
        ensures
            r@ == self.spec_pixels(),
    {
        self.pixels.as_slice()
    }

    /// Blit an RGBA rectangle whose top-left is `(x, y)`; what falls outside
    /// the framebuffer is clipped. `rgba` is `rect_w * rect_h * 4` bytes, row-major.
    pub fn blit_rgba(&mut self, x: usize, y: usize, rect_w: usize, rect_h: usize, rgba: &[u8])
        requires
            old(self).wf(),
            rgba.len() >= rect_w * rect_h * 4,
        ensures
            final(self).wf(),
            final(self).spec_width() == old(self).spec_width(),
            final(self).spec_height() == old(self).spec_height(),
            final(self).spec_pixels().len() == old(self).spec_pixels().len(),
            forall|px: int, py: int|
                0 <= px < old(self).spec_width() && 0 <= py < old(self).spec_height() ==> #[trigger] px_at(
                    final(self).spec_pixels(),
                    old(self).spec_width() as int,
                    px,
                    py,
                ) == if x <= px < x + clip_w(old(self).spec_width() as int, x as int, rect_w as int) && y <= py < y
                    + rect_h {
                    px_at(rgba@, rect_w as int, px - x, py - y)
                } else {
                    px_at(old(self).spec_pixels(), old(self).spec_width() as int, px, py)
                },
    {
        let w = self.width;
        let h = self.height;
        let total = self.pixels.len();
        let ghost old_px = self.pixels@;
        let copy_w = if x < w {
            if rect_w < w - x { rect_w } else { w - x }
        } else {
            0
        };
        let mut row: usize = 0;
        while row < rect_h
            invariant
                row <= rect_h,
                self.width == w,
                self.height == h,
                self.pixels@.len() == w * h * 4,
                rgba.len() >= rect_w * rect_h * 4,
                total == w * h * 4,
                copy_w == clip_w(w as int, x as int, rect_w as int),
                forall|px: int, py: int|
                    0 <= px < w && 0 <= py < h ==> #[trigger] px_at(self.pixels@, w as int, px, py) == if x <= px < x
                        + copy_w && y <= py < y + row {
                        px_at(rgba@, rect_w as int, px - x, py - y)
                    } else {
                        px_at(old_px, w as int, px, py)
                    },
            ensures
                self.width == w,
                self.height == h,
                self.pixels@.len() == w * h * 4,
                forall|px: int, py: int|
                    0 <= px < w && 0 <= py < h ==> #[trigger] px_at(self.pixels@, w as int, px, py) == if x <= px < x
                        + copy_w && y <= py < y + rect_h {
                        px_at(rgba@, rect_w as int, px - x, py - y)
                    } else {
                        px_at(old_px, w as int, px, py)
                    },
            decreases rect_h - row,
        {
            if y >= h || row >= h - y {
                proof {
                    assert forall|px: int, py: int| 0 <= px < w && 0 <= py < h implies #[trigger] px_at(
                        self.pixels@,
                        w as int,
                        px,
                        py,
                    ) == if x <= px < x + copy_w && y <= py < y + rect_h {
                        px_at(rgba@, rect_w as int, px - x, py - y)
                    } else {
                        px_at(old_px, w as int, px, py)
                    } by {
                        assert(py < y + row);
                    }
                }
                break;
            }
            let dst_y = y + row;
            if copy_w == 0 {
                row = row + 1;
                continue;
            }
            proof {
                lemma_row_in_bounds(w as int, h as int, dst_y as int, x as int, copy_w as int);
                lemma_rect_row_in_bounds(rect_w as int, rect_h as int, row as int, copy_w as int);
            }
            let src_off = row * rect_w * 4;
            let dst_off = (dst_y * w + x) * 4;
            let ghost before = self.pixels@;
            copy_within(&mut self.pixels, dst_off, rgba, src_off, copy_w * 4);
            proof {
                assert forall|px: int, py: int| 0 <= px < w && 0 <= py < h implies #[trigger] px_at(
                    self.pixels@,
                    w as int,
                    px,
                    py,
                ) == if x <= px < x + copy_w && y <= py < y + row + 1 {
                    px_at(rgba@, rect_w as int, px - x, py - y)
                } else {
                    px_at(old_px, w as int, px, py)
                } by {
                    lemma_overwrite_pixel(before, w as int, h as int, dst_y as int, x as int, copy_w as int, rgba@,
                        rect_w as int, row as int, px, py);
                }
            }
            row = row + 1;
        }
    }

    /// Pixel `(x, y)` as `(R, G, B, A)`.
    pub fn pixel(&self, x: usize, y: usize) -> (r: (u8, u8, u8, u8))
        requires
            self.wf(),
            x < self.spec_width(),
            y < self.spec_height(),
        ensures
            seq![r.0, r.1, r.2, r.3] == px_at(self.spec_pixels(), self.spec_width() as int, x as int, y as int),
    {
        let total = self.pixels.len();
        proof {
            lemma_pixel_in_bounds(self.width as int, self.height as int, x as int, y as int);
        }
        let o = (y * self.width + x) * 4;
        let r = (self.pixels[o], self.pixels[o + 1], self.pixels[o + 2], self.pixels[o + 3]);
        proof {
            assert(seq![r.0, r.1, r.2, r.3] =~= px_at(self.pixels@, self.width as int, x as int, y as int));
        }
        r
    }
}

proof fn lemma_pixel_in_bounds(w: int, h: int, x: int, y: int)
    requires
        0 <= x < w,
        0 <= y < h,
    ensures
        (y * w + x) * 4 + 4 <= w * h * 4,
        0 <= (y * w + x) * 4,
        0 <= y * w <= y * w + x <= (y * w + x) * 4,
{
    assert((y + 1) * w <= h * w) by (nonlinear_arith)
        requires
            y + 1 <= h,
            0 <= w,
    ;
    assert((y + 1) * w == y * w + w) by (nonlinear_arith);
    assert(h * w * 4 == w * h * 4) by (nonlinear_arith);
    assert(0 <= y * w) by (nonlinear_arith)
        requires
            0 <= y,
            0 <= w,
    ;
    assert(0 <= (y * w + x) * 4) by (nonlinear_arith)
        requires
            0 <= x,
            0 <= y,
            0 <= w,
    ;
}

proof fn lemma_row_in_bounds(w: int, h: int, dst_y: int, x: int, cw: int)
    requires
        0 <= dst_y < h,
        0 <= x,
        0 < cw,
        x + cw <= w,
    ensures
        (dst_y * w + x) * 4 + cw * 4 <= w * h * 4,
        0 <= (dst_y * w + x) * 4,
        0 <= dst_y * w <= dst_y * w + x <= (dst_y * w + x) * 4,
{
    assert((dst_y + 1) * w <= h * w) by (nonlinear_arith)
        requires
            dst_y + 1 <= h,
            0 <= w,
    ;
    assert((dst_y + 1) * w == dst_y * w + w) by (nonlinear_arith);
    assert(h * w * 4 == w * h * 4) by (nonlinear_arith);
    assert(0 <= dst_y * w) by (nonlinear_arith)
        requires
            0 <= dst_y,
            0 <= w,
    ;
    assert(0 <= (dst_y * w + x) * 4) by (nonlinear_arith)
        requires
            0 <= x,
            0 <= dst_y,
            0 <= w,
    ;
}

proof fn lemma_rect_row_in_bounds(rw: int, rh: int, row: int, cw: int)
    requires
        0 <= row < rh,
        0 < cw <= rw,
    ensures
        row * rw * 4 + cw * 4 <= rw * rh * 4,
        0 <= row * rw * 4,
{
    assert(row * rw * 4 + cw * 4 <= rw * rh * 4) by (nonlinear_arith)
        requires
            0 <= row < rh,
            0 < cw <= rw,
    ;
    assert(0 <= row * rw * 4) by (nonlinear_arith)
        requires
            0 <= row,
            0 <= rw,
    ;
}

/// Overwriting the bytes of row `dst_y`, columns `x..x + cw`, with row `row`
/// of the rectangle changes exactly those pixels.
proof fn lemma_overwrite_pixel(
    before: Seq<u8>,
    w: int,
    h: int,
    dst_y: int,
    x: int,
    cw: int,
    rgba: Seq<u8>,
    rw: int,
    row: int,
    px: int,
    py: int,
)
    requires
        before.len() == w * h * 4,
        0 <= dst_y < h,
        0 <= x,
        0 < cw <= rw,
        x + cw <= w,
        0 <= row,
        row * rw * 4 + cw * 4 <= rgba.len(),
        0 <= px < w,
        0 <= py < h,
    ensures
        px_at(overwrite(before, (dst_y * w + x) * 4, rgba, row * rw * 4, cw * 4), w, px, py) == if py == dst_y && x
            <= px < x + cw {
            px_at(rgba, rw, px - x, row)
        } else {
            px_at(before, w, px, py)
        },
{
    let at = (dst_y * w + x) * 4;
    let from = row * rw * 4;
    let q = (py * w + px) * 4;
    lemma_row_in_bounds(w, h, dst_y, x, cw);
    lemma_pixel_in_bounds(w, h, px, py);
    let after = overwrite(before, at, rgba, from, cw * 4);
    assert(after.len() == before.len());
    if py == dst_y && x <= px < x + cw {
        assert(q - at == (px - x) * 4) by (nonlinear_arith)
            requires
                q == (py * w + px) * 4,
                at == (dst_y * w + x) * 4,
                py == dst_y,
        ;
        assert(((row * rw) + (px - x)) * 4 == from + (px - x) * 4) by (nonlinear_arith)
            requires
                from == row * rw * 4,
        ;
        assert(px_at(after, w, px, py) =~= px_at(rgba, rw, px - x, row));
    } else {
        assert(q + 4 <= at || at + cw * 4 <= q) by (nonlinear_arith)
            requires
                q == (py * w + px) * 4,
                at == (dst_y * w + x) * 4,
                0 <= px < w,
                0 <= x,
                x + cw <= w,
                !(py == dst_y && x <= px < x + cw),
        ;
        assert(px_at(after, w, px, py) =~= px_at(before, w, px, py));
    }
}

} // verus!
