//! Interleaved RLE bitmap decompression, the classic RDP bitmap codec: a
//! stream of run and image orders that reconstruct a bottom-up bitmap, with
//! foreground/background orders XOR-ing against the previous scanline.
//!
//! The output has the uncompressed layout: `width * height` pixels of `ps`
//! bytes each, bottom-up, little-endian.
//!
//! The meaning of a stream is given order by order: [`spec_step`] says what one
//! order does to the decoder's state, and [`spec_rle_run`] runs the orders to
//! the end of the stream. A write past the end of the destination is
//! [`Outcome::Overrun`]; `decompress` is defined on the streams that do not
//! overrun.

use vstd::prelude::*;
use crate::wire::{put_zeros, slice_range, zeros};
use crate::{is_protocol, is_short, Error, Result};

verus! {

/// Pixel size in bytes for a bpp (8, 15, 16 or 24), if supported.
pub open spec fn spec_pixel_size(bpp: u16) -> Option<nat> {
    if bpp == 8 {
        Some(1)
    } else if bpp == 15 || bpp == 16 {
        Some(2)
    } else if bpp == 24 {
        Some(3)
    } else {
        None
    }
}

/// The white pixel value for a bpp.
pub open spec fn spec_white(bpp: u16) -> u32 {
    if bpp == 15 {
        0x7FFF
    } else if bpp == 16 {
        0xFFFF
    } else if bpp == 24 {
        0xFF_FFFF
    } else {
        0xFF
    }
}

fn pixel_size(bpp: u16) -> (r: Result<usize>)
    ensures
        r matches Ok(n) ==> spec_pixel_size(bpp) == Some(n as nat),
        r is Err ==> spec_pixel_size(bpp) is None && is_protocol(r),
{
    if bpp == 8 {
        Ok(1)
    } else if bpp == 15 || bpp == 16 {
        Ok(2)
    } else if bpp == 24 {
        Ok(3)
    } else {
        Err(Error::Protocol("unsupported RLE bpp"))
    }
}

fn white_pixel(bpp: u16) -> (r: u32)
    ensures
        r == spec_white(bpp),
{
    if bpp == 15 {
        0x7FFF
    } else if bpp == 16 {
        0xFFFF
    } else if bpp == 24 {
        0xFF_FFFF
    } else {
        0xFF
    }
}

pub const BG_RUN: u8 = 0x0;
pub const FG_RUN: u8 = 0x1;
pub const FGBG_IMAGE: u8 = 0x2;
pub const COLOR_RUN: u8 = 0x3;
pub const COLOR_IMAGE: u8 = 0x4;
pub const LITE_SET_FG_FG_RUN: u8 = 0xC;
pub const LITE_SET_FG_FGBG_IMAGE: u8 = 0xD;
pub const LITE_DITHERED_RUN: u8 = 0xE;
pub const MEGA_BG_RUN: u8 = 0xF0;
pub const MEGA_FG_RUN: u8 = 0xF1;
pub const MEGA_FGBG_IMAGE: u8 = 0xF2;
pub const MEGA_COLOR_RUN: u8 = 0xF3;
pub const MEGA_COLOR_IMAGE: u8 = 0xF4;
pub const MEGA_SET_FG_RUN: u8 = 0xF6;
pub const MEGA_SET_FGBG_IMAGE: u8 = 0xF7;
pub const MEGA_DITHERED_RUN: u8 = 0xF8;
pub const SPECIAL_FGBG_1: u8 = 0xF9;
pub const SPECIAL_FGBG_2: u8 = 0xFA;
pub const WHITE: u8 = 0xFD;
pub const BLACK: u8 = 0xFE;

/// The order code of a header byte.
pub open spec fn spec_code_id(hdr: u8) -> u8 {
    if hdr & 0xC0 != 0xC0 {
        hdr >> 5
    } else if hdr & 0xF0 == 0xF0 {
        hdr
    } else {
        hdr >> 4
    }
}

fn code_id(hdr: u8) -> (r: u8)
    ensures
        r == spec_code_id(hdr),
{
    if hdr & 0xC0 != 0xC0 {
        hdr >> 5
    } else if hdr & 0xF0 == 0xF0 {
        hdr
    } else {
        hdr >> 4
    }
}

/// The run length of an order and the size of its header, or the bytes the
/// header needs.
pub enum RunLength {
    Len(nat, nat),
    Short(int, int),
}

/// The run length and header size of the order `code` at the front of `src`.
pub open spec fn spec_run_length(code: u8, src: Seq<u8>) -> RunLength {
    let b0 = src[0] as nat;
    if code == FGBG_IMAGE || code == LITE_SET_FG_FGBG_IMAGE {
        let r = if code == FGBG_IMAGE { (src[0] & 0x1F) as nat } else { (src[0] & 0x0F) as nat };
        if r != 0 {
            RunLength::Len(r * 8, 1)
        } else if src.len() < 2 {
            RunLength::Short(2, src.len() as int)
        } else {
            RunLength::Len(src[1] as nat + 1, 2)
        }
    } else if code == BG_RUN || code == FG_RUN || code == COLOR_RUN || code == COLOR_IMAGE {
        let r = (src[0] & 0x1F) as nat;
        if r != 0 {
            RunLength::Len(r, 1)
        } else if src.len() < 2 {
            RunLength::Short(2, src.len() as int)
        } else {
            RunLength::Len(src[1] as nat + 32, 2)
        }
    } else if code == LITE_SET_FG_FG_RUN || code == LITE_DITHERED_RUN {
        let r = (src[0] & 0x0F) as nat;
        if r != 0 {
            RunLength::Len(r, 1)
        } else if src.len() < 2 {
            RunLength::Short(2, src.len() as int)
        } else {
            RunLength::Len(src[1] as nat + 16, 2)
        }
    } else if MEGA_BG_RUN <= code <= MEGA_DITHERED_RUN {
        if src.len() < 3 {
            RunLength::Short(3, src.len() as int)
        } else {
            RunLength::Len(src[1] as nat + src[2] as nat * 256, 3)
        }
    } else {
        RunLength::Len(0, 1)
    }
}

fn run_length(code: u8, src: &[u8]) -> (r: Result<(usize, usize)>)
    requires
        src.len() >= 1,
    ensures
        r matches Ok((len, h)) ==> spec_run_length(code, src@) == RunLength::Len(len as nat, h as nat),
        r is Err ==> (spec_run_length(code, src@) matches RunLength::Short(n, h) && is_short(r, n, h)),
        r matches Ok((len, h)) ==> len <= 0x1_0000 && h <= src.len(),
{
    let b0 = src[0];
    if code == FGBG_IMAGE || code == LITE_SET_FG_FGBG_IMAGE {
        let r: usize = if code == FGBG_IMAGE { (b0 & 0x1F) as usize } else { (b0 & 0x0F) as usize };
        if r != 0 {
            Ok((r * 8, 1))
        } else if src.len() < 2 {
            Err(Error::Short { need: 2, have: src.len() })
        } else {
            Ok((src[1] as usize + 1, 2))
        }
    } else if code == BG_RUN || code == FG_RUN || code == COLOR_RUN || code == COLOR_IMAGE {
        let r: usize = (b0 & 0x1F) as usize;
        if r != 0 {
            Ok((r, 1))
        } else if src.len() < 2 {
            Err(Error::Short { need: 2, have: src.len() })
        } else {
            Ok((src[1] as usize + 32, 2))
        }
    } else if code == LITE_SET_FG_FG_RUN || code == LITE_DITHERED_RUN {
        let r: usize = (b0 & 0x0F) as usize;
        if r != 0 {
            Ok((r, 1))
        } else if src.len() < 2 {
            Err(Error::Short { need: 2, have: src.len() })
        } else {
            Ok((src[1] as usize + 16, 2))
        }
    } else if MEGA_BG_RUN <= code && code <= MEGA_DITHERED_RUN {
        if src.len() < 3 {
            Err(Error::Short { need: 3, have: src.len() })
        } else {
            Ok((src[1] as usize + src[2] as usize * 256, 3))
        }
    } else {
        Ok((0, 1))
    }
}

/// The little-endian pixel of `ps` bytes at `s[i..]`.
pub open spec fn get_px(s: Seq<u8>, i: int, ps: nat) -> u32 {
    if ps == 1 {
        s[i] as u32
    } else if ps == 2 {
        (s[i] + s[i + 1] * 256) as u32
    } else {
        (s[i] + s[i + 1] * 256 + s[i + 2] * 65536) as u32
    }
}

/// `s` with the pixel `v` written over `s[d..d + ps]`, low byte first.
pub open spec fn put_px(s: Seq<u8>, d: int, v: u32, ps: nat) -> Seq<u8> {
    if ps == 1 {
        s.update(d, (v % 256) as u8)
    } else if ps == 2 {
        s.update(d, (v % 256) as u8).update(d + 1, ((v / 256) % 256) as u8)
    } else {
        s.update(d, (v % 256) as u8).update(d + 1, ((v / 256) % 256) as u8).update(d + 2, ((v / 65536) % 256) as u8)
    }
}

/// The fixed parameters of a decompression: pixel size, scanline size, white.
pub struct RleParams {
    pub ps: nat,
    pub row_delta: nat,
    pub white: u32,
}

/// How the pixels of a run are chosen: a fixed value, or the pixel one
/// scanline above XOR a value.
pub enum Fill {
    Value(u32),
    AboveXor(u32),
}

/// The pixel a fill gives at `d`.
pub open spec fn fill_px(dst: Seq<u8>, d: int, p: RleParams, f: Fill) -> u32 {
    match f {
        Fill::Value(v) => v,
        Fill::AboveXor(x) => get_px(dst, d - p.row_delta, p.ps) ^ x,
    }
}

/// Write `n` pixels of fill `f` from `d` on, one at a time (a pixel may read
/// one written earlier in the same run); `None` when a pixel would not fit.
pub open spec fn run_px(dst: Seq<u8>, d: int, n: nat, p: RleParams, f: Fill) -> Option<(Seq<u8>, int)>
    decreases n,
{
    if n == 0 {
        Some((dst, d))
    } else if d + p.ps > dst.len() {
        None
    } else {
        run_px(put_px(dst, d, fill_px(dst, d, p, f), p.ps), d + p.ps, (n - 1) as nat, p, f)
    }
}

/// Write `n` pairs of pixels `a`, `b`; `None` when a pixel would not fit.
pub open spec fn dither_px(dst: Seq<u8>, d: int, n: nat, a: u32, b: u32, ps: nat) -> Option<(Seq<u8>, int)>
    decreases n,
{
    if n == 0 {
        Some((dst, d))
    } else if d + ps > dst.len() {
        None
    } else if d + ps + ps > dst.len() {
        None
    } else {
        dither_px(put_px(put_px(dst, d, a, ps), d + ps, b, ps), d + ps + ps, (n - 1) as nat, a, b, ps)
    }
}

/// Whether bit `k` of `mask` is set.
pub open spec fn mask_bit(mask: u8, k: nat) -> bool {
    (mask >> k) & 1 == 1
}

/// Write pixels `k..bits` of a foreground/background mask: on the first
/// scanline set bits give `fg` and clear bits black; below it set bits give the
/// pixel above XOR `fg` and clear bits the pixel above.
pub open spec fn fgbg_px(dst: Seq<u8>, d: int, mask: u8, k: nat, bits: nat, fg: u32, first_line: bool, p: RleParams) -> Option<(Seq<u8>, int)>
    decreases bits - k,
{
    if k >= bits {
        Some((dst, d))
    } else if d + p.ps > dst.len() {
        None
    } else {
        let set = mask_bit(mask, k);
        let v = if first_line {
            if set { fg } else { 0 }
        } else {
            let above = get_px(dst, d - p.row_delta, p.ps);
            if set { above ^ fg } else { above }
        };
        fgbg_px(put_px(dst, d, v, p.ps), d + p.ps, mask, k + 1, bits, fg, first_line, p)
    }
}

/// The decoder's state: source cursor, destination cursor, foreground pixel,
/// whether the next background run starts with a foreground pixel, whether
/// the first scanline is being written, and the destination.
pub struct Rle {
    pub i: int,
    pub d: int,
    pub fg: u32,
    pub insert_fg: bool,
    pub first_line: bool,
    pub dst: Seq<u8>,
}

/// What one order does.
pub enum Step {
    Next(Rle),
    Short(int, int),
    Unknown,
    Overrun,
}

/// What a stream decodes to.
pub enum Outcome {
    Done(Seq<u8>),
    Short(int, int),
    Unknown,
    Overrun,
}

/// The state after a pixel-writing result, or an overrun.
pub open spec fn after_px(r: Option<(Seq<u8>, int)>, st: Rle) -> Step {
    match r {
        None => Step::Overrun,
        Some((dst, d)) => Step::Next(Rle { dst, d, ..st }),
    }
}

/// Foreground/background image chunks of up to 8 pixels, each led by its mask byte.
pub open spec fn fgbg_chunks(data: Seq<u8>, p: RleParams, st: Rle, len: nat) -> Step
    decreases len,
{
    if len == 0 {
        Step::Next(st)
    } else {
        let bits: nat = if len < 8 { len } else { 8 };
        if st.i + 1 > data.len() {
            Step::Short(st.i + 1, data.len() as int)
        } else {
            match fgbg_px(st.dst, st.d, data[st.i], 0, bits, st.fg, st.first_line, p) {
                None => Step::Overrun,
                Some((dst, d)) => fgbg_chunks(data, p, Rle { i: st.i + 1, d, dst, ..st }, (len - bits) as nat),
            }
        }
    }
}

/// Whether `code` is one of the foreground run orders; `set` for those that
/// carry a new foreground pixel.
pub open spec fn is_fg_run(code: u8) -> bool {
    code == FG_RUN || code == MEGA_FG_RUN || code == LITE_SET_FG_FG_RUN || code == MEGA_SET_FG_RUN
}

pub open spec fn is_fgbg_image(code: u8) -> bool {
    code == FGBG_IMAGE || code == MEGA_FGBG_IMAGE || code == LITE_SET_FG_FGBG_IMAGE || code == MEGA_SET_FGBG_IMAGE
}

pub open spec fn sets_fg(code: u8) -> bool {
    code == LITE_SET_FG_FG_RUN || code == MEGA_SET_FG_RUN || code == LITE_SET_FG_FGBG_IMAGE || code == MEGA_SET_FGBG_IMAGE
}

/// A state leaving the first scanline once the destination cursor has passed it.
pub open spec fn line_check(st: Rle, p: RleParams) -> Rle {
    if st.first_line && st.d >= p.row_delta {
        Rle { first_line: false, insert_fg: false, ..st }
    } else {
        st
    }
}

/// A background run of `len` pixels from state `st` (header already read).
pub open spec fn bg_run(st: Rle, p: RleParams, len: nat) -> Option<(Seq<u8>, int)> {
    let first = if st.first_line { Fill::Value(st.fg) } else { Fill::AboveXor(st.fg) };
    let rest = if st.first_line { Fill::Value(0) } else { Fill::AboveXor(0) };
    if st.insert_fg && len > 0 {
        match run_px(st.dst, st.d, 1, p, first) {
            None => None,
            Some((dst, d)) => run_px(dst, d, (len - 1) as nat, p, rest),
        }
    } else {
        run_px(st.dst, st.d, len, p, rest)
    }
}

/// A background run order.
pub open spec fn bg_order(data: Seq<u8>, p: RleParams, st: Rle, code: u8) -> Step {
    match spec_run_length(code, data.subrange(st.i, data.len() as int)) {
        RunLength::Short(n, h) => Step::Short(n, h),
        RunLength::Len(len, hlen) => match bg_run(st, p, len) {
            None => Step::Overrun,
            Some((dst, d)) => Step::Next(Rle { i: st.i + hlen, d, dst, insert_fg: true, ..st }),
        },
    }
}

/// A foreground run order, which may carry a new foreground pixel.
pub open spec fn fg_order(data: Seq<u8>, p: RleParams, st: Rle, code: u8) -> Step {
    match spec_run_length(code, data.subrange(st.i, data.len() as int)) {
        RunLength::Short(n, h) => Step::Short(n, h),
        RunLength::Len(len, hlen) => {
            let i = st.i + hlen;
            if sets_fg(code) && i + p.ps > data.len() {
                Step::Short(i + p.ps, data.len() as int)
            } else {
                let fg = if sets_fg(code) { get_px(data, i, p.ps) } else { st.fg };
                let i2 = if sets_fg(code) { i + p.ps } else { i };
                let f = if st.first_line { Fill::Value(fg) } else { Fill::AboveXor(fg) };
                after_px(run_px(st.dst, st.d, len, p, f), Rle { i: i2, fg, ..st })
            }
        },
    }
}

/// A dithered run order: pairs of two pixels that follow the header.
pub open spec fn dither_order(data: Seq<u8>, p: RleParams, st: Rle, code: u8) -> Step {
    match spec_run_length(code, data.subrange(st.i, data.len() as int)) {
        RunLength::Short(n, h) => Step::Short(n, h),
        RunLength::Len(len, hlen) => {
            let i = st.i + hlen;
            if i + 2 * p.ps > data.len() {
                Step::Short(i + 2 * p.ps, data.len() as int)
            } else {
                let a = get_px(data, i, p.ps);
                let b = get_px(data, i + p.ps, p.ps);
                after_px(dither_px(st.dst, st.d, len, a, b, p.ps), Rle { i: i + 2 * p.ps, ..st })
            }
        },
    }
}

/// A color run order: one pixel that follows the header, repeated.
pub open spec fn color_run_order(data: Seq<u8>, p: RleParams, st: Rle, code: u8) -> Step {
    match spec_run_length(code, data.subrange(st.i, data.len() as int)) {
        RunLength::Short(n, h) => Step::Short(n, h),
        RunLength::Len(len, hlen) => {
            let i = st.i + hlen;
            if i + p.ps > data.len() {
                Step::Short(i + p.ps, data.len() as int)
            } else {
                let a = get_px(data, i, p.ps);
                after_px(run_px(st.dst, st.d, len, p, Fill::Value(a)), Rle { i: i + p.ps, ..st })
            }
        },
    }
}

/// A foreground/background image order, which may carry a new foreground pixel.
pub open spec fn fgbg_order(data: Seq<u8>, p: RleParams, st: Rle, code: u8) -> Step {
    match spec_run_length(code, data.subrange(st.i, data.len() as int)) {
        RunLength::Short(n, h) => Step::Short(n, h),
        RunLength::Len(len, hlen) => {
            let i = st.i + hlen;
            if sets_fg(code) && i + p.ps > data.len() {
                Step::Short(i + p.ps, data.len() as int)
            } else {
                let fg = if sets_fg(code) { get_px(data, i, p.ps) } else { st.fg };
                let i2 = if sets_fg(code) { i + p.ps } else { i };
                fgbg_chunks(data, p, Rle { i: i2, fg, ..st }, len)
            }
        },
    }
}

/// A color image order: raw pixels copied from the stream.
pub open spec fn color_image_order(data: Seq<u8>, p: RleParams, st: Rle, code: u8) -> Step {
    match spec_run_length(code, data.subrange(st.i, data.len() as int)) {
        RunLength::Short(n, h) => Step::Short(n, h),
        RunLength::Len(len, hlen) => {
            let i = st.i + hlen;
            let n = len * p.ps;
            if i + n > data.len() {
                Step::Short(i + n, data.len() as int)
            } else if st.d + n > st.dst.len() {
                Step::Overrun
            } else {
                let dst = st.dst.subrange(0, st.d) + data.subrange(i, i + n) + st.dst.subrange(st.d + n, st.dst.len() as int);
                Step::Next(Rle { i: i + n, d: st.d + n, dst, ..st })
            }
        },
    }
}

/// A one-byte order: the special masks, white and black.
pub open spec fn single_order(p: RleParams, st: Rle, code: u8) -> Step {
    if code == SPECIAL_FGBG_1 || code == SPECIAL_FGBG_2 {
        let mask: u8 = if code == SPECIAL_FGBG_1 { 0x03 } else { 0x05 };
        after_px(fgbg_px(st.dst, st.d, mask, 0, 8, st.fg, st.first_line, p), Rle { i: st.i + 1, ..st })
    } else if code == WHITE {
        after_px(run_px(st.dst, st.d, 1, p, Fill::Value(p.white)), Rle { i: st.i + 1, ..st })
    } else if code == BLACK {
        after_px(run_px(st.dst, st.d, 1, p, Fill::Value(0)), Rle { i: st.i + 1, ..st })
    } else {
        Step::Unknown
    }
}

/// What the order at `st.i` does (the state already past [`line_check`]).
/// Every order but a background run clears `insert_fg`.
pub open spec fn spec_order(data: Seq<u8>, p: RleParams, st: Rle) -> Step {
    let code = spec_code_id(data[st.i]);
    if code == BG_RUN || code == MEGA_BG_RUN {
        bg_order(data, p, st, code)
    } else {
        let st = Rle { insert_fg: false, ..st };
        if is_fg_run(code) {
            fg_order(data, p, st, code)
        } else if code == LITE_DITHERED_RUN || code == MEGA_DITHERED_RUN {
            dither_order(data, p, st, code)
        } else if code == COLOR_RUN || code == MEGA_COLOR_RUN {
            color_run_order(data, p, st, code)
        } else if is_fgbg_image(code) {
            fgbg_order(data, p, st, code)
        } else if code == COLOR_IMAGE || code == MEGA_COLOR_IMAGE {
            color_image_order(data, p, st, code)
        } else {
            single_order(p, st, code)
        }
    }
}

/// What the order at `st.i` does.
pub open spec fn spec_step(data: Seq<u8>, p: RleParams, st: Rle) -> Step {
    spec_order(data, p, line_check(st, p))
}

/// Run the orders from `st` to the end of the stream.
pub open spec fn spec_rle_run(data: Seq<u8>, p: RleParams, st: Rle) -> Outcome
    decreases data.len() - st.i,
{
    if st.i >= data.len() || st.i < 0 {
        Outcome::Done(st.dst)
    } else {
        match spec_step(data, p, st) {
            Step::Next(s) => if st.i < s.i <= data.len() {
                spec_rle_run(data, p, s)
            } else {
                Outcome::Unknown
            },
            Step::Short(n, h) => Outcome::Short(n, h),
            Step::Unknown => Outcome::Unknown,
            Step::Overrun => Outcome::Overrun,
        }
    }
}

/// What `data` decompresses to at `width × height` pixels of `bpp`, if the bpp
/// is supported.
pub open spec fn spec_decompress(data: Seq<u8>, width: nat, height: nat, bpp: u16) -> Option<Outcome> {
    match spec_pixel_size(bpp) {
        None => None,
        Some(ps) => {
            let p = RleParams { ps, row_delta: width * ps, white: spec_white(bpp) };
            let st = Rle {
                i: 0,
                d: 0,
                fg: spec_white(bpp),
                insert_fg: false,
                first_line: true,
                dst: zeros(width * ps * height),
            };
            Some(spec_rle_run(data, p, st))
        },
    }
}


/// A run of pixels fits exactly when its last pixel ends within the destination.
proof fn lemma_run_px_fits(dst: Seq<u8>, d: int, n: nat, p: RleParams, f: Fill)
    requires
        p.ps >= 1,
        p.ps <= 3,
        0 <= d <= dst.len(),
    ensures
        run_px(dst, d, n, p, f) is None <==> d + n * p.ps > dst.len(),
        run_px(dst, d, n, p, f) matches Some((s, e)) ==> e == d + n * p.ps && s.len() == dst.len(),
    decreases n,
{
    if n > 0 {
        assert(n * p.ps == (n - 1) * p.ps + p.ps) by (nonlinear_arith);
        assert((n - 1) * p.ps >= 0) by (nonlinear_arith)
            requires
                n >= 1,
        ;
        if d + p.ps <= dst.len() {
            assert(put_px(dst, d, fill_px(dst, d, p, f), p.ps).len() == dst.len());
            lemma_run_px_fits(put_px(dst, d, fill_px(dst, d, p, f), p.ps), d + p.ps, (n - 1) as nat, p, f);
        }
    }
}

/// Pixel pairs fit exactly when the last pair ends within the destination.
proof fn lemma_dither_px_fits(dst: Seq<u8>, d: int, n: nat, a: u32, b: u32, ps: nat)
    requires
        ps >= 1,
        ps <= 3,
        0 <= d <= dst.len(),
    ensures
        dither_px(dst, d, n, a, b, ps) is None <==> d + n * (2 * ps) > dst.len(),
        dither_px(dst, d, n, a, b, ps) matches Some((s, e)) ==> e == d + n * (2 * ps) && s.len() == dst.len(),
    decreases n,
{
    if n > 0 {
        assert(n * (2 * ps) == (n - 1) * (2 * ps) + 2 * ps) by (nonlinear_arith);
        assert((n - 1) * (2 * ps) >= 0) by (nonlinear_arith)
            requires
                n >= 1,
        ;
        if d + ps + ps <= dst.len() {
            assert(put_px(put_px(dst, d, a, ps), d + ps, b, ps).len() == dst.len());
            lemma_dither_px_fits(put_px(put_px(dst, d, a, ps), d + ps, b, ps), d + ps + ps, (n - 1) as nat, a, b, ps);
        }
    }
}

/// Mask pixels `k..bits` fit exactly when the last ends within the destination.
proof fn lemma_fgbg_px_fits(dst: Seq<u8>, d: int, mask: u8, k: nat, bits: nat, fg: u32, first_line: bool, p: RleParams)
    requires
        p.ps >= 1,
        p.ps <= 3,
        0 <= d <= dst.len(),
        k <= bits,
    ensures
        fgbg_px(dst, d, mask, k, bits, fg, first_line, p) is None <==> d + (bits - k) * p.ps > dst.len(),
        fgbg_px(dst, d, mask, k, bits, fg, first_line, p) matches Some((s, e)) ==> e == d + (bits - k) * p.ps
            && s.len() == dst.len(),
    decreases bits - k,
{
    if k < bits {
        assert((bits - k) * p.ps == (bits - (k + 1)) * p.ps + p.ps) by (nonlinear_arith);
        assert((bits - (k + 1)) * p.ps >= 0) by (nonlinear_arith)
            requires
                k + 1 <= bits,
        ;
        if d + p.ps <= dst.len() {
            let set = mask_bit(mask, k);
            let v = if first_line {
                if set { fg } else { 0 }
            } else {
                let above = get_px(dst, d - p.row_delta, p.ps);
                if set { above ^ fg } else { above }
            };
            assert(put_px(dst, d, v, p.ps).len() == dst.len());
            lemma_fgbg_px_fits(put_px(dst, d, v, p.ps), d + p.ps, mask, k + 1, bits, fg, first_line, p);
            assert(fgbg_px(dst, d, mask, k, bits, fg, first_line, p) == fgbg_px(
                put_px(dst, d, v, p.ps),
                d + p.ps,
                mask,
                k + 1,
                bits,
                fg,
                first_line,
                p,
            ));
            assert(fgbg_px(dst, d, mask, k, bits, fg, first_line, p) is None <==> d + (bits - k) * p.ps > dst.len());
        } else {
            assert(fgbg_px(dst, d, mask, k, bits, fg, first_line, p) is None);
            assert(d + (bits - k) * p.ps > dst.len());
        }
    } else {
        assert((bits - k) * p.ps == 0) by (nonlinear_arith)
            requires
                k == bits,
        ;
    }
}

/// A state whose destination cursor lies within its destination.
pub open spec fn cursor_ok(st: Rle) -> bool {
    0 <= st.d <= st.dst.len()
}

/// A pixel-writing result keeps the destination's length and its cursor in it.
pub open spec fn keeps(r: Option<(Seq<u8>, int)>, len: nat) -> bool {
    r matches Some((s, e)) ==> s.len() == len && 0 <= e <= len
}

proof fn lemma_fgbg_chunks_len(data: Seq<u8>, p: RleParams, st: Rle, len: nat)
    requires
        1 <= p.ps <= 3,
        cursor_ok(st),
    ensures
        fgbg_chunks(data, p, st, len) matches Step::Next(s) ==> cursor_ok(s) && s.dst.len() == st.dst.len(),
    decreases len,
{
    if len > 0 {
        let bits: nat = if len < 8 { len } else { 8 };
        if st.i + 1 <= data.len() {
            lemma_fgbg_px_fits(st.dst, st.d, data[st.i], 0, bits, st.fg, st.first_line, p);
            if let Some((dst, d)) = fgbg_px(st.dst, st.d, data[st.i], 0, bits, st.fg, st.first_line, p) {
                assert(bits * p.ps >= 0) by (nonlinear_arith);
                lemma_fgbg_chunks_len(data, p, Rle { i: st.i + 1, d, dst, ..st }, (len - bits) as nat);
            }
        }
    }
}

proof fn lemma_run_keeps(dst: Seq<u8>, d: int, n: nat, p: RleParams, f: Fill)
    requires
        1 <= p.ps <= 3,
        0 <= d <= dst.len(),
    ensures
        keeps(run_px(dst, d, n, p, f), dst.len()),
{
    lemma_run_px_fits(dst, d, n, p, f);
    assert(n * p.ps >= 0) by (nonlinear_arith);
}

/// One order keeps the destination's length and its cursor within it.
proof fn lemma_step_len(data: Seq<u8>, p: RleParams, st: Rle)
    requires
        1 <= p.ps <= 3,
        cursor_ok(st),
        0 <= st.i < data.len(),
    ensures
        spec_step(data, p, st) matches Step::Next(s) ==> cursor_ok(s) && s.dst.len() == st.dst.len(),
{
    let s0 = line_check(st, p);
    let code = spec_code_id(data[s0.i]);
    let s1 = Rle { insert_fg: false, ..s0 };
    if code == BG_RUN || code == MEGA_BG_RUN {
        if let RunLength::Len(len, hlen) = spec_run_length(code, data.subrange(s0.i, data.len() as int)) {
            let first = if s0.first_line { Fill::Value(s0.fg) } else { Fill::AboveXor(s0.fg) };
            let rest = if s0.first_line { Fill::Value(0) } else { Fill::AboveXor(0) };
            if s0.insert_fg && len > 0 {
                lemma_run_keeps(s0.dst, s0.d, 1, p, first);
                if let Some((dst, d)) = run_px(s0.dst, s0.d, 1, p, first) {
                    lemma_run_keeps(dst, d, (len - 1) as nat, p, rest);
                }
            } else {
                lemma_run_keeps(s0.dst, s0.d, len, p, rest);
            }
        }
    } else if is_fg_run(code) {
        if let RunLength::Len(len, hlen) = spec_run_length(code, data.subrange(s1.i, data.len() as int)) {
            let i = s1.i + hlen;
            let fg = if sets_fg(code) { get_px(data, i, p.ps) } else { s1.fg };
            let f = if s1.first_line { Fill::Value(fg) } else { Fill::AboveXor(fg) };
            lemma_run_keeps(s1.dst, s1.d, len, p, f);
        }
    } else if code == LITE_DITHERED_RUN || code == MEGA_DITHERED_RUN {
        if let RunLength::Len(len, hlen) = spec_run_length(code, data.subrange(s1.i, data.len() as int)) {
            let i = s1.i + hlen;
            if i + 2 * p.ps <= data.len() {
                let a = get_px(data, i, p.ps);
                let b = get_px(data, i + p.ps, p.ps);
                lemma_dither_px_fits(s1.dst, s1.d, len, a, b, p.ps);
                assert(len * (2 * p.ps) >= 0) by (nonlinear_arith);
            }
        }
    } else if code == COLOR_RUN || code == MEGA_COLOR_RUN {
        if let RunLength::Len(len, hlen) = spec_run_length(code, data.subrange(s1.i, data.len() as int)) {
            let i = s1.i + hlen;
            if i + p.ps <= data.len() {
                lemma_run_keeps(s1.dst, s1.d, len, p, Fill::Value(get_px(data, i, p.ps)));
            }
        }
    } else if is_fgbg_image(code) {
        if let RunLength::Len(len, hlen) = spec_run_length(code, data.subrange(s1.i, data.len() as int)) {
            let i = s1.i + hlen;
            let fg = if sets_fg(code) { get_px(data, i, p.ps) } else { s1.fg };
            let i2 = if sets_fg(code) { i + p.ps } else { i };
            lemma_fgbg_chunks_len(data, p, Rle { i: i2, fg, ..s1 }, len);
        }
    } else if code == COLOR_IMAGE || code == MEGA_COLOR_IMAGE {
        if let RunLength::Len(len, hlen) = spec_run_length(code, data.subrange(s1.i, data.len() as int)) {
            assert(len * p.ps >= 0) by (nonlinear_arith);
        }
    } else {
        if code == SPECIAL_FGBG_1 || code == SPECIAL_FGBG_2 {
            let mask: u8 = if code == SPECIAL_FGBG_1 { 0x03 } else { 0x05 };
            lemma_fgbg_px_fits(s1.dst, s1.d, mask, 0, 8, s1.fg, s1.first_line, p);
            assert(8 * p.ps >= 0);
        } else if code == WHITE {
            lemma_run_keeps(s1.dst, s1.d, 1, p, Fill::Value(p.white));
        } else if code == BLACK {
            lemma_run_keeps(s1.dst, s1.d, 1, p, Fill::Value(0));
        }
    }
}

/// A run of orders that completes gives back a destination of the length it
/// started with.
proof fn lemma_run_len(data: Seq<u8>, p: RleParams, st: Rle)
    requires
        1 <= p.ps <= 3,
        cursor_ok(st),
    ensures
        spec_rle_run(data, p, st) matches Outcome::Done(out) ==> out.len() == st.dst.len(),
    decreases data.len() - st.i,
{
    if 0 <= st.i < data.len() {
        lemma_step_len(data, p, st);
        if let Step::Next(s) = spec_step(data, p, st) {
            if st.i < s.i <= data.len() {
                lemma_run_len(data, p, s);
            }
        }
    }
}

/// A stream that decompresses fills exactly `width * height` pixels of the
/// bpp's pixel size.
pub proof fn lemma_decompress_len(data: Seq<u8>, width: nat, height: nat, bpp: u16)
    ensures
        spec_decompress(data, width, height, bpp) matches Some(Outcome::Done(out)) ==> out.len() == width
            * spec_pixel_size(bpp).unwrap() * height,
{
    if let Some(ps) = spec_pixel_size(bpp) {
        let p = RleParams { ps, row_delta: width * ps, white: spec_white(bpp) };
        let st = Rle { i: 0, d: 0, fg: spec_white(bpp), insert_fg: false, first_line: true, dst: zeros(width * ps * height) };
        lemma_run_len(data, p, st);
    }
}

fn read_px(buf: &[u8], idx: usize, ps: usize) -> (r: u32)
    requires
        1 <= ps <= 3,
        idx + ps <= buf.len(),
    ensures
        r == get_px(buf@, idx as int, ps as nat),
{
    if ps == 1 {
        buf[idx] as u32
    } else if ps == 2 {
        buf[idx] as u32 + buf[idx + 1] as u32 * 256
    } else {
        buf[idx] as u32 + buf[idx + 1] as u32 * 256 + buf[idx + 2] as u32 * 65536
    }
}

fn write_px(dst: &mut Vec<u8>, d: usize, v: u32, ps: usize)
    requires
        1 <= ps <= 3,
        d + ps <= old(dst).len(),
    ensures
        final(dst)@ == put_px(old(dst)@, d as int, v, ps as nat),
{
    dst.set(d, (v % 256) as u8);
    if ps >= 2 {
        dst.set(d + 1, ((v / 256) % 256) as u8);
    }
    if ps == 3 {
        dst.set(d + 2, ((v / 65536) % 256) as u8);
    }
}

/// The decoder's exec state.
struct Decoder {
    i: usize,
    d: usize,
    fg: u32,
    insert_fg: bool,
    first_line: bool,
    dst: Vec<u8>,
}

impl View for Decoder {
    type V = Rle;

    closed spec fn view(&self) -> Rle {
        Rle { i: self.i as int, d: self.d as int, fg: self.fg, insert_fg: self.insert_fg, first_line: self.first_line, dst: self.dst@ }
    }
}

/// The state invariant: cursors in range, and past the first scanline the
/// destination cursor is at least a scanline in.
spec fn decoder_ok(dec: Decoder, data: Seq<u8>, p: RleParams) -> bool {
    &&& dec.i <= data.len()
    &&& dec.d <= dec.dst.len()
    &&& !dec.first_line ==> dec.d >= p.row_delta
    &&& 1 <= p.ps <= 3
}

/// Fill `n` pixels from `d` on; `above` selects the pixel-above fill.
fn fill_run(dst: &mut Vec<u8>, d: usize, n: usize, above: bool, x: u32, row_delta: usize, ps: usize, Ghost(p): Ghost<RleParams>) -> (r: usize)
    requires
        d <= old(dst)@.len(),
        p.ps == ps,
        p.row_delta == row_delta,
        1 <= ps <= 3,
        above ==> d >= row_delta,
        run_px(old(dst)@, d as int, n as nat, p, if above { Fill::AboveXor(x) } else { Fill::Value(x) }) is Some,
    ensures
        run_px(old(dst)@, d as int, n as nat, p, if above { Fill::AboveXor(x) } else { Fill::Value(x) }) == Some((final(dst)@, r as int)),
        r >= d,
        r <= final(dst)@.len(),
        final(dst)@.len() == old(dst)@.len(),
{
    let ghost f = if above { Fill::AboveXor(x) } else { Fill::Value(x) };
    let ghost target = run_px(old(dst)@, d as int, n as nat, p, f);
    let mut k: usize = 0;
    let mut e: usize = d;
    while k < n
        invariant
            k <= n,
            e >= d,
            p.ps == ps,
            p.row_delta == row_delta,
            1 <= ps <= 3,
            above ==> d >= row_delta,
            f == (if above { Fill::AboveXor(x) } else { Fill::Value(x) }),
            target is Some,
            run_px(dst@, e as int, (n - k) as nat, p, f) == target,
            dst@.len() == old(dst)@.len(),
            e <= dst@.len() || k < n,
        decreases n - k,
    {
        let len = dst.len();
        assert(e + ps <= len);
        let v = if above { read_px(dst.as_slice(), e - row_delta, ps) ^ x } else { x };
        write_px(dst, e, v, ps);
        e = e + ps;
        k = k + 1;
    }
    e
}

/// Write `n` pixel pairs `a`, `b` from `d` on.
fn dither_run(dst: &mut Vec<u8>, d: usize, n: usize, a: u32, b: u32, ps: usize) -> (r: usize)
    requires
        d <= old(dst)@.len(),
        1 <= ps <= 3,
        dither_px(old(dst)@, d as int, n as nat, a, b, ps as nat) is Some,
    ensures
        dither_px(old(dst)@, d as int, n as nat, a, b, ps as nat) == Some((final(dst)@, r as int)),
        r >= d,
        r <= final(dst)@.len(),
        final(dst)@.len() == old(dst)@.len(),
{
    let ghost target = dither_px(old(dst)@, d as int, n as nat, a, b, ps as nat);
    let mut k: usize = 0;
    let mut e: usize = d;
    while k < n
        invariant
            k <= n,
            e >= d,
            1 <= ps <= 3,
            target is Some,
            dither_px(dst@, e as int, (n - k) as nat, a, b, ps as nat) == target,
            dst@.len() == old(dst)@.len(),
            e <= dst@.len() || k < n,
        decreases n - k,
    {
        let len = dst.len();
        assert(e + ps + ps <= len);
        write_px(dst, e, a, ps);
        write_px(dst, e + ps, b, ps);
        e = e + ps + ps;
        k = k + 1;
    }
    e
}

/// Write pixels `0..bits` of a foreground/background mask from `d` on.
fn fgbg_run(dst: &mut Vec<u8>, d: usize, mask: u8, bits: usize, fg: u32, first_line: bool, row_delta: usize, ps: usize, Ghost(p): Ghost<RleParams>) -> (r: usize)
    requires
        d <= old(dst)@.len(),
        p.ps == ps,
        p.row_delta == row_delta,
        1 <= ps <= 3,
        bits <= 8,
        !first_line ==> d >= row_delta,
        fgbg_px(old(dst)@, d as int, mask, 0, bits as nat, fg, first_line, p) is Some,
    ensures
        fgbg_px(old(dst)@, d as int, mask, 0, bits as nat, fg, first_line, p) == Some((final(dst)@, r as int)),
        r >= d,
        r <= final(dst)@.len(),
        final(dst)@.len() == old(dst)@.len(),
{
    let ghost target = fgbg_px(old(dst)@, d as int, mask, 0, bits as nat, fg, first_line, p);
    let mut k: usize = 0;
    let mut e: usize = d;
    while k < bits
        invariant
            k <= bits <= 8,
            e >= d,
            p.ps == ps,
            p.row_delta == row_delta,
            1 <= ps <= 3,
            !first_line ==> d >= row_delta,
            target is Some,
            fgbg_px(dst@, e as int, mask, k as nat, bits as nat, fg, first_line, p) == target,
            dst@.len() == old(dst)@.len(),
            e <= dst@.len() || k < bits,
        decreases bits - k,
    {
        let len = dst.len();
        assert(e + ps <= len);
        let set = (mask >> (k as u8)) & 1 == 1;
        let v = if first_line {
            if set { fg } else { 0 }
        } else {
            let above = read_px(dst.as_slice(), e - row_delta, ps);
            if set { above ^ fg } else { above }
        };
        write_px(dst, e, v, ps);
        e = e + ps;
        k = k + 1;
    }
    e
}

/// Whether `r` and the state after it are what step `s` says; `None` is an overrun.
spec fn matches_step(s: Step, r: Option<Result<()>>, after: Rle) -> bool {
    match s {
        Step::Next(n) => r == Some(Ok::<(), Error>(())) && after == n,
        Step::Short(n, h) => r matches Some(x) && is_short(x, n, h),
        Step::Unknown => r matches Some(x) && is_protocol(x),
        Step::Overrun => r is None,
    }
}

/// A successful order moved the source cursor on and kept the invariant.
spec fn progressed(before: Decoder, after: Decoder, data: Seq<u8>, p: RleParams) -> bool {
    &&& decoder_ok(after, data, p)
    &&& after.i > before.i
    &&& after.dst@.len() == before.dst@.len()
}

/// The preconditions every order shares.
spec fn order_pre(dec: Decoder, data: &[u8], ps: usize, row_delta: usize, white: u32, p: RleParams) -> bool {
    &&& p == (RleParams { ps: ps as nat, row_delta: row_delta as nat, white })
    &&& decoder_ok(dec, data@, p)
    &&& data.len() <= isize::MAX
    &&& dec.i < data.len()
}

/// Whether `n` pixels of `ps` bytes fit from `d` on in `dst`.
fn fits(dst: &Vec<u8>, d: usize, n: usize, ps: usize) -> (r: bool)
    requires
        d <= dst.len(),
        n <= 0x2_0000,
        1 <= ps <= 3,
    ensures
        r == (d + n * ps <= dst.len()),
{
    assert(n * ps <= 0x6_0000) by (nonlinear_arith)
        requires
            n <= 0x2_0000,
            ps <= 3,
    ;
    n * ps <= dst.len() - d
}

impl Decoder {
    /// Write `n` bytes of `data[from..]` at the destination cursor.
    fn copy_image(&mut self, data: &[u8], from: usize, n: usize)
        requires
            from + n <= data.len(),
            old(self).d + n <= old(self).dst@.len(),
        ensures
            final(self).dst@ == old(self).dst@.subrange(0, old(self).d as int) + data@.subrange(from as int, from + n)
                + old(self).dst@.subrange(old(self).d + n, old(self).dst@.len() as int),
            final(self).d == old(self).d + n,
            final(self).i == old(self).i,
            final(self).fg == old(self).fg,
            final(self).insert_fg == old(self).insert_fg,
            final(self).first_line == old(self).first_line,
    {
        let d0 = self.d;
        let ghost old_dst = self.dst@;
        let total = self.dst.len();
        let mut k: usize = 0;
        while k < n
            invariant
                k <= n,
                total == old_dst.len(),
                self.i == old(self).i,
                self.fg == old(self).fg,
                self.insert_fg == old(self).insert_fg,
                self.first_line == old(self).first_line,
                from + n <= data.len(),
                d0 + n <= old_dst.len(),
                self.d == d0,
                self.dst@.len() == old_dst.len(),
                forall|j: int| 0 <= j < d0 ==> self.dst@[j] == old_dst[j],
                forall|j: int| d0 <= j < d0 + k ==> self.dst@[j] == data@[from + j - d0],
                forall|j: int| d0 + k <= j < old_dst.len() ==> self.dst@[j] == old_dst[j],
            decreases n - k,
        {
            self.dst.set(d0 + k, data[from + k]);
            k = k + 1;
        }
        self.d = d0 + n;
        assert(self.dst@ =~= old_dst.subrange(0, d0 as int) + data@.subrange(from as int, from + n) + old_dst.subrange(
            d0 + n,
            old_dst.len() as int,
        ));
    }

    fn bg_order(&mut self, data: &[u8], code: u8, ps: usize, row_delta: usize, white: u32, Ghost(p): Ghost<RleParams>) -> (r: Option<Result<()>>)
        requires
            order_pre(*old(self), data, ps, row_delta, white, p),
        ensures
            matches_step(bg_order(data@, p, old(self)@, code), r, final(self)@),
            r == Some(Ok::<(), Error>(())) ==> progressed(*old(self), *final(self), data@, p),
    {
        let src = slice_range(data, self.i, data.len());
        let (len, hlen) = match run_length(code, src) {
            Ok(x) => x,
            Err(e) => return Some(Err(e)),
        };
        let fl = self.first_line;
        let ghost st = self@;
        let mut n = len;
        if self.insert_fg && n > 0 {
            proof {
                lemma_run_px_fits(st.dst, st.d, 1, p, if fl { Fill::Value(st.fg) } else { Fill::AboveXor(st.fg) });
            }
            if !fits(&self.dst, self.d, 1, ps) {
                return None;
            }
            self.d = fill_run(&mut self.dst, self.d, 1, !fl, self.fg, row_delta, ps, Ghost(p));
            n = n - 1;
        }
        proof {
            lemma_run_px_fits(self.dst@, self.d as int, n as nat, p, if fl { Fill::Value(0) } else { Fill::AboveXor(0) });
        }
        if !fits(&self.dst, self.d, n, ps) {
            return None;
        }
        self.d = fill_run(&mut self.dst, self.d, n, !fl, 0, row_delta, ps, Ghost(p));
        self.i = self.i + hlen;
        self.insert_fg = true;
        Some(Ok(()))
    }

    fn fg_order(&mut self, data: &[u8], code: u8, ps: usize, row_delta: usize, white: u32, Ghost(p): Ghost<RleParams>) -> (r: Option<Result<()>>)
        requires
            order_pre(*old(self), data, ps, row_delta, white, p),
        ensures
            matches_step(fg_order(data@, p, old(self)@, code), r, final(self)@),
            r == Some(Ok::<(), Error>(())) ==> progressed(*old(self), *final(self), data@, p),
    {
        let src = slice_range(data, self.i, data.len());
        let (len, hlen) = match run_length(code, src) {
            Ok(x) => x,
            Err(e) => return Some(Err(e)),
        };
        let mut i = self.i + hlen;
        if code == LITE_SET_FG_FG_RUN || code == MEGA_SET_FG_RUN || code == LITE_SET_FG_FGBG_IMAGE || code == MEGA_SET_FGBG_IMAGE {
            if data.len() - i < ps {
                return Some(Err(Error::Short { need: i + ps, have: data.len() }));
            }
            self.fg = read_px(data, i, ps);
            i = i + ps;
        }
        proof {
            lemma_run_px_fits(self.dst@, self.d as int, len as nat, p, if self.first_line { Fill::Value(self.fg) } else { Fill::AboveXor(self.fg) });
        }
        if !fits(&self.dst, self.d, len, ps) {
            return None;
        }
        self.d = fill_run(&mut self.dst, self.d, len, !self.first_line, self.fg, row_delta, ps, Ghost(p));
        self.i = i;
        Some(Ok(()))
    }

    fn dither_order(&mut self, data: &[u8], code: u8, ps: usize, row_delta: usize, white: u32, Ghost(p): Ghost<RleParams>) -> (r: Option<Result<()>>)
        requires
            order_pre(*old(self), data, ps, row_delta, white, p),
        ensures
            matches_step(dither_order(data@, p, old(self)@, code), r, final(self)@),
            r == Some(Ok::<(), Error>(())) ==> progressed(*old(self), *final(self), data@, p),
    {
        let src = slice_range(data, self.i, data.len());
        let (len, hlen) = match run_length(code, src) {
            Ok(x) => x,
            Err(e) => return Some(Err(e)),
        };
        let i = self.i + hlen;
        if data.len() - i < 2 * ps {
            return Some(Err(Error::Short { need: i + 2 * ps, have: data.len() }));
        }
        let a = read_px(data, i, ps);
        let b = read_px(data, i + ps, ps);
        proof {
            lemma_dither_px_fits(self.dst@, self.d as int, len as nat, a, b, ps as nat);
            assert(len * (2 * ps) == 2 * len * ps) by (nonlinear_arith);
        }
        if !fits(&self.dst, self.d, 2 * len, ps) {
            return None;
        }
        self.d = dither_run(&mut self.dst, self.d, len, a, b, ps);
        self.i = i + 2 * ps;
        Some(Ok(()))
    }

    fn color_run_order(&mut self, data: &[u8], code: u8, ps: usize, row_delta: usize, white: u32, Ghost(p): Ghost<RleParams>) -> (r: Option<Result<()>>)
        requires
            order_pre(*old(self), data, ps, row_delta, white, p),
        ensures
            matches_step(color_run_order(data@, p, old(self)@, code), r, final(self)@),
            r == Some(Ok::<(), Error>(())) ==> progressed(*old(self), *final(self), data@, p),
    {
        let src = slice_range(data, self.i, data.len());
        let (len, hlen) = match run_length(code, src) {
            Ok(x) => x,
            Err(e) => return Some(Err(e)),
        };
        let i = self.i + hlen;
        if data.len() - i < ps {
            return Some(Err(Error::Short { need: i + ps, have: data.len() }));
        }
        let a = read_px(data, i, ps);
        proof {
            lemma_run_px_fits(self.dst@, self.d as int, len as nat, p, Fill::Value(a));
        }
        if !fits(&self.dst, self.d, len, ps) {
            return None;
        }
        self.d = fill_run(&mut self.dst, self.d, len, false, a, row_delta, ps, Ghost(p));
        self.i = i + ps;
        Some(Ok(()))
    }

    fn fgbg_order(&mut self, data: &[u8], code: u8, ps: usize, row_delta: usize, white: u32, Ghost(p): Ghost<RleParams>) -> (r: Option<Result<()>>)
        requires
            order_pre(*old(self), data, ps, row_delta, white, p),
        ensures
            matches_step(fgbg_order(data@, p, old(self)@, code), r, final(self)@),
            r == Some(Ok::<(), Error>(())) ==> progressed(*old(self), *final(self), data@, p),
    {
        let src = slice_range(data, self.i, data.len());
        let (len, hlen) = match run_length(code, src) {
            Ok(x) => x,
            Err(e) => return Some(Err(e)),
        };
        let mut i = self.i + hlen;
        if code == LITE_SET_FG_FG_RUN || code == MEGA_SET_FG_RUN || code == LITE_SET_FG_FGBG_IMAGE || code == MEGA_SET_FGBG_IMAGE {
            if data.len() - i < ps {
                return Some(Err(Error::Short { need: i + ps, have: data.len() }));
            }
            self.fg = read_px(data, i, ps);
            i = i + ps;
        }
        self.i = i;
        let ghost target = fgbg_chunks(data@, p, self@, len as nat);
        assert(fgbg_order(data@, p, old(self)@, code) == target);
        let mut remaining = len;
        while remaining > 0
            invariant
                p == (RleParams { ps: ps as nat, row_delta: row_delta as nat, white }),
                decoder_ok(*self, data@, p),
                data.len() <= isize::MAX,
                self.i > old(self).i,
                self.dst@.len() == old(self).dst@.len(),
                fgbg_chunks(data@, p, self@, remaining as nat) == target,
                fgbg_order(data@, p, old(self)@, code) == target,
            decreases remaining,
        {
            let bits = if remaining < 8 { remaining } else { 8 };
            if self.i >= data.len() {
                return Some(Err(Error::Short { need: self.i + 1, have: data.len() }));
            }
            let mask = data[self.i];
            proof {
                lemma_fgbg_px_fits(self.dst@, self.d as int, mask, 0, bits as nat, self.fg, self.first_line, p);
            }
            if !fits(&self.dst, self.d, bits, ps) {
                return None;
            }
            self.i = self.i + 1;
            self.d = fgbg_run(&mut self.dst, self.d, mask, bits, self.fg, self.first_line, row_delta, ps, Ghost(p));
            remaining = remaining - bits;
        }
        Some(Ok(()))
    }

    fn color_image_order(&mut self, data: &[u8], code: u8, ps: usize, row_delta: usize, white: u32, Ghost(p): Ghost<RleParams>) -> (r: Option<Result<()>>)
        requires
            order_pre(*old(self), data, ps, row_delta, white, p),
        ensures
            matches_step(color_image_order(data@, p, old(self)@, code), r, final(self)@),
            r == Some(Ok::<(), Error>(())) ==> progressed(*old(self), *final(self), data@, p),
    {
        let src = slice_range(data, self.i, data.len());
        let (len, hlen) = match run_length(code, src) {
            Ok(x) => x,
            Err(e) => return Some(Err(e)),
        };
        let i = self.i + hlen;
        assert(len * ps <= 0x30000) by (nonlinear_arith)
            requires
                len <= 0x1_0000,
                ps <= 3,
        ;
        let n = len * ps;
        if data.len() - i < n {
            return Some(Err(Error::Short { need: i + n, have: data.len() }));
        }
        if self.dst.len() - self.d < n {
            return None;
        }
        self.copy_image(data, i, n);
        self.i = i + n;
        Some(Ok(()))
    }

    fn single_order(&mut self, data: &[u8], code: u8, ps: usize, row_delta: usize, white: u32, Ghost(p): Ghost<RleParams>) -> (r: Option<Result<()>>)
        requires
            order_pre(*old(self), data, ps, row_delta, white, p),
        ensures
            matches_step(single_order(p, old(self)@, code), r, final(self)@),
            r == Some(Ok::<(), Error>(())) ==> progressed(*old(self), *final(self), data@, p),
    {
        if code == SPECIAL_FGBG_1 || code == SPECIAL_FGBG_2 {
            let mask: u8 = if code == SPECIAL_FGBG_1 { 0x03 } else { 0x05 };
            proof {
                lemma_fgbg_px_fits(self.dst@, self.d as int, mask, 0, 8, self.fg, self.first_line, p);
            }
            if !fits(&self.dst, self.d, 8, ps) {
                return None;
            }
            self.d = fgbg_run(&mut self.dst, self.d, mask, 8, self.fg, self.first_line, row_delta, ps, Ghost(p));
            self.i = self.i + 1;
            Some(Ok(()))
        } else if code == WHITE || code == BLACK {
            let v: u32 = if code == WHITE { white } else { 0 };
            proof {
                lemma_run_px_fits(self.dst@, self.d as int, 1, p, Fill::Value(v));
            }
            if !fits(&self.dst, self.d, 1, ps) {
                return None;
            }
            self.d = fill_run(&mut self.dst, self.d, 1, false, v, row_delta, ps, Ghost(p));
            self.i = self.i + 1;
            Some(Ok(()))
        } else {
            Some(Err(Error::Protocol("unknown RLE order")))
        }
    }

    /// Decode the order at the source cursor; `None` when it would write past
    /// the end of the destination.
    fn step(&mut self, data: &[u8], ps: usize, row_delta: usize, white: u32, Ghost(p): Ghost<RleParams>) -> (r: Option<Result<()>>)
        requires
            order_pre(*old(self), data, ps, row_delta, white, p),
        ensures
            matches_step(spec_step(data@, p, old(self)@), r, final(self)@),
            r == Some(Ok::<(), Error>(())) ==> progressed(*old(self), *final(self), data@, p),
    {
        if self.first_line && self.d >= row_delta {
            self.first_line = false;
            self.insert_fg = false;
        }
        let code = code_id(data[self.i]);
        if code == BG_RUN || code == MEGA_BG_RUN {
            return self.bg_order(data, code, ps, row_delta, white, Ghost(p));
        }
        self.insert_fg = false;
        if code == FG_RUN || code == MEGA_FG_RUN || code == LITE_SET_FG_FG_RUN || code == MEGA_SET_FG_RUN {
            self.fg_order(data, code, ps, row_delta, white, Ghost(p))
        } else if code == LITE_DITHERED_RUN || code == MEGA_DITHERED_RUN {
            self.dither_order(data, code, ps, row_delta, white, Ghost(p))
        } else if code == COLOR_RUN || code == MEGA_COLOR_RUN {
            self.color_run_order(data, code, ps, row_delta, white, Ghost(p))
        } else if code == FGBG_IMAGE || code == MEGA_FGBG_IMAGE || code == LITE_SET_FG_FGBG_IMAGE || code == MEGA_SET_FGBG_IMAGE {
            self.fgbg_order(data, code, ps, row_delta, white, Ghost(p))
        } else if code == COLOR_IMAGE || code == MEGA_COLOR_IMAGE {
            self.color_image_order(data, code, ps, row_delta, white, Ghost(p))
        } else {
            self.single_order(data, code, ps, row_delta, white, Ghost(p))
        }
    }
}

/// Whether `r` is what outcome `o` says; `None` is an overrun.
pub open spec fn matches_outcome(o: Outcome, r: Option<Result<Vec<u8>>>) -> bool {
    match o {
        Outcome::Done(out) => r matches Some(Ok(v)) && v@ == out,
        Outcome::Short(n, h) => r matches Some(x) && is_short(x, n, h),
        Outcome::Unknown => r matches Some(x) && is_protocol(x),
        Outcome::Overrun => r is None,
    }
}

/// The machine limits a decompression works within.
pub open spec fn rle_sizes_ok(data_len: nat, width: nat, height: nat) -> bool {
    &&& data_len <= isize::MAX
    &&& width * 3 <= isize::MAX
    &&& width * height * 3 <= isize::MAX
}

/// Run the decoder; `None` when the stream writes past the end of the destination.
fn decode(data: &[u8], width: usize, height: usize, bpp: u16) -> (r: Option<Result<Vec<u8>>>)
    requires
        rle_sizes_ok(data.len() as nat, width as nat, height as nat),
    ensures
        match spec_decompress(data@, width as nat, height as nat, bpp) {
            None => r matches Some(x) && is_protocol(x),
            Some(o) => matches_outcome(o, r),
        },
{
    let ps = match pixel_size(bpp) {
        Ok(n) => n,
        Err(e) => return Some(Err(e)),
    };
    let white = white_pixel(bpp);
    assert(width * ps <= width * 3) by (nonlinear_arith)
        requires
            ps <= 3,
    ;
    let row_delta = width * ps;
    assert(row_delta * height <= width * height * 3) by (nonlinear_arith)
        requires
            row_delta == width * ps,
            ps <= 3,
    ;
    let mut dst: Vec<u8> = Vec::new();
    put_zeros(&mut dst, row_delta * height);
    let ghost p = RleParams { ps: ps as nat, row_delta: row_delta as nat, white };
    let mut dec = Decoder { i: 0, d: 0, fg: white, insert_fg: false, first_line: true, dst };
    proof {
        assert(dec.dst@ =~= zeros(width as nat * ps as nat * height as nat));
    }
    let ghost target = spec_rle_run(data@, p, dec@);
    assert(spec_decompress(data@, width as nat, height as nat, bpp) == Some(target));
    while dec.i < data.len()
        invariant
            spec_decompress(data@, width as nat, height as nat, bpp) == Some(target),
            p == (RleParams { ps: ps as nat, row_delta: row_delta as nat, white }),
            decoder_ok(dec, data@, p),
            data.len() <= isize::MAX,
            spec_rle_run(data@, p, dec@) == target,
        decreases data.len() - dec.i,
    {
        let ghost before = dec@;
        match dec.step(data, ps, row_delta, white, Ghost(p)) {
            Some(Ok(())) => {},
            Some(Err(e)) => {
                proof {
                    match spec_step(data@, p, before) {
                        Step::Short(n, h) => assert(target == Outcome::Short(n, h)),
                        Step::Unknown => assert(target == Outcome::Unknown),
                        _ => {},
                    }
                }
                return Some(Err(e));
            },
            None => {
                proof {
                    assert(target == Outcome::Overrun);
                }
                return None;
            },
        }
    }
    Some(Ok(dec.dst))
}

/// Decompress interleaved-RLE `data` into `width * height` pixels of `bpp`
/// bits (bottom-up, little-endian), the uncompressed bitmap layout. Defined on
/// the streams that stay within the destination.
pub fn decompress(data: &[u8], width: usize, height: usize, bpp: u16) -> (r: Result<Vec<u8>>)
    requires
        rle_sizes_ok(data.len() as nat, width as nat, height as nat),
        !(spec_decompress(data@, width as nat, height as nat, bpp) matches Some(Outcome::Overrun)),
    ensures
        match spec_decompress(data@, width as nat, height as nat, bpp) {
            None => is_protocol(r),
            Some(o) => matches_outcome(o, Some(r)),
        },
{
    match decode(data, width, height, bpp) {
        Some(r) => r,
        None => {
            proof {
                assert(false);
            }
            Err(Error::Protocol("RLE stream overruns the bitmap"))
        },
    }
}

/// A run of `n` one-byte pixels of a fixed value writes that value's low byte
/// over the `n` bytes from `d` and leaves the rest.
proof fn lemma_run_value_bytes(dst: Seq<u8>, d: int, n: nat, p: RleParams, v: u32)
    requires
        p.ps == 1,
        0 <= d,
        d + n <= dst.len(),
    ensures
        run_px(dst, d, n, p, Fill::Value(v)) == Some(
            (Seq::new(dst.len(), |k: int| if d <= k < d + n { (v % 256) as u8 } else { dst[k] }), d + n),
        ),
    decreases n,
{
    let filled = Seq::new(dst.len(), |k: int| if d <= k < d + n { (v % 256) as u8 } else { dst[k] });
    if n == 0 {
        assert(filled =~= dst);
    } else {
        let next = put_px(dst, d, v, 1);
        lemma_run_value_bytes(next, d + 1, (n - 1) as nat, p, v);
        let rest = Seq::new(next.len(), |k: int| if d + 1 <= k < d + 1 + (n - 1) { (v % 256) as u8 } else { next[k] });
        assert(rest =~= filled);
    }
}

/// A MEGA_MEGA_COLOR_RUN order `F3 lo hi c` at 8 bpp fills a one-line bitmap
/// of `lo + 256 * hi` pixels (the run length, little-endian) with `c`.
pub proof fn lemma_mega_color_run(lo: u8, hi: u8, c: u8)
    ensures
        ({
            let n = lo as nat + 256 * hi as nat;
            spec_decompress(seq![0xF3u8, lo, hi, c], n, 1, 8) == Some(Outcome::Done(Seq::new(n, |k: int| c)))
        }),
{
    let n = lo as nat + 256 * hi as nat;
    let data = seq![0xF3u8, lo, hi, c];
    let p = RleParams { ps: 1, row_delta: n * 1, white: spec_white(8) };
    let st = Rle { i: 0, d: 0, fg: spec_white(8), insert_fg: false, first_line: true, dst: zeros(n * 1 * 1) };
    assert(n * 1 * 1 == n && n * 1 == n);
    assert(zeros(n).len() == n);
    assert(spec_decompress(data, n, 1, 8) == Some(spec_rle_run(data, p, st)));
    let hdr: u8 = 0xF3;
    assert(hdr & 0xC0 == 0xC0 && hdr & 0xF0 == 0xF0) by (bit_vector)
        requires
            hdr == 0xF3,
    ;
    assert(spec_code_id(data[0]) == MEGA_COLOR_RUN);
    let st1 = line_check(st, p);
    let st2 = Rle { insert_fg: false, ..st1 };
    assert(data.subrange(0, 4) =~= data);
    assert(spec_run_length(MEGA_COLOR_RUN, data.subrange(st2.i, data.len() as int)) == RunLength::Len(n, 3));
    assert(get_px(data, 3, 1) == c as u32);
    lemma_run_value_bytes(zeros(n), 0, n, p, c as u32);
    let filled = Seq::new(zeros(n).len(), |k: int| if 0 <= k < 0 + n { ((c as u32) % 256) as u8 } else { zeros(n)[k] });
    assert(filled =~= Seq::new(n, |k: int| c));
    let s = Rle { i: 4, d: n as int, dst: filled, ..st2 };
    assert(spec_step(data, p, st) == Step::Next(s));
    assert(spec_rle_run(data, p, s) == Outcome::Done(filled));
}

/// The parameters of an 8 bpp, one-line decompression of `n` pixels.
pub open spec fn params8(n: nat) -> RleParams {
    RleParams { ps: 1, row_delta: n, white: 0xFF }
}

/// The state an 8 bpp, one-line decompression of `n` pixels starts in.
pub open spec fn start8(n: nat) -> Rle {
    Rle { i: 0, d: 0, fg: 0xFF, insert_fg: false, first_line: true, dst: zeros(n) }
}

proof fn lemma_decompress8(data: Seq<u8>, n: nat)
    ensures
        spec_decompress(data, n, 1, 8) == Some(spec_rle_run(data, params8(n), start8(n))),
{
    assert(n * 1 * 1 == n && n * 1 == n);
}

/// A stream whose first order takes it to its end, ending at state `s`,
/// decodes to `s`'s destination.
proof fn lemma_one_order(data: Seq<u8>, p: RleParams, st: Rle, s: Rle)
    requires
        0 == st.i < data.len(),
        spec_step(data, p, st) == Step::Next(s),
        s.i == data.len(),
    ensures
        spec_rle_run(data, p, st) == Outcome::Done(s.dst),
{
    assert(spec_rle_run(data, p, s) == Outcome::Done(s.dst));
}

/// A COLOR_RUN order at 8 bpp on one line of its run length fills that line
/// with the colour byte that follows the header. The run length is the low
/// five bits of the header, or 32 plus the next byte when those bits are 0.
pub proof fn lemma_color_run(m: u8, ext: u8, c: u8)
    requires
        m < 32,
    ensures
        m > 0 ==> spec_decompress(seq![(0x60 + m) as u8, c], m as nat, 1, 8) == Some(
            Outcome::Done(Seq::new(m as nat, |k: int| c)),
        ),
        spec_decompress(seq![0x60u8, ext, c], ext as nat + 32, 1, 8) == Some(
            Outcome::Done(Seq::new(ext as nat + 32, |k: int| c)),
        ),
{
    if m > 0 {
        let hdr: u8 = (0x60 + m) as u8;
        assert(hdr & 0xC0 != 0xC0 && hdr >> 5 == 3 && hdr & 0x1F == m) by (bit_vector)
            requires
                hdr == 0x60 + m,
                0 < m < 32,
        ;
        let n = m as nat;
        let data = seq![hdr, c];
        lemma_decompress8(data, n);
        assert(data.subrange(0, 2) =~= data);
        lemma_run_value_bytes(zeros(n), 0, n, params8(n), c as u32);
        let filled = Seq::new(zeros(n).len(), |k: int| if 0 <= k < 0 + n { ((c as u32) % 256) as u8 } else { zeros(n)[k] });
        assert(filled =~= Seq::new(n, |k: int| c));
        let s = Rle { i: 2, d: n as int, dst: filled, ..start8(n) };
        assert(spec_step(data, params8(n), start8(n)) == Step::Next(s));
        lemma_one_order(data, params8(n), start8(n), s);
    }
    let hdr: u8 = 0x60;
    assert(hdr & 0xC0 != 0xC0 && hdr >> 5 == 3 && hdr & 0x1F == 0) by (bit_vector)
        requires
            hdr == 0x60,
    ;
    let n = ext as nat + 32;
    let data = seq![hdr, ext, c];
    lemma_decompress8(data, n);
    assert(data.subrange(0, 3) =~= data);
    lemma_run_value_bytes(zeros(n), 0, n, params8(n), c as u32);
    let filled = Seq::new(zeros(n).len(), |k: int| if 0 <= k < 0 + n { ((c as u32) % 256) as u8 } else { zeros(n)[k] });
    assert(filled =~= Seq::new(n, |k: int| c));
    let s = Rle { i: 3, d: n as int, dst: filled, ..start8(n) };
    assert(spec_step(data, params8(n), start8(n)) == Step::Next(s));
    lemma_one_order(data, params8(n), start8(n), s);
}

/// A COLOR_IMAGE order at 8 bpp copies the `m` (low five bits of the header)
/// pixel bytes that follow the header.
pub proof fn lemma_color_image(px: Seq<u8>)
    requires
        0 < px.len() < 32,
    ensures
        spec_decompress(seq![(0x80 + px.len()) as u8] + px, px.len(), 1, 8) == Some(Outcome::Done(px)),
{
    let m = px.len() as u8;
    let hdr: u8 = (0x80 + m) as u8;
    assert(hdr & 0xC0 != 0xC0 && hdr >> 5 == 4 && hdr & 0x1F == m) by (bit_vector)
        requires
            hdr == 0x80 + m,
            0 < m < 32,
    ;
    let n = px.len();
    let data = seq![hdr] + px;
    lemma_decompress8(data, n);
    assert(data.subrange(0, data.len() as int)[0] == hdr);
    assert(data.subrange(0, data.len() as int) =~= data);
    let z = zeros(n);
    let dst = z.subrange(0, 0) + data.subrange(1, 1 + n as int) + z.subrange(n as int, n as int);
    assert(dst =~= px);
    let s = Rle { i: 1 + n as int, d: n as int, dst, ..start8(n) };
    let st1 = line_check(start8(n), params8(n));
    assert(st1 == start8(n));
    assert(data[0] == hdr);
    assert(spec_code_id(hdr) == COLOR_IMAGE);
    assert(spec_run_length(COLOR_IMAGE, data.subrange(0, data.len() as int)) == RunLength::Len(n, 1));
    assert(color_image_order(data, params8(n), start8(n), COLOR_IMAGE) == Step::Next(s));
    assert(spec_step(data, params8(n), start8(n)) == Step::Next(s));
    lemma_one_order(data, params8(n), start8(n), s);
}

/// On the first scanline a FG_RUN order writes the foreground pixel, which
/// starts out white, and a BG_RUN order writes black, for the run length in
/// the low five bits of the header.
pub proof fn lemma_first_line_runs(m: u8)
    requires
        0 < m < 32,
    ensures
        spec_decompress(seq![(0x20 + m) as u8], m as nat, 1, 8) == Some(
            Outcome::Done(Seq::new(m as nat, |k: int| 0xFFu8)),
        ),
        spec_decompress(seq![m], m as nat, 1, 8) == Some(Outcome::Done(Seq::new(m as nat, |k: int| 0u8))),
{
    let n = m as nat;
    let fh: u8 = (0x20 + m) as u8;
    assert(fh & 0xC0 != 0xC0 && fh >> 5 == 1 && fh & 0x1F == m) by (bit_vector)
        requires
            fh == 0x20 + m,
            0 < m < 32,
    ;
    assert(m & 0xC0 != 0xC0 && m >> 5 == 0 && m & 0x1F == m) by (bit_vector)
        requires
            0 < m < 32,
    ;
    let fd = seq![fh];
    lemma_decompress8(fd, n);
    assert(fd.subrange(0, 1) =~= fd);
    lemma_run_value_bytes(zeros(n), 0, n, params8(n), 0xFF);
    let white = Seq::new(zeros(n).len(), |k: int| if 0 <= k < 0 + n { ((0xFFu32) % 256) as u8 } else { zeros(n)[k] });
    assert(white =~= Seq::new(n, |k: int| 0xFFu8));
    let s = Rle { i: 1, d: n as int, dst: white, ..start8(n) };
    assert(spec_step(fd, params8(n), start8(n)) == Step::Next(s));
    lemma_one_order(fd, params8(n), start8(n), s);
    let bd = seq![m];
    lemma_decompress8(bd, n);
    assert(bd.subrange(0, 1) =~= bd);
    lemma_run_value_bytes(zeros(n), 0, n, params8(n), 0);
    let black = Seq::new(zeros(n).len(), |k: int| if 0 <= k < 0 + n { ((0u32) % 256) as u8 } else { zeros(n)[k] });
    assert(black =~= Seq::new(n, |k: int| 0u8));
    let s2 = Rle { i: 1, d: n as int, dst: black, insert_fg: true, ..start8(n) };
    assert(spec_step(bd, params8(n), start8(n)) == Step::Next(s2));
    lemma_one_order(bd, params8(n), start8(n), s2);
}

/// Mask pixels `k..bits` on the first scanline at one byte per pixel: the
/// foreground's low byte where the mask bit is set, black elsewhere.
proof fn lemma_fgbg_first_bytes(dst: Seq<u8>, d: int, mask: u8, k: nat, bits: nat, fg: u32, p: RleParams)
    requires
        p.ps == 1,
        0 <= d,
        k <= bits,
        d + (bits - k) <= dst.len(),
    ensures
        fgbg_px(dst, d, mask, k, bits, fg, true, p) == Some(
            (
                Seq::new(
                    dst.len(),
                    |j: int|
                        if d <= j < d + (bits - k) {
                            if mask_bit(mask, (k + (j - d)) as nat) { (fg % 256) as u8 } else { 0u8 }
                        } else {
                            dst[j]
                        },
                ),
                d + (bits - k),
            ),
        ),
    decreases bits - k,
{
    let want = Seq::new(
        dst.len(),
        |j: int|
            if d <= j < d + (bits - k) {
                if mask_bit(mask, (k + (j - d)) as nat) { (fg % 256) as u8 } else { 0u8 }
            } else {
                dst[j]
            },
    );
    if k >= bits {
        assert(want =~= dst);
    } else {
        let v: u32 = if mask_bit(mask, k) { fg } else { 0 };
        let next = put_px(dst, d, v, 1);
        lemma_fgbg_first_bytes(next, d + 1, mask, k + 1, bits, fg, p);
        let got = Seq::new(
            next.len(),
            |j: int|
                if d + 1 <= j < d + 1 + (bits - (k + 1)) {
                    if mask_bit(mask, (k + 1 + (j - (d + 1))) as nat) { (fg % 256) as u8 } else { 0u8 }
                } else {
                    next[j]
                },
        );
        assert(got =~= want);
    }
}

/// Dithered pairs at one byte per pixel: `a` then `b`, `n` times.
proof fn lemma_dither_bytes(dst: Seq<u8>, d: int, n: nat, a: u32, b: u32)
    requires
        0 <= d,
        d + 2 * n <= dst.len(),
    ensures
        dither_px(dst, d, n, a, b, 1) == Some(
            (
                Seq::new(
                    dst.len(),
                    |j: int|
                        if d <= j < d + 2 * n {
                            if (j - d) % 2 == 0 { (a % 256) as u8 } else { (b % 256) as u8 }
                        } else {
                            dst[j]
                        },
                ),
                d + 2 * n,
            ),
        ),
    decreases n,
{
    let want = Seq::new(
        dst.len(),
        |j: int|
            if d <= j < d + 2 * n {
                if (j - d) % 2 == 0 { (a % 256) as u8 } else { (b % 256) as u8 }
            } else {
                dst[j]
            },
    );
    if n == 0 {
        assert(want =~= dst);
    } else {
        let next = put_px(put_px(dst, d, a, 1), d + 1, b, 1);
        lemma_dither_bytes(next, d + 2, (n - 1) as nat, a, b);
        let got = Seq::new(
            next.len(),
            |j: int|
                if d + 2 <= j < d + 2 + 2 * (n - 1) {
                    if (j - (d + 2)) % 2 == 0 { (a % 256) as u8 } else { (b % 256) as u8 }
                } else {
                    next[j]
                },
        );
        assert(got =~= want);
    }
}

/// A FGBG_IMAGE order of one mask byte (header `0x41`: eight pixels) on the
/// first scanline at 8 bpp writes, for pixel `k`, the foreground (white) when
/// bit `k` of the mask, counted from the least significant, is set, and black
/// otherwise.
pub proof fn lemma_fgbg_image_first_line(mask: u8)
    ensures
        spec_decompress(seq![0x41u8, mask], 8, 1, 8) == Some(
            Outcome::Done(Seq::new(8, |k: int| if (mask >> (k as u8)) & 1u8 == 1u8 { 0xFFu8 } else { 0u8 })),
        ),
{
    let hdr: u8 = 0x41;
    assert(hdr & 0xC0 != 0xC0 && hdr >> 5 == 2 && hdr & 0x1F == 1) by (bit_vector)
        requires
            hdr == 0x41,
    ;
    let data = seq![hdr, mask];
    let n: nat = 8;
    lemma_decompress8(data, n);
    assert(data.subrange(0, 2) =~= data);
    lemma_fgbg_first_bytes(zeros(n), 0, mask, 0, 8, 0xFF, params8(n));
    let out = Seq::new(
        zeros(n).len(),
        |j: int|
            if 0 <= j < 0 + (8 - 0) {
                if mask_bit(mask, (0 + (j - 0)) as nat) { ((0xFFu32) % 256) as u8 } else { 0u8 }
            } else {
                zeros(n)[j]
            },
    );
    assert forall|k: int| 0 <= k < 8 implies #[trigger] out[k] == (if (mask >> (k as u8)) & 1u8 == 1u8 {
        0xFFu8
    } else {
        0u8
    }) by {
        assert(mask_bit(mask, k as nat) == ((mask >> (k as u8)) & 1u8 == 1u8));
    }
    assert(out =~= Seq::new(8, |k: int| if (mask >> (k as u8)) & 1u8 == 1u8 { 0xFFu8 } else { 0u8 }));
    let st = Rle { i: 1, fg: 0xFF, ..start8(n) };
    let s = Rle { i: 2, d: 8, dst: out, ..st };
    assert(fgbg_chunks(data, params8(n), s, 0) == Step::Next(s));
    assert(fgbg_chunks(data, params8(n), st, 8) == Step::Next(s));
    assert(spec_step(data, params8(n), start8(n)) == Step::Next(s));
    lemma_one_order(data, params8(n), start8(n), s);
}

/// A LITE_DITHERED_RUN order at 8 bpp (run length `m`, the header's low four
/// bits) writes the two pixels that follow the header, alternately, `m`
/// times.
pub proof fn lemma_dithered_run(m: u8, a: u8, b: u8)
    requires
        0 < m < 16,
    ensures
        spec_decompress(seq![(0xE0 + m) as u8, a, b], 2 * m as nat, 1, 8) == Some(
            Outcome::Done(Seq::new(2 * m as nat, |k: int| if k % 2 == 0 { a } else { b })),
        ),
{
    let hdr: u8 = (0xE0 + m) as u8;
    assert(hdr & 0xC0 == 0xC0 && hdr & 0xF0 != 0xF0 && hdr >> 4 == 0xE && hdr & 0x0F == m) by (bit_vector)
        requires
            hdr == 0xE0 + m,
            0 < m < 16,
    ;
    let n: nat = 2 * m as nat;
    let data = seq![hdr, a, b];
    lemma_decompress8(data, n);
    assert(data.subrange(0, 3) =~= data);
    lemma_dither_bytes(zeros(n), 0, m as nat, a as u32, b as u32);
    let out = Seq::new(
        zeros(n).len(),
        |j: int|
            if 0 <= j < 0 + 2 * (m as nat) {
                if (j - 0) % 2 == 0 { ((a as u32) % 256) as u8 } else { ((b as u32) % 256) as u8 }
            } else {
                zeros(n)[j]
            },
    );
    assert(out =~= Seq::new(n, |k: int| if k % 2 == 0 { a } else { b }));
    let s = Rle { i: 3, d: n as int, dst: out, ..start8(n) };
    assert(spec_step(data, params8(n), start8(n)) == Step::Next(s));
    lemma_one_order(data, params8(n), start8(n), s);
}

/// A run of `n` one-byte pixels, each the pixel one scanline (`w` bytes)
/// above XOR 0, copies the bytes above it when the run is no longer than a
/// scanline.
proof fn lemma_run_copy_above(dst: Seq<u8>, d: int, n: nat, p: RleParams)
    requires
        p.ps == 1,
        p.row_delta <= d,
        n <= p.row_delta,
        d + n <= dst.len(),
    ensures
        run_px(dst, d, n, p, Fill::AboveXor(0)) == Some(
            (Seq::new(dst.len(), |j: int| if d <= j < d + n { dst[j - p.row_delta] } else { dst[j] }), d + n),
        ),
    decreases n,
{
    let w = p.row_delta;
    let want = Seq::new(dst.len(), |j: int| if d <= j < d + n { dst[j - w] } else { dst[j] });
    if n == 0 {
        assert(want =~= dst);
    } else {
        let above = dst[d - w];
        let x: u32 = above as u32;
        assert(x ^ 0 == x) by (bit_vector);
        let next = put_px(dst, d, fill_px(dst, d, p, Fill::AboveXor(0)), 1);
        assert(next == dst.update(d, above));
        lemma_run_copy_above(next, d + 1, (n - 1) as nat, p);
        let got = Seq::new(next.len(), |j: int| if d + 1 <= j < d + 1 + (n - 1) { next[j - w] } else { next[j] });
        assert(got =~= want);
    }
}

/// At 8 bpp, a background run below the first scanline repeats the scanline
/// above: a first line of `m` pixels of colour `c`, then a BG_RUN of `m`,
/// gives two lines of `c`.
pub proof fn lemma_bg_run_repeats_line_above(m: u8, c: u8)
    requires
        0 < m < 32,
    ensures
        spec_decompress(seq![(0x60 + m) as u8, c, m], m as nat, 2, 8) == Some(
            Outcome::Done(Seq::new(2 * m as nat, |k: int| c)),
        ),
{
    let n = m as nat;
    let hdr: u8 = (0x60 + m) as u8;
    assert(hdr & 0xC0 != 0xC0 && hdr >> 5 == 3 && hdr & 0x1F == m) by (bit_vector)
        requires
            hdr == 0x60 + m,
            0 < m < 32,
    ;
    assert(m & 0xC0 != 0xC0 && m >> 5 == 0 && m & 0x1F == m) by (bit_vector)
        requires
            0 < m < 32,
    ;
    let data = seq![hdr, c, m];
    let p = RleParams { ps: 1, row_delta: n, white: 0xFF };
    let st0 = Rle { i: 0, d: 0, fg: 0xFF, insert_fg: false, first_line: true, dst: zeros(2 * n) };
    assert(n * 1 * 2 == 2 * n && n * 1 == n);
    assert(spec_decompress(data, n, 2, 8) == Some(spec_rle_run(data, p, st0)));
    assert(data.subrange(0, 3) =~= data);
    lemma_run_value_bytes(zeros(2 * n), 0, n, p, c as u32);
    let line1 = Seq::new(2 * n, |k: int| if 0 <= k < 0 + n { ((c as u32) % 256) as u8 } else { zeros(2 * n)[k] });
    let s1 = Rle { i: 2, d: n as int, dst: line1, ..st0 };
    assert(spec_step(data, p, st0) == Step::Next(s1));
    let s1b = Rle { first_line: false, insert_fg: false, ..s1 };
    assert(line_check(s1, p) == s1b);
    assert(data.subrange(2, 3)[0] == m);
    assert(spec_run_length(BG_RUN, data.subrange(2, 3)) == RunLength::Len(n, 1));
    lemma_run_copy_above(line1, n as int, n, p);
    let both = Seq::new(line1.len(), |j: int| if n <= j < n + n { line1[j - n] } else { line1[j] });
    assert(both =~= Seq::new(2 * n, |k: int| c));
    let s2 = Rle { i: 3, d: 2 * n as int, dst: both, insert_fg: true, ..s1b };
    assert(spec_step(data, p, s1) == Step::Next(s2));
    assert(spec_rle_run(data, p, s2) == Outcome::Done(both));
    assert(spec_rle_run(data, p, s1) == Outcome::Done(both));
}

/// The `ps` bytes of pixel value `v`, least significant first.
pub open spec fn px_bytes(v: u32, ps: nat) -> Seq<u8> {
    Seq::new(ps, |k: int| ((v as int / (if k == 0 { 1int } else if k == 1 { 256int } else { 65536int })) % 256) as u8)
}

/// A run of `n` pixels of a fixed value `v` writes `v`'s bytes, least
/// significant first, into each of the `n` pixel slots from `d`, and leaves
/// the rest.
proof fn lemma_run_value_pixels(dst: Seq<u8>, d: int, n: nat, p: RleParams, v: u32)
    requires
        1 <= p.ps <= 3,
        0 <= d,
        d + n * p.ps <= dst.len(),
    ensures
        run_px(dst, d, n, p, Fill::Value(v)) == Some(
            (
                Seq::new(dst.len(), |j: int| if d <= j < d + n * p.ps { px_bytes(v, p.ps)[(j - d) % (p.ps as int)] } else { dst[j] }),
                d + n * p.ps,
            ),
        ),
    decreases n,
{
    let ps = p.ps as int;
    let b = px_bytes(v, p.ps);
    let want = Seq::new(dst.len(), |j: int| if d <= j < d + n * p.ps { b[(j - d) % ps] } else { dst[j] });
    if n == 0 {
        assert(want =~= dst);
    } else {
        assert(n * p.ps == (n - 1) * p.ps + p.ps) by (nonlinear_arith);
        assert((n - 1) * p.ps >= 0) by (nonlinear_arith)
            requires
                n >= 1,
        ;
        let next = put_px(dst, d, v, p.ps);
        assert(next.len() == dst.len());
        assert forall|k: int| 0 <= k < ps implies #[trigger] next[d + k] == b[k] by {}
        assert forall|j: int| 0 <= j < dst.len() && !(d <= j < d + ps) implies #[trigger] next[j] == dst[j] by {}
        lemma_run_value_pixels(next, d + ps, (n - 1) as nat, p, v);
        let got = Seq::new(
            next.len(),
            |j: int| if d + ps <= j < d + ps + (n - 1) * p.ps { b[(j - (d + ps)) % ps] } else { next[j] },
        );
        assert forall|j: int| 0 <= j < dst.len() implies #[trigger] got[j] == want[j] by {
            if d <= j < d + ps {
                vstd::arithmetic::div_mod::lemma_small_mod((j - d) as nat, ps as nat);
                assert(next[d + (j - d)] == b[j - d]);
            } else if d + ps <= j < d + n * p.ps {
                vstd::arithmetic::div_mod::lemma_mod_sub_multiples_vanish(j - d, ps);
                assert(-ps + (j - d) == j - (d + ps));
            }
        }
        assert(got =~= want);
    }
}

/// The bytes of the pixel read at `i` are the bytes it was read from.
proof fn lemma_px_bytes_of_get(data: Seq<u8>, i: int, ps: nat)
    requires
        1 <= ps <= 3,
        0 <= i,
        i + ps <= data.len(),
    ensures
        px_bytes(get_px(data, i, ps), ps) == data.subrange(i, i + ps),
{
    let v = get_px(data, i, ps);
    if ps == 1 {
        assert(v == data[i] as u32);
    } else if ps == 2 {
        assert(v as int == data[i] + data[i + 1] * 256);
        assert((v as int / 256) % 256 == data[i + 1] as int);
    } else {
        assert(v as int == data[i] + data[i + 1] * 256 + data[i + 2] * 65536);
        assert((v as int / 256) % 256 == data[i + 1] as int);
        assert((v as int / 65536) % 256 == data[i + 2] as int);
    }
    assert(px_bytes(v, ps) =~= data.subrange(i, i + ps));
}

/// A COLOR_RUN order of run length `m` (the header's low five bits) at any
/// supported bpp fills a one-line bitmap of `m` pixels with the pixel whose
/// bytes follow the header, its bytes in the order given.
#[verifier::rlimit(60)]
pub proof fn lemma_color_run_pixels(m: u8, bpp: u16, px: Seq<u8>)
    requires
        0 < m < 32,
        spec_pixel_size(bpp) matches Some(ps) && px.len() == ps,
    ensures
        ({
            let ps = px.len();
            spec_decompress(seq![(0x60 + m) as u8] + px, m as nat, 1, bpp) == Some(
                Outcome::Done(Seq::new(m as nat * ps, |j: int| px[j % (ps as int)])),
            )
        }),
{
    let ps = px.len();
    let hdr: u8 = (0x60 + m) as u8;
    let hb: u8 = hdr;
    assert(hb & 0xC0 != 0xC0 && hb >> 5 == 3 && hb & 0x1F == m) by (bit_vector)
        requires
            hb == 0x60 + m,
            0 < m < 32,
    ;
    let n = m as nat;
    let data = seq![hdr] + px;
    let p = RleParams { ps, row_delta: n * ps, white: spec_white(bpp) };
    let st0 = Rle { i: 0, d: 0, fg: spec_white(bpp), insert_fg: false, first_line: true, dst: zeros(n * ps * 1) };
    assert(n * ps * 1 == n * ps);
    assert(spec_decompress(data, n, 1, bpp) == Some(spec_rle_run(data, p, st0)));
    assert(n * ps >= 1) by (nonlinear_arith)
        requires
            n >= 1,
            ps >= 1,
    ;
    assert(data.subrange(0, data.len() as int) =~= data);
    assert(data[0] == hdr);
    let v = get_px(data, 1, ps);
    lemma_px_bytes_of_get(data, 1, ps);
    assert(data.subrange(1, 1 + ps as int) =~= px);
    lemma_run_value_pixels(zeros(n * ps), 0, n, p, v);
    let out = Seq::new(
        zeros(n * ps).len(),
        |j: int| if 0 <= j < 0 + n * p.ps { px_bytes(v, p.ps)[(j - 0) % (p.ps as int)] } else { zeros(n * ps)[j] },
    );
    assert(out =~= Seq::new(n * ps, |j: int| px[j % (ps as int)]));
    let s = Rle { i: 1 + ps as int, d: (n * ps) as int, dst: out, ..st0 };
    assert(spec_step(data, p, st0) == Step::Next(s));
    assert(spec_rle_run(data, p, s) == Outcome::Done(out));
}

/// A stream of one WHITE (`white`) or BLACK order fills a one-pixel bitmap
/// with the bytes of the white pixel or of zero.
#[verifier::rlimit(40)]
proof fn lemma_one_pixel_order(hdr: u8, bpp: u16)
    requires
        hdr == WHITE || hdr == BLACK,
        spec_pixel_size(bpp) is Some,
    ensures
        ({
            let ps = spec_pixel_size(bpp).unwrap();
            let v: u32 = if hdr == WHITE { spec_white(bpp) } else { 0 };
            spec_decompress(seq![hdr], 1, 1, bpp) == Some(Outcome::Done(px_bytes(v, ps)))
        }),
{
    let ps = spec_pixel_size(bpp).unwrap();
    let v: u32 = if hdr == WHITE { spec_white(bpp) } else { 0 };
    let hb = hdr;
    assert(hb & 0xC0 == 0xC0 && hb & 0xF0 == 0xF0) by (bit_vector)
        requires
            hb == 0xFD || hb == 0xFE,
    ;
    let p = RleParams { ps, row_delta: 1 * ps, white: spec_white(bpp) };
    let st0 = Rle { i: 0, d: 0, fg: spec_white(bpp), insert_fg: false, first_line: true, dst: zeros(1 * ps * 1) };
    assert(1 * ps * 1 == ps && 1 * ps == ps);
    let data = seq![hdr];
    assert(spec_decompress(data, 1, 1, bpp) == Some(spec_rle_run(data, p, st0)));
    lemma_run_value_pixels(zeros(ps), 0, 1, p, v);
    let out = Seq::new(ps as nat, |j: int| if 0 <= j < 0 + 1 * ps { px_bytes(v, ps)[(j - 0) % (ps as int)] } else { zeros(ps)[j] });
    assert forall|j: int| 0 <= j < ps implies #[trigger] out[j] == px_bytes(v, ps)[j] by {
        vstd::arithmetic::div_mod::lemma_small_mod(j as nat, ps);
    }
    assert(out =~= px_bytes(v, ps));
    let s = Rle { i: 1, d: ps as int, dst: out, insert_fg: false, ..line_check(st0, p) };
    assert(spec_step(data, p, st0) == Step::Next(s));
    assert(spec_rle_run(data, p, s) == Outcome::Done(out));
}

/// The WHITE order writes one white pixel: all ones at 8, 16 and 24 bpp, and
/// 0x7FFF (the 15 bits set) at 15 bpp, least significant byte first; the
/// BLACK order writes one pixel of zeros.
pub proof fn lemma_white_black_orders(bpp: u16)
    requires
        spec_pixel_size(bpp) is Some,
    ensures
        spec_decompress(seq![0xFDu8], 1, 1, bpp) == Some(
            Outcome::Done(
                if bpp == 8 {
                    seq![0xFFu8]
                } else if bpp == 15 {
                    seq![0xFFu8, 0x7F]
                } else if bpp == 16 {
                    seq![0xFFu8, 0xFF]
                } else {
                    seq![0xFFu8, 0xFF, 0xFF]
                },
            ),
        ),
        spec_decompress(seq![0xFEu8], 1, 1, bpp) == Some(
            Outcome::Done(Seq::new(spec_pixel_size(bpp).unwrap(), |j: int| 0u8)),
        ),
{
    let ps = spec_pixel_size(bpp).unwrap();
    lemma_one_pixel_order(WHITE, bpp);
    lemma_one_pixel_order(BLACK, bpp);
    assert(px_bytes(0, ps) =~= Seq::new(ps, |j: int| 0u8));
    if bpp == 8 {
        assert(px_bytes(spec_white(bpp), ps) =~= seq![0xFFu8]);
    } else if bpp == 15 {
        assert(px_bytes(spec_white(bpp), ps) =~= seq![0xFFu8, 0x7F]);
    } else if bpp == 16 {
        assert(px_bytes(spec_white(bpp), ps) =~= seq![0xFFu8, 0xFF]);
    } else {
        assert(px_bytes(spec_white(bpp), ps) =~= seq![0xFFu8, 0xFF, 0xFF]);
    }
}

/// Whether `data` writes past the end of a `width × height` bitmap of `bpp`.
pub fn overruns(data: &[u8], width: usize, height: usize, bpp: u16) -> (r: bool)
    requires
        rle_sizes_ok(data.len() as nat, width as nat, height as nat),
    ensures
        r == (spec_decompress(data@, width as nat, height as nat, bpp) matches Some(Outcome::Overrun)),
{
    decode(data, width, height, bpp).is_none()
}

} // verus!
