//! The planar bitmap codec (RDP6_BITMAP_STREAM), used by the graphics
//! pipeline's planar codec and by bitmap caches.
//!
//! A 1-byte FormatHeader selects the layout, then the color planes follow in
//! order (A, R, G, B). Each plane is either raw (absolute bytes) or
//! RLE-compressed with per-scanline run lengths and a vertical delta
//! transform. Output is top-down RGBA.
//!
//! Supported: the lossless ARGB path (no color loss, no chroma subsampling),
//! raw or RLE, and the uncompressed 32 bpp shortcut. The lossy YCoCg and
//! subsampled modes are refused rather than producing wrong colors.

use vstd::prelude::*;
use crate::nla::credssp::opt_bytes;
use crate::wire::{concat, put_bytes, slice_range, to_vec};
use crate::{is_protocol, is_short, Error, Result};

verus! {

pub const CLL_MASK: u8 = 0x07;
pub const CS_FLAG: u8 = 0x08;
pub const RLE_FLAG: u8 = 0x10;
pub const NA_FLAG: u8 = 0x20;

/// What decoding part of a plane gives: bytes and the source position after
/// them, a short read (needed, available), or a scanline overrun.
pub enum PlanePart<T> {
    Done(T, int),
    Short(int, int),
    Overran,
}

/// Decode the rest of a scanline from `pos`: control bytes, each giving a
/// count of literal bytes (high nibble) and a run length (low nibble) of the
/// last byte; a run length of 1 or 2 instead means a run of 16 or 32 plus the
/// high nibble, with no literals.
pub open spec fn scan_row(data: Seq<u8>, pos: int, x: nat, width: nat, last: u8, row: Seq<u8>) -> PlanePart<Seq<u8>>
    decreases data.len() - pos,
{
    if x >= width {
        PlanePart::Done(row, pos)
    } else if pos < 0 || pos >= data.len() {
        PlanePart::Short(pos + 1, data.len() as int)
    } else {
        let control = data[pos];
        let p1 = pos + 1;
        let nr0 = (control & 0x0F) as nat;
        let cr0 = ((control >> 4) & 0x0F) as nat;
        let n_run: nat = if nr0 == 1 { 16 + cr0 } else if nr0 == 2 { 32 + cr0 } else { nr0 };
        let c_raw: nat = if nr0 == 1 || nr0 == 2 { 0 } else { cr0 };
        if c_raw > data.len() - p1 || c_raw > width - x {
            PlanePart::Overran
        } else {
            let last2 = if c_raw > 0 { data[p1 + c_raw - 1] } else { last };
            let x2 = x + c_raw;
            if n_run > width - x2 {
                PlanePart::Overran
            } else {
                scan_row(
                    data,
                    p1 + c_raw,
                    x2 + n_run,
                    width,
                    last2,
                    row + data.subrange(p1, p1 + c_raw) + Seq::new(n_run, |i: int| last2),
                )
            }
        }
    }
}

/// A byte plus the signed delta a raw byte encodes (even: `d / 2`, odd:
/// `-(d / 2 + 1)`), wrapping.
pub open spec fn add_delta(above: u8, d: u8) -> u8 {
    let delta: int = if d % 2 == 0 { (d / 2) as int } else { -((d / 2) as int + 1) };
    ((above as int + delta) % 256) as u8
}

/// A scanline of deltas applied to the scanline above it.
pub open spec fn dedelta_row(above: Seq<u8>, raw: Seq<u8>) -> Seq<u8> {
    Seq::new(raw.len(), |x: int| add_delta(above[x], raw[x]))
}

/// The first `h` scanlines of an RLE plane from `pos`: the first absolute,
/// each later one as deltas against the one above.
pub open spec fn plane_rows(data: Seq<u8>, pos: int, width: nat, h: nat) -> PlanePart<Seq<Seq<u8>>>
    decreases h,
{
    if h == 0 {
        PlanePart::Done(Seq::empty(), pos)
    } else {
        match plane_rows(data, pos, width, (h - 1) as nat) {
            PlanePart::Done(rows, p) => match scan_row(data, p, 0, width, 0, Seq::empty()) {
                PlanePart::Done(raw, p2) => PlanePart::Done(
                    rows.push(if h == 1 { raw } else { dedelta_row(rows.last(), raw) }),
                    p2,
                ),
                PlanePart::Short(n, a) => PlanePart::Short(n, a),
                PlanePart::Overran => PlanePart::Overran,
            },
            PlanePart::Short(n, a) => PlanePart::Short(n, a),
            PlanePart::Overran => PlanePart::Overran,
        }
    }
}

/// One plane from `pos`: RLE rows concatenated, or `width * height` raw bytes.
pub open spec fn spec_plane(data: Seq<u8>, pos: int, width: nat, height: nat, rle: bool) -> PlanePart<Seq<u8>> {
    if rle {
        match plane_rows(data, pos, width, height) {
            PlanePart::Done(rows, p) => PlanePart::Done(concat(rows), p),
            PlanePart::Short(n, a) => PlanePart::Short(n, a),
            PlanePart::Overran => PlanePart::Overran,
        }
    } else {
        let need = width * height;
        if data.len() < pos + need {
            PlanePart::Short(pos + need, data.len() as int)
        } else {
            PlanePart::Done(data.subrange(pos, pos + need), pos + need)
        }
    }
}

/// The first `n` pixels of the shortcut layout: BGRA in, RGBA out.
pub open spec fn bgra_to_rgba(px: Seq<u8>, n: nat) -> Seq<u8>
    decreases n,
{
    if n == 0 {
        Seq::empty()
    } else {
        let o = (n - 1) * 4;
        bgra_to_rgba(px, (n - 1) as nat) + seq![px[o + 2], px[o + 1], px[o], px[o + 3]]
    }
}

/// The first `n` pixels of four planes, interleaved as RGBA; without an alpha
/// plane alpha is opaque.
pub open spec fn interleave(r: Seq<u8>, g: Seq<u8>, b: Seq<u8>, a: Option<Seq<u8>>, n: nat) -> Seq<u8>
    decreases n,
{
    if n == 0 {
        Seq::empty()
    } else {
        let i = n - 1;
        let alpha = match a {
            Some(a) => a[i],
            None => 0xFFu8,
        };
        interleave(r, g, b, a, (n - 1) as nat) + seq![r[i], g[i], b[i], alpha]
    }
}

/// What a planar stream decodes to: RGBA, a short read, or a protocol
/// violation (an unsupported mode or a scanline overrun).
pub enum Planar {
    Rgba(Seq<u8>),
    Short(int, int),
    Violation,
}

/// Decode the planes from `pos` in order: alpha (when present), red, green, blue.
pub open spec fn spec_planes(data: Seq<u8>, width: nat, height: nat, rle: bool, has_alpha: bool) -> Planar {
    let a = if has_alpha { spec_plane(data, 1, width, height, rle) } else { PlanePart::Done(Seq::empty(), 1) };
    match a {
        PlanePart::Short(n, h) => Planar::Short(n, h),
        PlanePart::Overran => Planar::Violation,
        PlanePart::Done(alpha, p0) => match spec_plane(data, p0, width, height, rle) {
            PlanePart::Short(n, h) => Planar::Short(n, h),
            PlanePart::Overran => Planar::Violation,
            PlanePart::Done(red, p1) => match spec_plane(data, p1, width, height, rle) {
                PlanePart::Short(n, h) => Planar::Short(n, h),
                PlanePart::Overran => Planar::Violation,
                PlanePart::Done(green, p2) => match spec_plane(data, p2, width, height, rle) {
                    PlanePart::Short(n, h) => Planar::Short(n, h),
                    PlanePart::Overran => Planar::Violation,
                    PlanePart::Done(blue, _) => Planar::Rgba(
                        interleave(red, green, blue, if has_alpha { Some(alpha) } else { None }, width * height),
                    ),
                },
            },
        },
    }
}

/// What a planar bitmap stream decodes to at `width × height`.
pub open spec fn spec_planar(data: Seq<u8>, width: nat, height: nat) -> Planar {
    if data.len() == 0 {
        Planar::Short(1, 0)
    } else {
        let format = data[0];
        if format == 0 {
            let need: int = (width * height * 4) as int;
            if data.len() < 1 + need {
                Planar::Short(1 + need, data.len() as int)
            } else {
                Planar::Rgba(bgra_to_rgba(data.subrange(1, 1 + need), width * height))
            }
        } else if format & CS_FLAG != 0 || format & CLL_MASK != 0 {
            Planar::Violation
        } else {
            spec_planes(data, width, height, format & RLE_FLAG != 0, format & NA_FLAG == 0)
        }
    }
}

/// Whether decoding would index past an empty plane: an RLE stream for a
/// bitmap of zero height and nonzero width.
pub open spec fn planar_panics(data: Seq<u8>, width: nat, height: nat) -> bool {
    &&& data.len() > 0
    &&& data[0] != 0
    &&& data[0] & CS_FLAG == 0
    &&& data[0] & CLL_MASK == 0
    &&& data[0] & RLE_FLAG != 0
    &&& height == 0
    &&& width > 0
}

fn scan_one_row(data: &[u8], start: usize, width: usize) -> (r: Result<(Vec<u8>, usize)>)
    requires
        start <= data.len(),
        data.len() <= isize::MAX,
    ensures
        r matches Ok((v, q)) ==> q <= data.len(),
        match scan_row(data@, start as int, 0, width as nat, 0, Seq::empty()) {
            PlanePart::Done(row, p) => r matches Ok((v, q)) && v@ == row && q == p,
            PlanePart::Short(n, h) => is_short(r, n, h),
            PlanePart::Overran => is_protocol(r),
        },
{
    let mut row: Vec<u8> = Vec::new();
    let mut x: usize = 0;
    let mut last: u8 = 0;
    let mut pos = start;
    let ghost target = scan_row(data@, pos as int, 0, width as nat, 0, Seq::empty());
    while x < width
        invariant
            pos <= data.len(),
            data.len() <= isize::MAX,
            scan_row(data@, pos as int, x as nat, width as nat, last, row@) == target,
            target == scan_row(data@, start as int, 0, width as nat, 0, Seq::empty()),
        decreases data.len() - pos,
    {
        let ghost pos0 = pos;
        let ghost x0 = x;
        let ghost last0 = last;
        let ghost row0 = row@;
        if pos >= data.len() {
            return Err(Error::Short { need: pos + 1, have: data.len() });
        }
        let control = data[pos];
        pos = pos + 1;
        let mut n_run = (control & 0x0F) as usize;
        let mut c_raw = ((control >> 4) & 0x0F) as usize;
        if n_run == 1 {
            n_run = 16 + c_raw;
            c_raw = 0;
        } else if n_run == 2 {
            n_run = 32 + c_raw;
            c_raw = 0;
        }
        if c_raw > data.len() - pos || c_raw > width - x {
            assert(scan_row(data@, pos0 as int, x0 as nat, width as nat, last0, row0) == PlanePart::<Seq<u8>>::Overran);
            return Err(Error::Protocol("planar RLE overran scanline"));
        }
        if c_raw > 0 {
            last = data[pos + c_raw - 1];
        }
        put_bytes(&mut row, slice_range(data, pos, pos + c_raw));
        pos = pos + c_raw;
        x = x + c_raw;
        if n_run > width - x {
            assert(scan_row(data@, pos0 as int, x0 as nat, width as nat, last0, row0) == PlanePart::<Seq<u8>>::Overran);
            return Err(Error::Protocol("planar RLE run overran scanline"));
        }
        let ghost before = row@;
        let mut k: usize = 0;
        while k < n_run
            invariant
                k <= n_run,
                row@ == before + Seq::new(k as nat, |i: int| last),
            decreases n_run - k,
        {
            row.push(last);
            k = k + 1;
            assert(row@ =~= before + Seq::new(k as nat, |i: int| last));
        }
        x = x + n_run;
    }
    Ok((row, pos))
}

fn dedelta(above: &Vec<u8>, raw: &Vec<u8>) -> (r: Vec<u8>)
    requires
        above.len() >= raw.len(),
    ensures
        r@ == dedelta_row(above@, raw@),
{
    let mut out: Vec<u8> = Vec::new();
    let mut x: usize = 0;
    while x < raw.len()
        invariant
            x <= raw.len() <= above.len(),
            out@.len() == x,
            forall|j: int| 0 <= j < x ==> out@[j] == add_delta(above@[j], raw@[j]),
        decreases raw.len() - x,
    {
        let d = raw[x];
        let a = above[x];
        let v: u8 = if d % 2 == 0 {
            ((a as u16 + (d / 2) as u16) % 256) as u8
        } else {
            ((a as u16 + 256 - ((d / 2) as u16 + 1)) % 256) as u8
        };
        out.push(v);
        x = x + 1;
    }
    assert(out@ =~= dedelta_row(above@, raw@));
    out
}

proof fn lemma_scan_row_len(data: Seq<u8>, pos: int, x: nat, width: nat, last: u8, row: Seq<u8>)
    requires
        row.len() == x,
        x <= width,
    ensures
        scan_row(data, pos, x, width, last, row) matches PlanePart::Done(r, p) ==> r.len() == width && p >= pos,
    decreases data.len() - pos,
{
    if x < width && 0 <= pos < data.len() {
        let control = data[pos];
        let p1 = pos + 1;
        let nr0 = (control & 0x0F) as nat;
        let cr0 = ((control >> 4) & 0x0F) as nat;
        let n_run: nat = if nr0 == 1 { 16 + cr0 } else if nr0 == 2 { 32 + cr0 } else { nr0 };
        let c_raw: nat = if nr0 == 1 || nr0 == 2 { 0 } else { cr0 };
        if !(c_raw > data.len() - p1 || c_raw > width - x) {
            let last2 = if c_raw > 0 { data[p1 + c_raw - 1] } else { last };
            let x2 = x + c_raw;
            if n_run <= width - x2 {
                lemma_scan_row_len(
                    data,
                    p1 + c_raw,
                    x2 + n_run,
                    width,
                    last2,
                    row + data.subrange(p1, p1 + c_raw) + Seq::new(n_run, |i: int| last2),
                );
            }
        }
    }
}

/// Decode one RLE-compressed plane from `*cursor`: per-scanline run lengths,
/// then the vertical delta transform (scanline 0 absolute; later scanlines
/// signed deltas against the one above). `*cursor` moves past the plane.
fn decode_rle_plane(data: &[u8], cursor: &mut usize, width: usize, height: usize) -> (r: Result<Vec<u8>>)
    requires
        *old(cursor) <= data.len(),
        data.len() <= isize::MAX,
        !(height == 0 && width > 0),
    ensures
        match spec_plane(data@, *old(cursor) as int, width as nat, height as nat, true) {
            PlanePart::Done(bytes, p) => r matches Ok(v) && v@ == bytes && *final(cursor) == p,
            PlanePart::Short(n, h) => is_short(r, n, h),
            PlanePart::Overran => is_protocol(r),
        },
        *final(cursor) <= data.len(),
{
    let mut pos = *cursor;
    let mut out: Vec<u8> = Vec::new();
    let mut prev: Vec<u8> = Vec::new();
    let ghost mut rows: Seq<Seq<u8>> = Seq::empty();
    let mut y: usize = 0;
    while y < height
        invariant
            y <= height,
            pos <= data.len(),
            data.len() <= isize::MAX,
            *cursor <= data.len(),
            plane_rows(data@, *old(cursor) as int, width as nat, y as nat) == PlanePart::Done(rows, pos as int),
            out@ == concat(rows),
            rows.len() == y,
            y > 0 ==> prev@ == rows.last(),
            forall|j: int| 0 <= j < y ==> (#[trigger] rows[j]).len() == width,
        decreases height - y,
    {
        proof {
            lemma_scan_row_len(data@, pos as int, 0, width as nat, 0, Seq::empty());
        }
        let (raw, p2) = match scan_one_row(data, pos, width) {
            Ok(x) => x,
            Err(e) => {
                proof {
                    lemma_plane_rows_err(data@, *old(cursor) as int, width as nat, (y + 1) as nat, height as nat);
                }
                return Err(e);
            },
        };
        let cur = if y == 0 { raw } else { dedelta(&prev, &raw) };
        put_bytes(&mut out, cur.as_slice());
        proof {
            let old_rows = rows;
            rows = rows.push(cur@);
            assert(rows.drop_last() =~= old_rows);
            assert forall|j: int| 0 <= j < y + 1 implies (#[trigger] rows[j]).len() == width by {
                if j < y {
                    assert(rows[j] == old_rows[j]);
                }
            }
        }
        prev = cur;
        pos = p2;
        y = y + 1;
    }
    *cursor = pos;
    Ok(out)
}

fn raw_plane(data: &[u8], cursor: &mut usize, width: usize, height: usize) -> (r: Result<Vec<u8>>)
    requires
        *old(cursor) <= data.len(),
        data.len() <= isize::MAX,
        width * height <= isize::MAX,
    ensures
        match spec_plane(data@, *old(cursor) as int, width as nat, height as nat, false) {
            PlanePart::Done(bytes, p) => r matches Ok(v) && v@ == bytes && *final(cursor) == p,
            PlanePart::Short(n, h) => is_short(r, n, h),
            PlanePart::Overran => is_protocol(r),
        },
        *final(cursor) <= data.len(),
{
    let need = width * height;
    if data.len() - *cursor < need {
        return Err(Error::Short { need: *cursor + need, have: data.len() });
    }
    let p = to_vec(slice_range(data, *cursor, *cursor + need));
    *cursor = *cursor + need;
    Ok(p)
}

fn plane(data: &[u8], cursor: &mut usize, width: usize, height: usize, rle: bool) -> (r: Result<Vec<u8>>)
    requires
        *old(cursor) <= data.len(),
        data.len() <= isize::MAX,
        width * height <= isize::MAX,
        rle ==> !(height == 0 && width > 0),
    ensures
        match spec_plane(data@, *old(cursor) as int, width as nat, height as nat, rle) {
            PlanePart::Done(bytes, p) => r matches Ok(v) && v@ == bytes && *final(cursor) == p,
            PlanePart::Short(n, h) => is_short(r, n, h),
            PlanePart::Overran => is_protocol(r),
        },
        *final(cursor) <= data.len(),
{
    if rle {
        decode_rle_plane(data, cursor, width, height)
    } else {
        raw_plane(data, cursor, width, height)
    }
}

/// Once decoding a plane's scanlines fails, decoding more of them fails alike.
proof fn lemma_plane_rows_err(data: Seq<u8>, pos: int, width: nat, k: nat, h: nat)
    requires
        k <= h,
        !(plane_rows(data, pos, width, k) is Done),
    ensures
        plane_rows(data, pos, width, h) == plane_rows(data, pos, width, k),
    decreases h - k,
{
    if k < h {
        lemma_plane_rows_err(data, pos, width, k, (h - 1) as nat);
    }
}

proof fn lemma_concat_rows_len(rows: Seq<Seq<u8>>, width: nat)
    requires
        forall|j: int| 0 <= j < rows.len() ==> (#[trigger] rows[j]).len() == width,
    ensures
        concat(rows).len() == width * rows.len(),
    decreases rows.len(),
{
    if rows.len() > 0 {
        lemma_concat_rows_len(rows.drop_last(), width);
        assert(width * (rows.len() - 1) + width == width * rows.len()) by (nonlinear_arith);
    } else {
        assert(width * rows.len() == 0) by (nonlinear_arith)
            requires
                rows.len() == 0,
        ;
    }
}

proof fn lemma_plane_len(data: Seq<u8>, pos: int, width: nat, height: nat, rle: bool)
    requires
        pos >= 0,
    ensures
        spec_plane(data, pos, width, height, rle) matches PlanePart::Done(b, p) ==> b.len() == width * height
            && p >= pos,
{
    if rle {
        lemma_plane_rows_shape(data, pos, width, height);
        if let PlanePart::Done(rows, p) = plane_rows(data, pos, width, height) {
            lemma_concat_rows_len(rows, width);
            assert(width * height == width * rows.len());
        }
    }
}

proof fn lemma_plane_rows_shape(data: Seq<u8>, pos: int, width: nat, h: nat)
    ensures
        plane_rows(data, pos, width, h) matches PlanePart::Done(rows, p) ==> rows.len() == h && p >= pos && forall|j: int|
            0 <= j < rows.len() ==> (#[trigger] rows[j]).len() == width,
    decreases h,
{
    if h > 0 {
        lemma_plane_rows_shape(data, pos, width, (h - 1) as nat);
        if let PlanePart::Done(rows, p) = plane_rows(data, pos, width, (h - 1) as nat) {
            lemma_scan_row_len(data, p, 0, width, 0, Seq::empty());
            if let PlanePart::Done(raw, p2) = scan_row(data, p, 0, width, 0, Seq::empty()) {
                let nr = rows.push(if h == 1 { raw } else { dedelta_row(rows.last(), raw) });
                assert forall|j: int| 0 <= j < nr.len() implies (#[trigger] nr[j]).len() == width by {
                    if j < rows.len() {
                        assert(nr[j] == rows[j]);
                    }
                }
            }
        }
    }
}

/// Decode a planar bitmap stream into top-down RGBA (`width * height * 4` bytes).
pub fn decode(data: &[u8], width: usize, height: usize) -> (r: Result<Vec<u8>>)
    requires
        data.len() <= isize::MAX,
        width * height * 4 <= isize::MAX,
        !planar_panics(data@, width as nat, height as nat),
    ensures
        match spec_planar(data@, width as nat, height as nat) {
            Planar::Rgba(out) => r matches Ok(v) && v@ == out,
            Planar::Short(n, h) => is_short(r, n, h),
            Planar::Violation => is_protocol(r),
        },
{
    if data.len() == 0 {
        return Err(Error::Short { need: 1, have: 0 });
    }
    let format = data[0];
    assert(width * height <= width * height * 4) by (nonlinear_arith);
    let n = width * height;
    if format == 0 {
        let need = n * 4;
        if data.len() - 1 < need {
            return Err(Error::Short { need: 1 + need, have: data.len() });
        }
        let px = slice_range(data, 1, 1 + need);
        let mut rgba: Vec<u8> = Vec::new();
        let mut i: usize = 0;
        while i < n
            invariant
                i <= n,
                n == width * height,
                n * 4 <= isize::MAX,
                px@.len() == n * 4,
                rgba@ == bgra_to_rgba(px@, i as nat),
            decreases n - i,
        {
            assert(i * 4 + 4 <= n * 4) by (nonlinear_arith)
                requires
                    i < n,
            ;
            assert(i * 4 <= isize::MAX);
            let o = i * 4;
            rgba.push(px[o + 2]);
            rgba.push(px[o + 1]);
            rgba.push(px[o]);
            rgba.push(px[o + 3]);
            i = i + 1;
            assert(rgba@ =~= bgra_to_rgba(px@, i as nat));
        }
        return Ok(rgba);
    }
    if format & CS_FLAG != 0 || format & CLL_MASK != 0 {
        return Err(Error::Protocol("planar YCoCg/subsampled mode not supported"));
    }
    let has_alpha = format & NA_FLAG == 0;
    let rle = format & RLE_FLAG != 0;
    let mut cursor: usize = 1;
    let alpha = if has_alpha {
        proof {
            lemma_plane_len(data@, 1, width as nat, height as nat, rle);
        }
        Some(plane(data, &mut cursor, width, height, rle)?)
    } else {
        None
    };
    let ghost p0 = cursor;
    proof {
        lemma_plane_len(data@, p0 as int, width as nat, height as nat, rle);
    }
    let red = plane(data, &mut cursor, width, height, rle)?;
    let ghost p1 = cursor;
    proof {
        lemma_plane_len(data@, p1 as int, width as nat, height as nat, rle);
    }
    let green = plane(data, &mut cursor, width, height, rle)?;
    let ghost p2 = cursor;
    proof {
        lemma_plane_len(data@, p2 as int, width as nat, height as nat, rle);
    }
    let blue = plane(data, &mut cursor, width, height, rle)?;
    let ghost av: Option<Seq<u8>> = opt_bytes(alpha);
    let mut rgba: Vec<u8> = Vec::new();
    let mut i: usize = 0;
    while i < n
        invariant
            i <= n,
            red@.len() == n,
            green@.len() == n,
            blue@.len() == n,
            alpha matches Some(a) ==> a@.len() == n,
            av == opt_bytes(alpha),
            rgba@ == interleave(red@, green@, blue@, av, i as nat),
        decreases n - i,
    {
        let a = match &alpha {
            Some(a) => a[i],
            None => 0xFF,
        };
        rgba.push(red[i]);
        rgba.push(green[i]);
        rgba.push(blue[i]);
        rgba.push(a);
        i = i + 1;
        assert(rgba@ =~= interleave(red@, green@, blue@, av, i as nat));
    }
    Ok(rgba)
}

/// Interleaving `n` pixels gives `4 * n` bytes: pixel `i` is the `i`-th byte
/// of the red, green and blue planes, then of the alpha plane or 255.
proof fn lemma_interleave(r: Seq<u8>, g: Seq<u8>, b: Seq<u8>, a: Option<Seq<u8>>, n: nat)
    ensures
        interleave(r, g, b, a, n).len() == 4 * n,
        forall|i: int|
            0 <= i < n ==> {
                &&& #[trigger] interleave(r, g, b, a, n)[4 * i] == r[i]
                &&& interleave(r, g, b, a, n)[4 * i + 1] == g[i]
                &&& interleave(r, g, b, a, n)[4 * i + 2] == b[i]
                &&& interleave(r, g, b, a, n)[4 * i + 3] == match a {
                    Some(a) => a[i],
                    None => 0xFFu8,
                }
            },
    decreases n,
{
    if n > 0 {
        lemma_interleave(r, g, b, a, (n - 1) as nat);
        assert forall|i: int| 0 <= i < n implies {
            &&& #[trigger] interleave(r, g, b, a, n)[4 * i] == r[i]
            &&& interleave(r, g, b, a, n)[4 * i + 1] == g[i]
            &&& interleave(r, g, b, a, n)[4 * i + 2] == b[i]
            &&& interleave(r, g, b, a, n)[4 * i + 3] == match a {
                Some(a) => a[i],
                None => 0xFFu8,
            }
        } by {
            let prev = interleave(r, g, b, a, (n - 1) as nat);
            let out = interleave(r, g, b, a, n);
            if i < n - 1 {
                assert(out[4 * i] == prev[4 * i]);
                assert(out[4 * i + 1] == prev[4 * i + 1]);
                assert(out[4 * i + 2] == prev[4 * i + 2]);
                assert(out[4 * i + 3] == prev[4 * i + 3]);
            }
        }
    }
}

/// Converting `n` BGRA pixels gives `4 * n` bytes: pixel `i` is the source's
/// third, second, first and fourth byte.
proof fn lemma_bgra_to_rgba(px: Seq<u8>, n: nat)
    ensures
        bgra_to_rgba(px, n).len() == 4 * n,
        forall|i: int|
            0 <= i < n ==> {
                &&& #[trigger] bgra_to_rgba(px, n)[4 * i] == px[4 * i + 2]
                &&& bgra_to_rgba(px, n)[4 * i + 1] == px[4 * i + 1]
                &&& bgra_to_rgba(px, n)[4 * i + 2] == px[4 * i]
                &&& bgra_to_rgba(px, n)[4 * i + 3] == px[4 * i + 3]
            },
    decreases n,
{
    if n > 0 {
        lemma_bgra_to_rgba(px, (n - 1) as nat);
        assert forall|i: int| 0 <= i < n implies {
            &&& #[trigger] bgra_to_rgba(px, n)[4 * i] == px[4 * i + 2]
            &&& bgra_to_rgba(px, n)[4 * i + 1] == px[4 * i + 1]
            &&& bgra_to_rgba(px, n)[4 * i + 2] == px[4 * i]
            &&& bgra_to_rgba(px, n)[4 * i + 3] == px[4 * i + 3]
        } by {
            let prev = bgra_to_rgba(px, (n - 1) as nat);
            let out = bgra_to_rgba(px, n);
            if i < n - 1 {
                assert(out[4 * i] == prev[4 * i]);
                assert(out[4 * i + 1] == prev[4 * i + 1]);
                assert(out[4 * i + 2] == prev[4 * i + 2]);
                assert(out[4 * i + 3] == prev[4 * i + 3]);
            }
        }
    }
}

/// A planar stream that decodes gives `4 * width * height` bytes. Without an
/// alpha plane every alpha byte (every fourth, from the fourth on) is 255. With raw (not RLE) planes, pixel `i`
/// takes its red, green and blue bytes from the `i`-th byte of the red, green
/// and blue planes, which follow the format byte (and the alpha plane, when
/// there is one) `width * height` bytes each.
#[verifier::rlimit(40)]
pub proof fn lemma_planar_image(data: Seq<u8>, width: nat, height: nat)
    ensures
        spec_planar(data, width, height) matches Planar::Rgba(out) ==> out.len() == 4 * (width * height),
        spec_planar(data, width, height) matches Planar::Rgba(out) ==> (data[0] != 0 && data[0] & NA_FLAG != 0
            ==> forall|j: int| 0 <= j < out.len() && j % 4 == 3 ==> #[trigger] out[j] == 0xFF),
        spec_planar(data, width, height) matches Planar::Rgba(out) ==> (data[0] != 0 && data[0] & RLE_FLAG == 0
            ==> forall|i: int|
            #![trigger out[4 * i]]
            0 <= i < width * height ==> {
                let n = width * height;
                let first: int = if data[0] & NA_FLAG == 0 { 1 + n as int } else { 1 };
                &&& out[4 * i] == data[first + i]
                &&& out[4 * i + 1] == data[first + n + i]
                &&& out[4 * i + 2] == data[first + 2 * n + i]
                &&& data[0] & NA_FLAG == 0 ==> out[4 * i + 3] == data[1 + i]
            }),
{
    let n = width * height;
    if data.len() > 0 {
        let format = data[0];
        if format == 0 {
            let need: int = (width * height * 4) as int;
            assert(need == 4 * n) by (nonlinear_arith)
                requires
                    need == (width * height * 4) as int,
                    n == width * height,
            ;
            if data.len() >= 1 + need {
                lemma_bgra_to_rgba(data.subrange(1, 1 + need), n);
                assert(spec_planar(data, width, height) == Planar::Rgba(bgra_to_rgba(data.subrange(1, 1 + need), n)));
            }
        } else if !(format & CS_FLAG != 0 || format & CLL_MASK != 0) {
            let rle = format & RLE_FLAG != 0;
            let has_alpha = format & NA_FLAG == 0;
            lemma_plane_len(data, 1, width, height, rle);
            if let Planar::Rgba(out) = spec_planar(data, width, height) {
                let a = if has_alpha { spec_plane(data, 1, width, height, rle) } else { PlanePart::Done(Seq::empty(), 1) };
                let p0 = a->Done_1;
                let alpha = a->Done_0;
                lemma_plane_len(data, p0, width, height, rle);
                let red = spec_plane(data, p0, width, height, rle)->Done_0;
                let p1 = spec_plane(data, p0, width, height, rle)->Done_1;
                lemma_plane_len(data, p1, width, height, rle);
                let green = spec_plane(data, p1, width, height, rle)->Done_0;
                let p2 = spec_plane(data, p1, width, height, rle)->Done_1;
                lemma_plane_len(data, p2, width, height, rle);
                let blue = spec_plane(data, p2, width, height, rle)->Done_0;
                let am = if has_alpha { Some(alpha) } else { None };
                assert(out == interleave(red, green, blue, am, n));
                lemma_interleave(red, green, blue, am, n);
                if !rle {
                    let first: int = if has_alpha { 1 + n as int } else { 1 };
                    assert(p0 == first);
                    assert(red == data.subrange(first, first + n));
                    assert(p1 == first + n);
                    assert(green == data.subrange(first + n, first + 2 * n));
                    assert(p2 == first + 2 * n);
                    assert(blue == data.subrange(first + 2 * n, first + 3 * n));
                    assert(has_alpha ==> alpha == data.subrange(1, 1 + n as int));
                    assert forall|i: int| #![trigger out[4 * i]] 0 <= i < n implies {
                        &&& out[4 * i] == data[first + i]
                        &&& out[4 * i + 1] == data[first + n + i]
                        &&& out[4 * i + 2] == data[first + 2 * n + i]
                        &&& has_alpha ==> out[4 * i + 3] == data[1 + i]
                    } by {
                        assert(out[4 * i] == red[i]);
                    }
                }
                if !has_alpha {
                    assert forall|j: int| 0 <= j < out.len() && j % 4 == 3 implies #[trigger] out[j] == 0xFF by {
                        let i = j / 4;
                        assert(j == 4 * i + 3);
                        assert(out[4 * i] == red[i]);
                    }
                }
            }
        }
    }
}

proof fn lemma_nibbles(control: u8)
    by (bit_vector)
    ensures
        control & 0x0F == control % 16,
        (control >> 4) & 0x0F == control / 16,
{
}

/// A scanline control byte whose low nibble is 1 or 2 is a run of the last
/// byte, with no literals: 16 (low nibble 1) or 32 (low nibble 2) plus the
/// high nibble copies. The scanline goes on after that byte with the run
/// appended.
pub proof fn lemma_scan_long_run(data: Seq<u8>, pos: int, x: nat, width: nat, last: u8, row: Seq<u8>)
    requires
        0 <= pos < data.len(),
        data[pos] % 16 == 1 || data[pos] % 16 == 2,
        x + 16 * (data[pos] % 16) + data[pos] / 16 <= width,
        x < width,
    ensures
        ({
            let n: nat = (16 * (data[pos] % 16) + data[pos] / 16) as nat;
            scan_row(data, pos, x, width, last, row) == scan_row(
                data,
                pos + 1,
                x + n,
                width,
                last,
                row + Seq::new(n, |i: int| last),
            )
        }),
{
    let control = data[pos];
    lemma_nibbles(control);
    let n: nat = (16 * (control % 16) + control / 16) as nat;
    assert(data.subrange(pos + 1, pos + 1) =~= Seq::<u8>::empty());
    assert(row + data.subrange(pos + 1, pos + 1) + Seq::new(n, |i: int| last) =~= row + Seq::new(n, |i: int| last));
}

/// A scanline control byte whose low nibble is 0 or at least 3 copies as many
/// literal bytes as its high nibble gives, then repeats the last byte written
/// (the last literal, or the previous last byte when there are none) as many
/// times as its low nibble gives.
pub proof fn lemma_scan_literals_run(data: Seq<u8>, pos: int, x: nat, width: nat, last: u8, row: Seq<u8>)
    requires
        0 <= pos,
        pos + 1 + data[pos] / 16 <= data.len(),
        data[pos] % 16 == 0 || data[pos] % 16 >= 3,
        x + data[pos] / 16 + data[pos] % 16 <= width,
        x < width,
    ensures
        ({
            let lits: nat = (data[pos] / 16) as nat;
            let run: nat = (data[pos] % 16) as nat;
            let last2 = if lits > 0 { data[pos + lits] } else { last };
            scan_row(data, pos, x, width, last, row) == scan_row(
                data,
                pos + 1 + lits,
                x + lits + run,
                width,
                last2,
                row + data.subrange(pos + 1, pos + 1 + lits) + Seq::new(run, |i: int| last2),
            )
        }),
{
    lemma_nibbles(data[pos]);
}

/// The RLE scanline `10 v (16 h + 1)` at `pos`, one literal `v` then a run
/// of `16 + h` copies of it, decodes to `17 + h` bytes `v`.
proof fn lemma_literal_then_long_run_row(data: Seq<u8>, pos: int, v: u8, h: u8)
    requires
        h < 16,
        0 <= pos,
        pos + 3 <= data.len(),
        data[pos] == 0x10,
        data[pos + 1] == v,
        data[pos + 2] == 16 * h + 1,
    ensures
        scan_row(data, pos, 0, 17 + h as nat, 0, Seq::empty()) == PlanePart::Done(
            Seq::new(17 + h as nat, |i: int| v),
            pos + 3,
        ),
{
    let w: nat = 17 + h as nat;
    lemma_scan_literals_run(data, pos, 0, w, 0, Seq::empty());
    let row1 = Seq::<u8>::empty() + data.subrange(pos + 1, pos + 2) + Seq::new(0, |i: int| v);
    lemma_scan_long_run(data, pos + 2, 1, w, v, row1);
    let row2 = row1 + Seq::new((16 + h) as nat, |i: int| v);
    assert(scan_row(data, pos + 3, w, w, v, row2) == PlanePart::Done(row2, pos + 3));
    assert(row2 =~= Seq::new(w, |i: int| v));
}

/// One RLE scanline `10 v (16 h + 1)` at `pos`: one literal `v`, then a run
/// of `16 + h` copies of it, is a plane of `17 + h` bytes `v` at height 1.
proof fn lemma_literal_then_long_run(data: Seq<u8>, pos: int, v: u8, h: u8)
    requires
        h < 16,
        0 <= pos,
        pos + 3 <= data.len(),
        data[pos] == 0x10,
        data[pos + 1] == v,
        data[pos + 2] == 16 * h + 1,
    ensures
        spec_plane(data, pos, 17 + h as nat, 1, true) == PlanePart::Done(Seq::new(17 + h as nat, |i: int| v), pos + 3),
{
    let w: nat = 17 + h as nat;
    lemma_literal_then_long_run_row(data, pos, v, h);
    let row2 = Seq::new(w, |i: int| v);
    assert(plane_rows(data, pos, w, 0) == PlanePart::<Seq<Seq<u8>>>::Done(Seq::empty(), pos));
    assert(plane_rows(data, pos, w, 1) == PlanePart::Done(Seq::<Seq<u8>>::empty().push(row2), pos + 3));
    let rows = Seq::<Seq<u8>>::empty().push(row2);
    assert(rows.drop_last() =~= Seq::<Seq<u8>>::empty());
    assert(concat(Seq::<Seq<u8>>::empty()) =~= Seq::<u8>::empty());
    assert(rows.last() == row2);
    assert(concat(rows) == concat(rows.drop_last()) + rows.last());
    assert(concat(rows) =~= row2);
}

/// In an RLE plane every scanline after the first holds deltas against the
/// one above: with a first scanline of bytes `v` and a second whose decoded
/// bytes are all `d`, the second scanline is `v` plus `d / 2` when `d` is
/// even and `v` minus `d / 2 + 1` when it is odd, modulo 256.
pub proof fn lemma_plane_second_row_deltas(data: Seq<u8>, pos: int, v: u8, d: u8, h: u8)
    requires
        h < 16,
        0 <= pos,
        pos + 6 <= data.len(),
        data[pos] == 0x10,
        data[pos + 1] == v,
        data[pos + 2] == 16 * h + 1,
        data[pos + 3] == 0x10,
        data[pos + 4] == d,
        data[pos + 5] == 16 * h + 1,
    ensures
        ({
            let w: nat = 17 + h as nat;
            let step: int = if d % 2 == 0 { (d / 2) as int } else { -((d / 2) as int + 1) };
            let below = ((v as int + step) % 256) as u8;
            spec_plane(data, pos, w, 2, true) == PlanePart::Done(
                Seq::new(w, |i: int| v) + Seq::new(w, |i: int| below),
                pos + 6,
            )
        }),
{
    let w: nat = 17 + h as nat;
    lemma_literal_then_long_run_row(data, pos, v, h);
    lemma_literal_then_long_run_row(data, pos + 3, d, h);
    let r1 = Seq::new(w, |i: int| v);
    let r2 = Seq::new(w, |i: int| d);
    assert(plane_rows(data, pos, w, 0) == PlanePart::<Seq<Seq<u8>>>::Done(Seq::empty(), pos));
    let rows1 = Seq::<Seq<u8>>::empty().push(r1);
    assert(plane_rows(data, pos, w, 1) == PlanePart::Done(rows1, pos + 3));
    let below_row = dedelta_row(rows1.last(), r2);
    let rows2 = rows1.push(below_row);
    assert(plane_rows(data, pos, w, 2) == PlanePart::Done(rows2, pos + 6));
    let step: int = if d % 2 == 0 { (d / 2) as int } else { -((d / 2) as int + 1) };
    let below = ((v as int + step) % 256) as u8;
    assert(below_row =~= Seq::new(w, |i: int| below));
    assert(rows2.drop_last() == rows1);
    assert(rows1.drop_last() =~= Seq::<Seq<u8>>::empty());
    assert(concat(Seq::<Seq<u8>>::empty()) =~= Seq::<u8>::empty());
    assert(concat(rows1) == concat(rows1.drop_last()) + rows1.last());
    assert(concat(rows1) =~= r1);
    assert(concat(rows2) == concat(rows2.drop_last()) + rows2.last());
    assert(concat(rows2) =~= r1 + Seq::new(w, |i: int| below));
}

/// A planar stream without alpha whose three RLE planes (red, green, blue)
/// are each the scanline `10 v (16 h + 1)` decodes, at `17 + h` by 1, to
/// `17 + h` opaque pixels of grey `v`: a control byte with low nibble 1 is a
/// run of 16 plus its high nibble copies of the last byte.
pub proof fn lemma_planar_long_run(v: u8, h: u8)
    requires
        h < 16,
    ensures
        ({
            let row = seq![0x10u8, v, (16 * h + 1) as u8];
            let data = seq![0x30u8] + row + row + row;
            let w: nat = 17 + h as nat;
            spec_planar(data, w, 1) == Planar::Rgba(
                Seq::new(4 * w, |i: int| if i % 4 == 3 { 0xFFu8 } else { v }),
            )
        }),
{
    let row = seq![0x10u8, v, (16 * h + 1) as u8];
    let data = seq![0x30u8] + row + row + row;
    let w: nat = 17 + h as nat;
    let f: u8 = 0x30;
    assert(f & CS_FLAG == 0 && f & CLL_MASK == 0 && f & RLE_FLAG != 0 && f & NA_FLAG != 0) by (bit_vector)
        requires
            f == 0x30,
    ;
    lemma_literal_then_long_run(data, 1, v, h);
    lemma_literal_then_long_run(data, 4, v, h);
    lemma_literal_then_long_run(data, 7, v, h);
    let plane = Seq::new(w, |i: int| v);
    assert(spec_planes(data, w, 1, true, false) == Planar::Rgba(interleave(plane, plane, plane, None, w * 1)));
    lemma_interleave(plane, plane, plane, None, w);
    let out = interleave(plane, plane, plane, None, w);
    assert forall|i: int| 0 <= i < 4 * w implies #[trigger] out[i] == (if i % 4 == 3 { 0xFFu8 } else { v }) by {
        let q = i / 4;
        assert(out[4 * q] == v);
        assert(i == 4 * q + i % 4);
    }
    assert(out =~= Seq::new(4 * w, |i: int| if i % 4 == 3 { 0xFFu8 } else { v }));
}

/// The delta byte that encodes the signed step `diff` (-128 to 127): twice it
/// when not negative, else minus twice it minus one.
pub open spec fn delta_byte(diff: int) -> u8 {
    if diff >= 0 {
        (2 * diff) as u8
    } else {
        (-2 * diff - 1) as u8
    }
}

/// Delta decoding reaches every byte value from every byte above it: the
/// byte `t` is what the delta byte of the step from `a` to `t` (taken between
/// -128 and 127) decodes to.
pub proof fn lemma_delta_reaches(a: u8, t: u8)
    ensures
        ({
            let diff = (t as int - a as int + 128) % 256 - 128;
            add_delta(a, delta_byte(diff)) == t
        }),
{
    let diff = (t as int - a as int + 128) % 256 - 128;
    assert(-128 <= diff < 128);
    assert((a as int + diff) % 256 == t as int) by {
        assert(t as int - a as int + 128 == 256 * ((t as int - a as int + 128) / 256) + (diff + 128));
    }
    let d = delta_byte(diff);
    if diff >= 0 {
        assert(d as int == 2 * diff);
        assert(d % 2 == 0 && d / 2 == diff);
    } else {
        assert(d as int == -2 * diff - 1);
        assert(d % 2 == 1 && d / 2 == -diff - 1);
    }
}

} // verus!
