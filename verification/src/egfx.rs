//! The graphics pipeline extension: the RDPGFX_HEADER and the command PDUs
//! that ride the graphics dynamic virtual channel and paint onto server-side
//! surfaces, which are then mapped to the output.
//!
//! This module implements the protocol framing, the client-side CAPSADVERTISE
//! and FRAMEACKNOWLEDGE, a surface store, and UNCOMPRESSED wire-to-surface
//! decoding. Codecs it cannot decode are reported as errors.

use vstd::prelude::*;
use crate::graphics::bitmap::blitted;
use crate::graphics::framebuffer::Framebuffer;
use crate::wire::{get_le16, get_le32, le16, le32, put_bytes, put_u16_le, put_u32_le, read_u16_le, read_u32_le, slice_range, to_vec};
use crate::{is_protocol, is_short, Error, Result};
use std::collections::HashMap;

verus! {

pub const CMDID_WIRETOSURFACE_1: u16 = 0x0001;
pub const CMDID_WIRETOSURFACE_2: u16 = 0x0002;
pub const CMDID_SOLIDFILL: u16 = 0x0004;
pub const CMDID_CREATESURFACE: u16 = 0x0009;
pub const CMDID_DELETESURFACE: u16 = 0x000A;
pub const CMDID_STARTFRAME: u16 = 0x000B;
pub const CMDID_ENDFRAME: u16 = 0x000C;
pub const CMDID_FRAMEACKNOWLEDGE: u16 = 0x000D;
pub const CMDID_RESETGRAPHICS: u16 = 0x000E;
pub const CMDID_MAPSURFACETOOUTPUT: u16 = 0x000F;
pub const CMDID_CAPSADVERTISE: u16 = 0x0012;
pub const CMDID_CAPSCONFIRM: u16 = 0x0013;

pub const CODECID_UNCOMPRESSED: u16 = 0x0000;
pub const CODECID_CAVIDEO_RFX: u16 = 0x0003;
pub const CODECID_PLANAR: u16 = 0x000A;
pub const CODECID_AVC420: u16 = 0x000B;
pub const CODECID_ALPHA: u16 = 0x000C;
pub const CODECID_AVC444: u16 = 0x000E;

pub const HEADER_LEN: usize = 8;

/// RDPGFX_HEADER: cmdId, flags (0), pduLength (including the 8-byte header).
#[derive(Clone, Copy, Debug, PartialEq, Eq)]
pub struct GfxHeader {
    pub cmd_id: u16,
    pub pdu_length: u32,
}

/// A 16-bit rectangle (right and bottom exclusive).
#[derive(Clone, Copy, Debug, PartialEq, Eq, Structural)]
pub struct Rect16 {
    pub left: u16,
    pub top: u16,
    pub right: u16,
    pub bottom: u16,
}

/// `a - b`, or 0 when `b` is larger.
pub open spec fn sat_sub(a: u16, b: u16) -> u16 {
    if a >= b { (a - b) as u16 } else { 0 }
}

impl Rect16 {
    pub fn width(&self) -> (r: u16)
        ensures
            r == sat_sub(self.right, self.left),
    {
        self.right.saturating_sub(self.left)
    }

    pub fn height(&self) -> (r: u16)
        ensures
            r == sat_sub(self.bottom, self.top),
    {
        self.bottom.saturating_sub(self.top)
    }
}

/// A parsed server-to-client graphics command (those the client acts on).
#[derive(Clone, Debug, PartialEq, Eq)]
pub enum GfxCommand {
    CreateSurface { surface_id: u16, width: u16, height: u16, pixel_format: u8 },
    DeleteSurface { surface_id: u16 },
    MapSurfaceToOutput { surface_id: u16, x: u32, y: u32 },
    StartFrame { frame_id: u32 },
    EndFrame { frame_id: u32 },
    ResetGraphics { width: u32, height: u32 },
    WireToSurface1 { surface_id: u16, codec_id: u16, pixel_format: u8, dest: Rect16, data: Vec<u8> },
    CapsConfirm { version: u32 },
    Other { cmd_id: u16 },
}

/// The contents of a graphics command.
pub enum CmdView {
    CreateSurface { surface_id: u16, width: u16, height: u16, pixel_format: u8 },
    DeleteSurface { surface_id: u16 },
    MapSurfaceToOutput { surface_id: u16, x: u32, y: u32 },
    StartFrame { frame_id: u32 },
    EndFrame { frame_id: u32 },
    ResetGraphics { width: u32, height: u32 },
    WireToSurface1 { surface_id: u16, codec_id: u16, pixel_format: u8, dest: Rect16, data: Seq<u8> },
    CapsConfirm { version: u32 },
    Other { cmd_id: u16 },
}

impl View for GfxCommand {
    type V = CmdView;

    open spec fn view(&self) -> CmdView {
        match *self {
            GfxCommand::CreateSurface { surface_id, width, height, pixel_format } => CmdView::CreateSurface {
                surface_id,
                width,
                height,
                pixel_format,
            },
            GfxCommand::DeleteSurface { surface_id } => CmdView::DeleteSurface { surface_id },
            GfxCommand::MapSurfaceToOutput { surface_id, x, y } => CmdView::MapSurfaceToOutput { surface_id, x, y },
            GfxCommand::StartFrame { frame_id } => CmdView::StartFrame { frame_id },
            GfxCommand::EndFrame { frame_id } => CmdView::EndFrame { frame_id },
            GfxCommand::ResetGraphics { width, height } => CmdView::ResetGraphics { width, height },
            GfxCommand::WireToSurface1 { surface_id, codec_id, pixel_format, dest, data } => CmdView::WireToSurface1 {
                surface_id,
                codec_id,
                pixel_format,
                dest,
                data: data@,
            },
            GfxCommand::CapsConfirm { version } => CmdView::CapsConfirm { version },
            GfxCommand::Other { cmd_id } => CmdView::Other { cmd_id },
        }
    }
}

/// Why a command does not parse: too few bytes (needed, available), or a bad pduLength.
pub enum CmdError {
    Short(int, int),
    BadLength,
}

/// Whether `r` failed as `e` says.
pub open spec fn fails_as<T>(r: Result<T>, e: CmdError) -> bool {
    match e {
        CmdError::Short(n, h) => is_short(r, n, h),
        CmdError::BadLength => is_protocol(r),
    }
}

/// The command of body `b` (after the header) for `cmd_id`, when the body is
/// long enough.
pub open spec fn spec_command_body(cmd_id: u16, b: Seq<u8>) -> core::result::Result<CmdView, CmdError> {
    let short = |n: int| if b.len() < n { Some(CmdError::Short(n, b.len() as int)) } else { None };
    if cmd_id == CMDID_CREATESURFACE {
        if b.len() < 7 {
            Err(CmdError::Short(7, b.len() as int))
        } else {
            Ok(CmdView::CreateSurface { surface_id: get_le16(b, 0), width: get_le16(b, 2), height: get_le16(b, 4), pixel_format: b[6] })
        }
    } else if cmd_id == CMDID_DELETESURFACE {
        if b.len() < 2 {
            Err(CmdError::Short(2, b.len() as int))
        } else {
            Ok(CmdView::DeleteSurface { surface_id: get_le16(b, 0) })
        }
    } else if cmd_id == CMDID_MAPSURFACETOOUTPUT {
        if b.len() < 12 {
            Err(CmdError::Short(12, b.len() as int))
        } else {
            Ok(CmdView::MapSurfaceToOutput { surface_id: get_le16(b, 0), x: get_le32(b, 4), y: get_le32(b, 8) })
        }
    } else if cmd_id == CMDID_STARTFRAME {
        if b.len() < 8 {
            Err(CmdError::Short(8, b.len() as int))
        } else {
            Ok(CmdView::StartFrame { frame_id: get_le32(b, 4) })
        }
    } else if cmd_id == CMDID_ENDFRAME {
        if b.len() < 4 {
            Err(CmdError::Short(4, b.len() as int))
        } else {
            Ok(CmdView::EndFrame { frame_id: get_le32(b, 0) })
        }
    } else if cmd_id == CMDID_RESETGRAPHICS {
        if b.len() < 8 {
            Err(CmdError::Short(8, b.len() as int))
        } else {
            Ok(CmdView::ResetGraphics { width: get_le32(b, 0), height: get_le32(b, 4) })
        }
    } else if cmd_id == CMDID_WIRETOSURFACE_1 {
        if b.len() < 17 {
            Err(CmdError::Short(17, b.len() as int))
        } else {
            let data_len = get_le32(b, 13) as int;
            let rest = b.subrange(17, b.len() as int);
            if rest.len() < data_len {
                Err(CmdError::Short(data_len, rest.len() as int))
            } else {
                Ok(
                    CmdView::WireToSurface1 {
                        surface_id: get_le16(b, 0),
                        codec_id: get_le16(b, 2),
                        pixel_format: b[4],
                        dest: Rect16 { left: get_le16(b, 5), top: get_le16(b, 7), right: get_le16(b, 9), bottom: get_le16(b, 11) },
                        data: rest.subrange(0, data_len),
                    },
                )
            }
        }
    } else if cmd_id == CMDID_CAPSCONFIRM {
        if b.len() < 4 {
            Err(CmdError::Short(4, b.len() as int))
        } else {
            Ok(CmdView::CapsConfirm { version: get_le32(b, 0) })
        }
    } else {
        Ok(CmdView::Other { cmd_id })
    }
}

/// One RDPGFX PDU at the front of `buf` and its length.
pub open spec fn spec_parse_command(buf: Seq<u8>) -> core::result::Result<(CmdView, int), CmdError> {
    if buf.len() < HEADER_LEN {
        Err(CmdError::Short(HEADER_LEN as int, buf.len() as int))
    } else {
        let pdu_length = get_le32(buf, 4) as int;
        if pdu_length < HEADER_LEN || buf.len() < pdu_length {
            Err(CmdError::BadLength)
        } else {
            match spec_command_body(get_le16(buf, 0), buf.subrange(HEADER_LEN as int, pdu_length)) {
                Err(e) => Err(e),
                Ok(c) => Ok((c, pdu_length)),
            }
        }
    }
}

fn need(buf: &[u8], n: usize) -> (r: Result<()>)
    ensures
        r is Ok <==> buf.len() >= n,
        r is Err ==> is_short(r, n as int, buf.len() as int),
{
    if buf.len() < n {
        Err(Error::Short { need: n, have: buf.len() })
    } else {
        Ok(())
    }
}

/// Parse one RDPGFX PDU (after bulk decompression), returning the command and
/// the bytes it takes.
pub fn parse_command(buf: &[u8]) -> (r: Result<(GfxCommand, usize)>)
    ensures
        r matches Ok((c, n)) ==> spec_parse_command(buf@) == Ok::<(CmdView, int), CmdError>((c@, n as int)),
        r is Err ==> (spec_parse_command(buf@) matches Err(e) && fails_as(r, e)),
{
    if buf.len() < HEADER_LEN {
        return Err(Error::Short { need: HEADER_LEN, have: buf.len() });
    }
    let cmd_id = read_u16_le(buf, 0);
    let pdu_length = read_u32_le(buf, 4) as usize;
    if pdu_length < HEADER_LEN || buf.len() < pdu_length {
        return Err(Error::Protocol("bad RDPGFX pduLength"));
    }
    let body = slice_range(buf, HEADER_LEN, pdu_length);
    let cmd = if cmd_id == CMDID_CREATESURFACE {
        need(body, 7)?;
        GfxCommand::CreateSurface {
            surface_id: read_u16_le(body, 0),
            width: read_u16_le(body, 2),
            height: read_u16_le(body, 4),
            pixel_format: body[6],
        }
    } else if cmd_id == CMDID_DELETESURFACE {
        need(body, 2)?;
        GfxCommand::DeleteSurface { surface_id: read_u16_le(body, 0) }
    } else if cmd_id == CMDID_MAPSURFACETOOUTPUT {
        need(body, 12)?;
        GfxCommand::MapSurfaceToOutput { surface_id: read_u16_le(body, 0), x: read_u32_le(body, 4), y: read_u32_le(body, 8) }
    } else if cmd_id == CMDID_STARTFRAME {
        need(body, 8)?;
        GfxCommand::StartFrame { frame_id: read_u32_le(body, 4) }
    } else if cmd_id == CMDID_ENDFRAME {
        need(body, 4)?;
        GfxCommand::EndFrame { frame_id: read_u32_le(body, 0) }
    } else if cmd_id == CMDID_RESETGRAPHICS {
        need(body, 8)?;
        GfxCommand::ResetGraphics { width: read_u32_le(body, 0), height: read_u32_le(body, 4) }
    } else if cmd_id == CMDID_WIRETOSURFACE_1 {
        need(body, 17)?;
        let surface_id = read_u16_le(body, 0);
        let codec_id = read_u16_le(body, 2);
        let pixel_format = body[4];
        let dest = Rect16 {
            left: read_u16_le(body, 5),
            top: read_u16_le(body, 7),
            right: read_u16_le(body, 9),
            bottom: read_u16_le(body, 11),
        };
        let data_len = read_u32_le(body, 13) as usize;
        let rest = slice_range(body, 17, body.len());
        need(rest, data_len)?;
        GfxCommand::WireToSurface1 { surface_id, codec_id, pixel_format, dest, data: to_vec(slice_range(rest, 0, data_len)) }
    } else if cmd_id == CMDID_CAPSCONFIRM {
        need(body, 4)?;
        GfxCommand::CapsConfirm { version: read_u32_le(body, 0) }
    } else {
        GfxCommand::Other { cmd_id }
    };
    Ok((cmd, pdu_length))
}

/// The commands of a stream, read one after another.
pub open spec fn spec_parse_all(buf: Seq<u8>) -> core::result::Result<Seq<CmdView>, CmdError>
    decreases buf.len(),
{
    if buf.len() == 0 {
        Ok(Seq::empty())
    } else {
        match spec_parse_command(buf) {
            Err(e) => Err(e),
            Ok((c, n)) => if 0 < n <= buf.len() {
                match spec_parse_all(buf.subrange(n, buf.len() as int)) {
                    Err(e) => Err(e),
                    Ok(rest) => Ok(seq![c] + rest),
                }
            } else {
                Err(CmdError::BadLength)
            },
        }
    }
}

/// One PDU reads only its own `pduLength` bytes: what follows does not change
/// it.
proof fn lemma_parse_command_prefix(a: Seq<u8>, b: Seq<u8>)
    ensures
        spec_parse_command(a) matches Ok((c, n)) ==> spec_parse_command(a + b) == Ok::<
            (CmdView, int),
            CmdError,
        >((c, n)),
{
    if a.len() >= HEADER_LEN {
        let ab = a + b;
        assert(ab[0] == a[0] && ab[1] == a[1]);
        assert(ab[4] == a[4] && ab[5] == a[5] && ab[6] == a[6] && ab[7] == a[7]);
        assert(get_le16(ab, 0) == get_le16(a, 0));
        assert(get_le32(ab, 4) == get_le32(a, 4));
        let n = get_le32(a, 4) as int;
        if HEADER_LEN <= n <= a.len() {
            assert(ab.subrange(HEADER_LEN as int, n) =~= a.subrange(HEADER_LEN as int, n));
        }
    }
}

/// Parsing two streams one after the other gives the commands of the first,
/// then those of the second.
pub proof fn lemma_parse_all_concat(a: Seq<u8>, b: Seq<u8>)
    ensures
        spec_parse_all(Seq::<u8>::empty()) == Ok::<Seq<CmdView>, CmdError>(Seq::empty()),
        spec_parse_all(a) matches Ok(x) ==> (spec_parse_all(b) matches Ok(y) ==> spec_parse_all(a + b) == Ok::<
            Seq<CmdView>,
            CmdError,
        >(x + y)),
    decreases a.len(),
{
    if a.len() == 0 {
        assert(a + b =~= b);
        if let Ok(y) = spec_parse_all(b) {
            assert(Seq::<CmdView>::empty() + y =~= y);
        }
    } else if let Ok((c, n)) = spec_parse_command(a) {
        if 0 < n <= a.len() {
            let t = a.subrange(n, a.len() as int);
            lemma_parse_all_concat(t, b);
            lemma_parse_command_prefix(a, b);
            let ab = a + b;
            assert(ab.subrange(n, ab.len() as int) =~= t + b);
            if let Ok(x) = spec_parse_all(a) {
                if let Ok(y) = spec_parse_all(b) {
                    let rest = spec_parse_all(t)->Ok_0;
                    assert(x == seq![c] + rest);
                    assert(spec_parse_all(ab) == Ok::<Seq<CmdView>, CmdError>(seq![c] + (rest + y)));
                    assert(seq![c] + (rest + y) =~= x + y);
                }
            }
        }
    }
}

/// A stream whose first PDU fails to parse fails with that PDU's error.
pub proof fn lemma_parse_all_first_error(buf: Seq<u8>)
    ensures
        buf.len() > 0 && spec_parse_command(buf) is Err ==> spec_parse_all(buf) == Err::<Seq<CmdView>, CmdError>(
            spec_parse_command(buf)->Err_0,
        ),
{
}

/// The commands a vector holds.
pub open spec fn cmd_views(v: Seq<GfxCommand>) -> Seq<CmdView> {
    Seq::new(v.len(), |i: int| v[i]@)
}

/// Parse all commands in a decompressed graphics message stream.
pub fn parse_all(buf: &[u8]) -> (r: Result<Vec<GfxCommand>>)
    ensures
        r matches Ok(v) ==> spec_parse_all(buf@) == Ok::<Seq<CmdView>, CmdError>(cmd_views(v@)),
        r is Err ==> (spec_parse_all(buf@) matches Err(e) && fails_as(r, e)),
{
    let mut cmds: Vec<GfxCommand> = Vec::new();
    let mut rest = buf;
    while rest.len() > 0
        invariant
            spec_parse_all(buf@) == (match spec_parse_all(rest@) {
                Err(e) => Err(e),
                Ok(tail) => Ok::<Seq<CmdView>, CmdError>(cmd_views(cmds@) + tail),
            }),
        decreases rest.len(),
    {
        let (cmd, consumed) = parse_command(rest)?;
        let ghost prev = cmds@;
        cmds.push(cmd);
        proof {
            assert(cmd_views(cmds@) =~= cmd_views(prev) + seq![cmd@]);
            match spec_parse_all(rest@.subrange(consumed as int, rest@.len() as int)) {
                Err(e) => {},
                Ok(tail) => {
                    assert(cmd_views(prev) + (seq![cmd@] + tail) =~= cmd_views(cmds@) + tail);
                },
            }
        }
        rest = slice_range(rest, consumed, rest.len());
    }
    proof {
        assert(cmd_views(cmds@) + Seq::<CmdView>::empty() =~= cmd_views(cmds@));
    }
    Ok(cmds)
}

/// An RDPGFX PDU: header (cmdId, flags 0, pduLength) then the body.
pub open spec fn spec_frame(cmd_id: u16, body: Seq<u8>) -> Seq<u8> {
    le16(cmd_id) + le16(0) + le32(((HEADER_LEN + body.len()) % 0x1_0000_0000) as u32) + body
}

pub fn frame_header(cmd_id: u16, body: &[u8]) -> (r: Vec<u8>)
    ensures
        r@ == spec_frame(cmd_id, body@),
{
    let mut out: Vec<u8> = Vec::new();
    put_u16_le(&mut out, cmd_id);
    put_u16_le(&mut out, 0);
    let low: u64 = (body.len() as u64) % 0x1_0000_0000;
    proof {
        vstd::arithmetic::div_mod::lemma_add_mod_noop(body.len() as int, HEADER_LEN as int, 0x1_0000_0000);
        vstd::arithmetic::div_mod::lemma_mod_twice(body.len() as int, 0x1_0000_0000);
        vstd::arithmetic::div_mod::lemma_small_mod(HEADER_LEN as nat, 0x1_0000_0000);
    }
    put_u32_le(&mut out, ((low + HEADER_LEN as u64) % 0x1_0000_0000) as u32);
    put_bytes(&mut out, body);
    out
}

/// The capability sets of a CAPSADVERTISE, each a version with no data.
pub open spec fn caps_sets(versions: Seq<u32>) -> Seq<u8>
    decreases versions.len(),
{
    if versions.len() == 0 {
        Seq::empty()
    } else {
        caps_sets(versions.drop_last()) + le32(versions.last()) + le32(0)
    }
}

/// A CAPSADVERTISE advertising the given capability-set versions (no data).
pub open spec fn spec_caps_advertise(versions: Seq<u32>) -> Seq<u8> {
    spec_frame(CMDID_CAPSADVERTISE, le16((versions.len() % 0x1_0000) as u16) + caps_sets(versions))
}

/// Build a CAPSADVERTISE advertising the given capability-set versions (no data).
pub fn caps_advertise(versions: &[u32]) -> (r: Vec<u8>)
    ensures
        r@ == spec_caps_advertise(versions@),
{
    let mut body: Vec<u8> = Vec::new();
    put_u16_le(&mut body, (versions.len() % 0x1_0000) as u16);
    let ghost head = body@;
    let mut i: usize = 0;
    while i < versions.len()
        invariant
            i <= versions.len(),
            body@ == head + caps_sets(versions@.subrange(0, i as int)),
        decreases versions.len() - i,
    {
        put_u32_le(&mut body, versions[i]);
        put_u32_le(&mut body, 0);
        proof {
            assert(versions@.subrange(0, i + 1).drop_last() =~= versions@.subrange(0, i as int));
            assert(body@ =~= head + caps_sets(versions@.subrange(0, i + 1)));
        }
        i = i + 1;
    }
    proof {
        assert(versions@.subrange(0, versions.len() as int) =~= versions@);
    }
    frame_header(CMDID_CAPSADVERTISE, body.as_slice())
}

/// An RDPGFX PDU built by [`frame_header`] starts with its cmdId and zero
/// flags, gives its own total length as pduLength, and carries the body after
/// the eight header bytes.
pub proof fn lemma_frame_fields(cmd_id: u16, body: Seq<u8>)
    requires
        body.len() + 8 < 0x1_0000_0000,
    ensures
        ({
            let r = spec_frame(cmd_id, body);
            &&& r.len() == 8 + body.len()
            &&& get_le16(r, 0) == cmd_id
            &&& get_le16(r, 2) == 0
            &&& get_le32(r, 4) == r.len()
            &&& r.subrange(8, r.len() as int) == body
        }),
{
    let r = spec_frame(cmd_id, body);
    let l = ((HEADER_LEN + body.len()) % 0x1_0000_0000) as u32;
    crate::wire::lemma_le16(cmd_id);
    crate::wire::lemma_le16(0);
    crate::wire::lemma_le32(l);
    assert(r.subrange(0, 2) =~= le16(cmd_id));
    assert(r.subrange(2, 4) =~= le16(0));
    assert(r.subrange(4, 8) =~= le32(l));
    assert(r.subrange(8, r.len() as int) =~= body);
    crate::wire::lemma_get_le16_at(r, 0, cmd_id);
    crate::wire::lemma_get_le16_at(r, 2, 0);
    crate::wire::lemma_get_le32_at(r, 4, l);
}

/// A PDU built with a command id and a body parses as that body does, and
/// takes its whole length.
proof fn lemma_parse_frame(cmd_id: u16, body: Seq<u8>)
    requires
        body.len() + 8 < 0x1_0000_0000,
    ensures
        spec_parse_command(spec_frame(cmd_id, body)) == (match spec_command_body(cmd_id, body) {
            Err(e) => Err(e),
            Ok(c) => Ok::<(CmdView, int), CmdError>((c, 8 + body.len() as int)),
        }),
{
    lemma_frame_fields(cmd_id, body);
    let r = spec_frame(cmd_id, body);
    assert(r.subrange(8, 8 + body.len() as int) =~= body);
}

/// Each server-to-client graphics command parses to the fields written at
/// its offsets, little-endian: CreateSurface (surfaceId, width, height,
/// pixelFormat), MapSurfaceToOutput (surfaceId, a reserved 16 bits, then x
/// and y), StartFrame (a timestamp, then frameId), EndFrame (frameId),
/// ResetGraphics (width, height) and CapsConfirm (version).
pub proof fn lemma_parse_gfx_fields(a: u16, b: u16, c: u16, f: u8, x: u32, y: u32)
    ensures
        spec_parse_command(spec_frame(CMDID_CREATESURFACE, le16(a) + le16(b) + le16(c) + seq![f])) == Ok::<
            (CmdView, int),
            CmdError,
        >((CmdView::CreateSurface { surface_id: a, width: b, height: c, pixel_format: f }, 15)),
        spec_parse_command(spec_frame(CMDID_MAPSURFACETOOUTPUT, le16(a) + le16(b) + le32(x) + le32(y))) == Ok::<
            (CmdView, int),
            CmdError,
        >((CmdView::MapSurfaceToOutput { surface_id: a, x, y }, 20)),
        spec_parse_command(spec_frame(CMDID_STARTFRAME, le32(x) + le32(y))) == Ok::<(CmdView, int), CmdError>(
            (CmdView::StartFrame { frame_id: y }, 16),
        ),
        spec_parse_command(spec_frame(CMDID_ENDFRAME, le32(x))) == Ok::<(CmdView, int), CmdError>(
            (CmdView::EndFrame { frame_id: x }, 12),
        ),
        spec_parse_command(spec_frame(CMDID_RESETGRAPHICS, le32(x) + le32(y))) == Ok::<(CmdView, int), CmdError>(
            (CmdView::ResetGraphics { width: x, height: y }, 16),
        ),
        spec_parse_command(spec_frame(CMDID_CAPSCONFIRM, le32(x))) == Ok::<(CmdView, int), CmdError>(
            (CmdView::CapsConfirm { version: x }, 12),
        ),
        spec_parse_command(spec_frame(CMDID_DELETESURFACE, le16(a))) == Ok::<(CmdView, int), CmdError>(
            (CmdView::DeleteSurface { surface_id: a }, 10),
        ),
{
    crate::wire::lemma_le16(a);
    crate::wire::lemma_le16(b);
    crate::wire::lemma_le16(c);
    crate::wire::lemma_le32(x);
    crate::wire::lemma_le32(y);
    let cs = le16(a) + le16(b) + le16(c) + seq![f];
    lemma_parse_frame(CMDID_CREATESURFACE, cs);
    assert(cs.subrange(0, 2) =~= le16(a));
    assert(cs.subrange(2, 4) =~= le16(b));
    assert(cs.subrange(4, 6) =~= le16(c));
    crate::wire::lemma_get_le16_at(cs, 0, a);
    crate::wire::lemma_get_le16_at(cs, 2, b);
    crate::wire::lemma_get_le16_at(cs, 4, c);
    let ms = le16(a) + le16(b) + le32(x) + le32(y);
    lemma_parse_frame(CMDID_MAPSURFACETOOUTPUT, ms);
    assert(ms.subrange(0, 2) =~= le16(a));
    assert(ms.subrange(4, 8) =~= le32(x));
    assert(ms.subrange(8, 12) =~= le32(y));
    crate::wire::lemma_get_le16_at(ms, 0, a);
    crate::wire::lemma_get_le32_at(ms, 4, x);
    crate::wire::lemma_get_le32_at(ms, 8, y);
    let xy = le32(x) + le32(y);
    lemma_parse_frame(CMDID_STARTFRAME, xy);
    lemma_parse_frame(CMDID_RESETGRAPHICS, xy);
    assert(xy.subrange(0, 4) =~= le32(x));
    assert(xy.subrange(4, 8) =~= le32(y));
    crate::wire::lemma_get_le32_at(xy, 0, x);
    crate::wire::lemma_get_le32_at(xy, 4, y);
    lemma_parse_frame(CMDID_ENDFRAME, le32(x));
    lemma_parse_frame(CMDID_CAPSCONFIRM, le32(x));
    lemma_parse_frame(CMDID_DELETESURFACE, le16(a));
}

/// A WireToSurface1 parses to its surfaceId, codecId, pixelFormat, the
/// destination rectangle (left, top, right, bottom) and the `bitmapDataLength`
/// bytes of data that follow, all little-endian.
pub proof fn lemma_parse_wire_to_surface(sid: u16, codec: u16, fmt: u8, l: u16, t: u16, r: u16, b: u16, data: Seq<u8>)
    requires
        data.len() + 25 < 0x1_0000_0000,
    ensures
        spec_parse_command(
            spec_frame(
                CMDID_WIRETOSURFACE_1,
                le16(sid) + le16(codec) + seq![fmt] + le16(l) + le16(t) + le16(r) + le16(b) + le32(data.len() as u32)
                    + data,
            ),
        ) == Ok::<(CmdView, int), CmdError>(
            (
                CmdView::WireToSurface1 {
                    surface_id: sid,
                    codec_id: codec,
                    pixel_format: fmt,
                    dest: Rect16 { left: l, top: t, right: r, bottom: b },
                    data,
                },
                25 + data.len() as int,
            ),
        ),
{
    let n = data.len() as u32;
    let body = le16(sid) + le16(codec) + seq![fmt] + le16(l) + le16(t) + le16(r) + le16(b) + le32(n) + data;
    lemma_parse_frame(CMDID_WIRETOSURFACE_1, body);
    lemma_w2s_body(sid, codec, fmt, l, t, r, b, data);
}

proof fn lemma_w2s_body(sid: u16, codec: u16, fmt: u8, l: u16, t: u16, r: u16, b: u16, data: Seq<u8>)
    requires
        data.len() + 25 < 0x1_0000_0000,
    ensures
        ({
            let n = data.len() as u32;
            let body = le16(sid) + le16(codec) + seq![fmt] + le16(l) + le16(t) + le16(r) + le16(b) + le32(n) + data;
            &&& body.len() == 17 + data.len()
            &&& get_le16(body, 0) == sid
            &&& get_le16(body, 2) == codec
            &&& body[4] == fmt
            &&& get_le16(body, 5) == l
            &&& get_le16(body, 7) == t
            &&& get_le16(body, 9) == r
            &&& get_le16(body, 11) == b
            &&& get_le32(body, 13) == data.len()
            &&& body.subrange(17, body.len() as int).subrange(0, data.len() as int) == data
        }),
{
    let n = data.len() as u32;
    let body = le16(sid) + le16(codec) + seq![fmt] + le16(l) + le16(t) + le16(r) + le16(b) + le32(n) + data;
    crate::wire::lemma_le16(sid);
    crate::wire::lemma_le16(codec);
    crate::wire::lemma_le16(l);
    crate::wire::lemma_le16(t);
    crate::wire::lemma_le16(r);
    crate::wire::lemma_le16(b);
    crate::wire::lemma_le32(n);
    assert(body.subrange(0, 2) =~= le16(sid));
    assert(body.subrange(2, 4) =~= le16(codec));
    assert(body.subrange(5, 7) =~= le16(l));
    assert(body.subrange(7, 9) =~= le16(t));
    assert(body.subrange(9, 11) =~= le16(r));
    assert(body.subrange(11, 13) =~= le16(b));
    assert(body.subrange(13, 17) =~= le32(n));
    crate::wire::lemma_get_le16_at(body, 0, sid);
    crate::wire::lemma_get_le16_at(body, 2, codec);
    crate::wire::lemma_get_le16_at(body, 5, l);
    crate::wire::lemma_get_le16_at(body, 7, t);
    crate::wire::lemma_get_le16_at(body, 9, r);
    crate::wire::lemma_get_le16_at(body, 11, b);
    crate::wire::lemma_get_le32_at(body, 13, n);
    assert(body.subrange(17, body.len() as int).subrange(0, data.len() as int) =~= data);
}

/// The capability sets of `versions`: eight bytes each, the `i`-th holding the
/// `i`-th version then a zero capsDataLength.
proof fn lemma_caps_sets(versions: Seq<u32>)
    ensures
        caps_sets(versions).len() == 8 * versions.len(),
        forall|i: int|
            0 <= i < versions.len() ==> #[trigger] caps_sets(versions).subrange(8 * i, 8 * i + 8) == le32(versions[i])
                + le32(0),
    decreases versions.len(),
{
    if versions.len() > 0 {
        let prev = versions.drop_last();
        lemma_caps_sets(prev);
        let c = caps_sets(versions);
        assert forall|i: int| 0 <= i < versions.len() implies #[trigger] c.subrange(8 * i, 8 * i + 8) == le32(versions[i])
            + le32(0) by {
            if i < versions.len() - 1 {
                assert(c.subrange(8 * i, 8 * i + 8) =~= caps_sets(prev).subrange(8 * i, 8 * i + 8));
                assert(prev[i] == versions[i]);
            } else {
                assert(c.subrange(8 * i, 8 * i + 8) =~= le32(versions.last()) + le32(0));
            }
        }
    }
}

/// A CAPSADVERTISE is a CAPSADVERTISE PDU of `10 + 8 n` bytes whose body
/// gives the number of sets `n`, then set `i` at bytes `10 + 8 i`: version
/// `versions[i]` and capsDataLength 0.
#[verifier::rlimit(40)]
pub proof fn lemma_caps_advertise_layout(versions: Seq<u32>)
    requires
        versions.len() < 0x1_0000,
    ensures
        ({
            let r = spec_caps_advertise(versions);
            &&& r.len() == 10 + 8 * versions.len()
            &&& get_le16(r, 0) == CMDID_CAPSADVERTISE
            &&& get_le32(r, 4) == r.len()
            &&& get_le16(r, 8) == versions.len()
            &&& forall|i: int|
                #![trigger versions[i]]
                0 <= i < versions.len() ==> get_le32(r, 10 + 8 * i) == versions[i] && get_le32(r, 14 + 8 * i) == 0
        }),
{
    let n = versions.len();
    let body = le16(n as u16) + caps_sets(versions);
    lemma_caps_sets(versions);
    lemma_frame_fields(CMDID_CAPSADVERTISE, body);
    let r = spec_caps_advertise(versions);
    crate::wire::lemma_le16(n as u16);
    assert(r.subrange(8, 10) =~= le16(n as u16));
    crate::wire::lemma_get_le16_at(r, 8, n as u16);
    let c = caps_sets(versions);
    assert(r.subrange(10, r.len() as int) =~= c);
    assert forall|i: int| #![trigger versions[i]] 0 <= i < n implies get_le32(r, 10 + 8 * i) == versions[i]
        && get_le32(r, 14 + 8 * i) == 0 by {
        lemma_caps_entry(r, c, i, versions[i]);
    }
}

proof fn lemma_caps_entry(r: Seq<u8>, c: Seq<u8>, i: int, v: u32)
    requires
        0 <= i,
        8 * i + 8 <= c.len(),
        r.len() == 10 + c.len(),
        r.subrange(10, r.len() as int) == c,
        c.subrange(8 * i, 8 * i + 8) == le32(v) + le32(0),
    ensures
        get_le32(r, 10 + 8 * i) == v,
        get_le32(r, 14 + 8 * i) == 0,
{
    crate::wire::lemma_le32(v);
    crate::wire::lemma_le32(0);
    let e = c.subrange(8 * i, 8 * i + 8);
    assert forall|k: int| 0 <= k < 4 implies #[trigger] r.subrange(10 + 8 * i, 14 + 8 * i)[k] == le32(v)[k] by {
        assert(r[10 + 8 * i + k] == c[8 * i + k]);
        assert(c[8 * i + k] == e[k]);
    }
    assert(r.subrange(10 + 8 * i, 14 + 8 * i) =~= le32(v));
    assert forall|k: int| 0 <= k < 4 implies #[trigger] r.subrange(14 + 8 * i, 18 + 8 * i)[k] == le32(0)[k] by {
        assert(r[14 + 8 * i + k] == c[8 * i + 4 + k]);
        assert(c[8 * i + 4 + k] == e[4 + k]);
    }
    assert(r.subrange(14 + 8 * i, 18 + 8 * i) =~= le32(0));
    crate::wire::lemma_get_le32_at(r, 10 + 8 * i, v);
    crate::wire::lemma_get_le32_at(r, 14 + 8 * i, 0);
}

/// A FRAMEACKNOWLEDGE: queueDepth 0, frameId, totalFramesDecoded.
pub open spec fn spec_frame_acknowledge(frame_id: u32, total_frames_decoded: u32) -> Seq<u8> {
    spec_frame(CMDID_FRAMEACKNOWLEDGE, le32(0) + le32(frame_id) + le32(total_frames_decoded))
}

/// Build a FRAMEACKNOWLEDGE for `frame_id`.
pub fn frame_acknowledge(frame_id: u32, total_frames_decoded: u32) -> (r: Vec<u8>)
    ensures
        r@ == spec_frame_acknowledge(frame_id, total_frames_decoded),
{
    let mut body: Vec<u8> = Vec::new();
    put_u32_le(&mut body, 0);
    put_u32_le(&mut body, frame_id);
    put_u32_le(&mut body, total_frames_decoded);
    frame_header(CMDID_FRAMEACKNOWLEDGE, body.as_slice())
}

/// A FRAMEACKNOWLEDGE is 20 bytes: cmdId 0x000D, flags 0 and pduLength 20,
/// then queueDepth 0, the acknowledged frame's id at bytes 12..16 and the
/// count of decoded frames at bytes 16..20, each little-endian.
pub proof fn lemma_frame_acknowledge_fields(frame_id: u32, total_frames_decoded: u32)
    ensures
        ({
            let r = spec_frame_acknowledge(frame_id, total_frames_decoded);
            &&& r.len() == 20
            &&& get_le16(r, 0) == 0x000D
            &&& get_le16(r, 2) == 0
            &&& get_le32(r, 4) == 20
            &&& get_le32(r, 8) == 0
            &&& get_le32(r, 12) == frame_id
            &&& get_le32(r, 16) == total_frames_decoded
        }),
{
    let r = spec_frame_acknowledge(frame_id, total_frames_decoded);
    crate::wire::lemma_le16(CMDID_FRAMEACKNOWLEDGE);
    crate::wire::lemma_le16(0);
    crate::wire::lemma_le32(20);
    crate::wire::lemma_le32(0);
    crate::wire::lemma_le32(frame_id);
    crate::wire::lemma_le32(total_frames_decoded);
    assert(r.subrange(0, 2) =~= le16(CMDID_FRAMEACKNOWLEDGE));
    assert(r.subrange(2, 4) =~= le16(0));
    assert(r.subrange(4, 8) =~= le32(20));
    assert(r.subrange(8, 12) =~= le32(0));
    assert(r.subrange(12, 16) =~= le32(frame_id));
    assert(r.subrange(16, 20) =~= le32(total_frames_decoded));
    crate::wire::lemma_get_le16_at(r, 0, CMDID_FRAMEACKNOWLEDGE);
    crate::wire::lemma_get_le16_at(r, 2, 0);
    crate::wire::lemma_get_le32_at(r, 4, 20);
    crate::wire::lemma_get_le32_at(r, 8, 0);
    crate::wire::lemma_get_le32_at(r, 12, frame_id);
    crate::wire::lemma_get_le32_at(r, 16, total_frames_decoded);
}

/// The first `n` pixels of a 32 bpp BGRX image as opaque RGBA.
pub open spec fn bgrx_to_rgba(px: Seq<u8>, n: nat) -> Seq<u8>
    decreases n,
{
    if n == 0 {
        Seq::empty()
    } else {
        let o = (n - 1) * 4;
        bgrx_to_rgba(px, (n - 1) as nat) + seq![px[o + 2], px[o + 1], px[o], 255u8]
    }
}

/// What a wire-to-surface bitmap decodes to: RGBA, a short read (needed,
/// available), or a codec that is not decoded here.
pub enum SurfaceBits {
    Rgba(Seq<u8>),
    Short(int, int),
    Unsupported,
}

/// The RGBA of a wire-to-surface bitmap for `dest`: only UNCOMPRESSED (32 bpp
/// BGRX, top-down) is decoded.
pub open spec fn spec_surface_bits(codec_id: u16, dest: Rect16, data: Seq<u8>) -> SurfaceBits {
    let n: nat = sat_sub(dest.right, dest.left) as nat * sat_sub(dest.bottom, dest.top) as nat;
    if codec_id == CODECID_UNCOMPRESSED {
        if data.len() < n * 4 {
            SurfaceBits::Short((n * 4) as int, data.len() as int)
        } else {
            SurfaceBits::Rgba(bgrx_to_rgba(data, n))
        }
    } else {
        SurfaceBits::Unsupported
    }
}

/// Decode a wire-to-surface bitmap into RGBA. Only UNCOMPRESSED is handled
/// here; PLANAR and the H.264 codecs are refused.
pub fn decode_surface_bits(codec_id: u16, dest: &Rect16, data: &[u8]) -> (r: Result<Vec<u8>>)
    requires
        sat_sub(dest.right, dest.left) * sat_sub(dest.bottom, dest.top) * 4 <= usize::MAX,
    ensures
        match spec_surface_bits(codec_id, *dest, data@) {
            SurfaceBits::Rgba(out) => r matches Ok(v) && v@ == out,
            SurfaceBits::Short(n, h) => is_short(r, n, h),
            SurfaceBits::Unsupported => is_protocol(r),
        },
{
    let w = dest.width() as usize;
    let h = dest.height() as usize;
    if codec_id == CODECID_UNCOMPRESSED {
        assert(w * h <= 0xFFFF * 0xFFFF) by (nonlinear_arith)
            requires
                w <= 0xFFFF,
                h <= 0xFFFF,
        ;
        let n = w * h;
        if data.len() < n * 4 {
            return Err(Error::Short { need: n * 4, have: data.len() });
        }
        let mut rgba: Vec<u8> = Vec::new();
        let mut i: usize = 0;
        while i < n
            invariant
                i <= n <= 0xFFFF * 0xFFFF,
                data.len() >= n * 4,
                rgba@ == bgrx_to_rgba(data@, i as nat),
            decreases n - i,
        {
            let o = i * 4;
            rgba.push(data[o + 2]);
            rgba.push(data[o + 1]);
            rgba.push(data[o]);
            rgba.push(255);
            i = i + 1;
            assert(rgba@ =~= bgrx_to_rgba(data@, i as nat));
        }
        Ok(rgba)
    } else if codec_id == CODECID_PLANAR {
        Err(Error::Protocol("EGFX PLANAR codec decoder not yet wired"))
    } else if codec_id == CODECID_AVC420 || codec_id == CODECID_AVC444 {
        Err(Error::Protocol("EGFX H.264 codec requires an external decoder"))
    } else {
        Err(Error::Protocol("unsupported EGFX codec"))
    }
}

/// The client-side surface store: server surfaces plus their mapping to output.
pub struct SurfaceStore {
    surfaces: HashMap<u16, Framebuffer>,
    mapped: HashMap<u16, (u32, u32)>,
}

impl Default for SurfaceStore {
    fn default() -> (r: SurfaceStore)
        ensures
            r.wf(),
            r.surfaces_view() == Map::<u16, Framebuffer>::empty(),
            r.mapped_view() == Map::<u16, (u32, u32)>::empty(),
    {
        SurfaceStore::new()
    }
}

/// A surface's pixels after a wire-to-surface command of `w × h` at `(x, y)`
/// with RGBA `rgba`: the blit, clipped to the surface.
pub open spec fn surface_blitted(old: Framebuffer, new: Framebuffer, x: u16, y: u16, w: u16, h: u16, rgba: Seq<u8>) -> bool {
    &&& new.wf()
    &&& new.spec_width() == old.spec_width()
    &&& new.spec_height() == old.spec_height()
    &&& blitted(
        old.spec_pixels(),
        new.spec_pixels(),
        old.spec_width(),
        old.spec_height(),
        x as int,
        y as int,
        w as int,
        h as int,
        rgba,
    )
}

impl SurfaceStore {
    /// The surfaces by id.
    pub closed spec fn surfaces_view(&self) -> Map<u16, Framebuffer> {
        self.surfaces@
    }

    /// The output position each mapped surface is drawn at.
    pub closed spec fn mapped_view(&self) -> Map<u16, (u32, u32)> {
        self.mapped@
    }

    /// Every surface is a well-formed framebuffer.
    pub closed spec fn wf(&self) -> bool {
        forall|k: u16| #[trigger] self.surfaces@.contains_key(k) ==> self.surfaces@[k].wf()
    }

    pub fn new() -> (r: SurfaceStore)
        ensures
            r.wf(),
            r.surfaces_view() == Map::<u16, Framebuffer>::empty(),
            r.mapped_view() == Map::<u16, (u32, u32)>::empty(),
    {
        SurfaceStore { surfaces: HashMap::new(), mapped: HashMap::new() }
    }

    /// Apply a parsed command, compositing pixels into surfaces. Returns the
    /// surface id that changed, when the caller should present again.
    pub fn apply(&mut self, cmd: &GfxCommand) -> (r: Result<Option<u16>>)
        requires
            old(self).wf(),
            cmd@ matches CmdView::CreateSurface { width, height, .. } ==> width * height * 4 <= usize::MAX,
            cmd@ matches CmdView::WireToSurface1 { dest, .. } ==> sat_sub(dest.right, dest.left) * sat_sub(
                dest.bottom,
                dest.top,
            ) * 4 <= usize::MAX,
        ensures
            final(self).wf(),
            match cmd@ {
                CmdView::CreateSurface { surface_id, width, height, .. } => {
                    &&& r == Ok::<Option<u16>, Error>(None)
                    &&& final(self).mapped_view() == old(self).mapped_view()
                    &&& final(self).surfaces_view().dom() == old(self).surfaces_view().dom().insert(surface_id)
                    &&& forall|k: u16| k != surface_id && #[trigger] old(self).surfaces_view().contains_key(k)
                        ==> final(self).surfaces_view()[k] == old(self).surfaces_view()[k]
                    &&& final(self).surfaces_view()[surface_id].spec_width() == width
                    &&& final(self).surfaces_view()[surface_id].spec_height() == height
                    &&& final(self).surfaces_view()[surface_id].spec_pixels() == crate::wire::zeros(width as nat * height as nat * 4)
                },
                CmdView::DeleteSurface { surface_id } => {
                    &&& r == Ok::<Option<u16>, Error>(None)
                    &&& final(self).surfaces_view() == old(self).surfaces_view().remove(surface_id)
                    &&& final(self).mapped_view() == old(self).mapped_view().remove(surface_id)
                },
                CmdView::MapSurfaceToOutput { surface_id, x, y } => {
                    &&& r == Ok::<Option<u16>, Error>(None)
                    &&& final(self).surfaces_view() == old(self).surfaces_view()
                    &&& final(self).mapped_view() == old(self).mapped_view().insert(surface_id, (x, y))
                },
                CmdView::WireToSurface1 { surface_id, codec_id, dest, data, .. } => {
                    &&& final(self).mapped_view() == old(self).mapped_view()
                    &&& if !old(self).surfaces_view().contains_key(surface_id) {
                        is_protocol(r) && final(self).surfaces_view() == old(self).surfaces_view()
                    } else {
                        match spec_surface_bits(codec_id, dest, data) {
                            SurfaceBits::Rgba(rgba) => {
                                &&& r == Ok::<Option<u16>, Error>(Some(surface_id))
                                &&& final(self).surfaces_view().dom() == old(self).surfaces_view().dom()
                                &&& forall|k: u16| k != surface_id && #[trigger] old(self).surfaces_view().contains_key(k)
                                    ==> final(self).surfaces_view()[k] == old(self).surfaces_view()[k]
                                &&& surface_blitted(
                                    old(self).surfaces_view()[surface_id],
                                    final(self).surfaces_view()[surface_id],
                                    dest.left,
                                    dest.top,
                                    sat_sub(dest.right, dest.left),
                                    sat_sub(dest.bottom, dest.top),
                                    rgba,
                                )
                            },
                            SurfaceBits::Short(n, h) => is_short(r, n, h) && final(self).surfaces_view()
                                == old(self).surfaces_view(),
                            SurfaceBits::Unsupported => is_protocol(r) && final(self).surfaces_view()
                                == old(self).surfaces_view(),
                        }
                    }
                },
                _ => r == Ok::<Option<u16>, Error>(None) && final(self).surfaces_view() == old(self).surfaces_view()
                    && final(self).mapped_view() == old(self).mapped_view(),
            },
    {
        broadcast use vstd::std_specs::hash::group_hash_axioms;
        match cmd {
            GfxCommand::CreateSurface { surface_id, width, height, .. } => {
                let fb = Framebuffer::new(*width as usize, *height as usize);
                self.surfaces.insert(*surface_id, fb);
                Ok(None)
            },
            GfxCommand::DeleteSurface { surface_id } => {
                self.surfaces.remove(surface_id);
                self.mapped.remove(surface_id);
                Ok(None)
            },
            GfxCommand::MapSurfaceToOutput { surface_id, x, y } => {
                self.mapped.insert(*surface_id, (*x, *y));
                Ok(None)
            },
            GfxCommand::WireToSurface1 { surface_id, codec_id, dest, data, .. } => {
                let mut fb = match self.surfaces.remove(surface_id) {
                    Some(fb) => fb,
                    None => {
                        proof {
                            assert(self.surfaces@ =~= old(self).surfaces@);
                        }
                        return Err(Error::Protocol("unknown surface"));
                    },
                };
                let ghost old_fb = fb;
                assert(old(self).surfaces@.contains_key(*surface_id));
                let rgba = match decode_surface_bits(*codec_id, dest, data.as_slice()) {
                    Ok(v) => v,
                    Err(e) => {
                        self.surfaces.insert(*surface_id, fb);
                        proof {
                            assert(self.surfaces@ =~= old(self).surfaces@);
                            assert(self.wf());
                        }
                        return Err(e);
                    },
                };
                let w = dest.width();
                let h = dest.height();
                proof {
                    lemma_bgrx_len(data@, (w as nat * h as nat) as nat);
                }
                fb.blit_rgba(dest.left as usize, dest.top as usize, w as usize, h as usize, rgba.as_slice());
                self.surfaces.insert(*surface_id, fb);
                proof {
                    assert(self.surfaces@.dom() =~= old(self).surfaces@.dom());
                }
                Ok(Some(*surface_id))
            },
            _ => Ok(None),
        }
    }

    /// The surface `id`, if it exists.
    pub fn surface(&self, id: u16) -> (r: Option<&Framebuffer>)
        ensures
            match r {
                Some(fb) => self.surfaces_view().contains_key(id) && *fb == self.surfaces_view()[id],
                None => !self.surfaces_view().contains_key(id),
            },
    {
        broadcast use vstd::std_specs::hash::group_hash_axioms;
        self.surfaces.get(&id)
    }

    /// The output position surface `id` is mapped to, if it is mapped.
    pub fn mapping(&self, id: u16) -> (r: Option<(u32, u32)>)
        ensures
            match r {
                Some(p) => self.mapped_view().contains_key(id) && p == self.mapped_view()[id],
                None => !self.mapped_view().contains_key(id),
            },
    {
        broadcast use vstd::std_specs::hash::group_hash_axioms;
        match self.mapped.get(&id) {
            Some(p) => Some(*p),
            None => None,
        }
    }
}

proof fn lemma_bgrx_len(px: Seq<u8>, n: nat)
    ensures
        bgrx_to_rgba(px, n).len() == n * 4,
    decreases n,
{
    if n > 0 {
        lemma_bgrx_len(px, (n - 1) as nat);
    }
}

} // verus!
