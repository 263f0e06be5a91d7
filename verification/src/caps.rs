//! Capability sets and the Confirm Active PDU. The server sends a Demand
//! Active PDU advertising its capabilities; the client replies with a Confirm
//! Active PDU carrying its own. Little-endian.

use vstd::prelude::*;
use crate::pdu::{share_control, spec_share_control, PDUTYPE_CONFIRMACTIVE};
use crate::wire::{
    concat, concat_all, get_le16, get_le32, le16, le32, len16, len16_of, put_bytes, put_u16_le,
    put_u32_le, put_u8, put_zeros, read_u16_le, read_u32_le, slice_range, to_vec, views, zeros,
};
use crate::{is_protocol, is_short, Error, Result};

verus! {

pub const CAPSTYPE_GENERAL: u16 = 1;
pub const CAPSTYPE_BITMAP: u16 = 2;
pub const CAPSTYPE_ORDER: u16 = 3;
pub const CAPSTYPE_BITMAPCACHE: u16 = 4;
pub const CAPSTYPE_CONTROL: u16 = 5;
pub const CAPSTYPE_ACTIVATION: u16 = 7;
pub const CAPSTYPE_POINTER: u16 = 8;
pub const CAPSTYPE_SHARE: u16 = 9;
pub const CAPSTYPE_COLORCACHE: u16 = 10;
pub const CAPSTYPE_SOUND: u16 = 12;
pub const CAPSTYPE_INPUT: u16 = 13;
pub const CAPSTYPE_FONT: u16 = 14;
pub const CAPSTYPE_BRUSH: u16 = 15;
pub const CAPSTYPE_GLYPHCACHE: u16 = 16;
pub const CAPSTYPE_OFFSCREENCACHE: u16 = 17;
pub const CAPSTYPE_BITMAPCACHE_REV2: u16 = 19;
pub const CAPSTYPE_VIRTUALCHANNEL: u16 = 20;
pub const CAPSETTYPE_MULTIFRAGMENTUPDATE: u16 = 26;
pub const CAPSETTYPE_LARGE_POINTER: u16 = 27;
pub const CAPSETTYPE_SURFACE_COMMANDS: u16 = 28;
pub const CAPSETTYPE_BITMAP_CODECS: u16 = 29;
pub const CAPSETTYPE_FRAME_ACKNOWLEDGE: u16 = 30;

/// One capability set: type, total length (including the 4-byte header), data.
pub open spec fn spec_capability_set(cap_type: u16, data: Seq<u8>) -> Seq<u8> {
    le16(cap_type) + le16(len16(data.len(), 4)) + data
}

/// Frame one capability set.
pub fn capability_set(cap_type: u16, data: &[u8]) -> (r: Vec<u8>)
    ensures
        r@ == spec_capability_set(cap_type, data@),
{
    let mut out: Vec<u8> = Vec::new();
    put_u16_le(&mut out, cap_type);
    put_u16_le(&mut out, len16_of(data.len(), 4));
    put_bytes(&mut out, data);
    out
}

/// TS_CONTROL_CAPABILITYSET (control and detach interest: never).
pub fn control_caps() -> (r: Vec<u8>)
    ensures
        r@ == spec_capability_set(CAPSTYPE_CONTROL, le16(0) + le16(0) + le16(2) + le16(2)),
{
    let mut d: Vec<u8> = Vec::new();
    put_u16_le(&mut d, 0);
    put_u16_le(&mut d, 0);
    put_u16_le(&mut d, 2);
    put_u16_le(&mut d, 2);
    capability_set(CAPSTYPE_CONTROL, d.as_slice())
}

/// TS_WINDOWACTIVATION_CAPABILITYSET — all flags off.
pub fn activation_caps() -> (r: Vec<u8>)
    ensures
        r@ == spec_capability_set(CAPSTYPE_ACTIVATION, zeros(8)),
{
    let mut d: Vec<u8> = Vec::new();
    put_zeros(&mut d, 8);
    capability_set(CAPSTYPE_ACTIVATION, d.as_slice())
}

/// TS_COLORTABLE_CACHE_CAPABILITYSET.
pub fn color_cache_caps() -> (r: Vec<u8>)
    ensures
        r@ == spec_capability_set(CAPSTYPE_COLORCACHE, le16(6) + le16(0)),
{
    let mut d: Vec<u8> = Vec::new();
    put_u16_le(&mut d, 6);
    put_u16_le(&mut d, 0);
    capability_set(CAPSTYPE_COLORCACHE, d.as_slice())
}

/// TS_SOUND_CAPABILITYSET (SOUND_BEEPS_FLAG).
pub fn sound_caps() -> (r: Vec<u8>)
    ensures
        r@ == spec_capability_set(CAPSTYPE_SOUND, le16(1) + le16(0)),
{
    let mut d: Vec<u8> = Vec::new();
    put_u16_le(&mut d, 1);
    put_u16_le(&mut d, 0);
    capability_set(CAPSTYPE_SOUND, d.as_slice())
}

/// TS_FONT_CAPABILITYSET (FONTSUPPORT_FONTLIST).
pub fn font_caps() -> (r: Vec<u8>)
    ensures
        r@ == spec_capability_set(CAPSTYPE_FONT, le16(1) + le16(0)),
{
    let mut d: Vec<u8> = Vec::new();
    put_u16_le(&mut d, 0x0001);
    put_u16_le(&mut d, 0);
    capability_set(CAPSTYPE_FONT, d.as_slice())
}

/// TS_BRUSH_CAPABILITYSET (BRUSH_COLOR_FULL).
pub fn brush_caps() -> (r: Vec<u8>)
    ensures
        r@ == spec_capability_set(CAPSTYPE_BRUSH, le32(2)),
{
    let mut d: Vec<u8> = Vec::new();
    put_u32_le(&mut d, 2);
    capability_set(CAPSTYPE_BRUSH, d.as_slice())
}

/// The ten glyph cache definitions (cacheEntries, cacheMaximumCellSize).
pub open spec fn glyph_cache_definitions() -> Seq<u8> {
    le16(254) + le16(4) + le16(254) + le16(4) + le16(254) + le16(8) + le16(254) + le16(8) + le16(254)
        + le16(16) + le16(254) + le16(32) + le16(254) + le16(64) + le16(254) + le16(128) + le16(254)
        + le16(256) + le16(254) + le16(256)
}

/// TS_GLYPHCACHE_CAPABILITYSET — support level NONE (the server uses bitmaps).
pub fn glyph_cache_caps() -> (r: Vec<u8>)
    ensures
        r@ == spec_capability_set(
            CAPSTYPE_GLYPHCACHE,
            glyph_cache_definitions() + le32(0x0100_0100) + le16(0) + le16(0),
        ),
{
    let mut d: Vec<u8> = Vec::new();
    put_u16_le(&mut d, 254);
    put_u16_le(&mut d, 4);
    put_u16_le(&mut d, 254);
    put_u16_le(&mut d, 4);
    put_u16_le(&mut d, 254);
    put_u16_le(&mut d, 8);
    put_u16_le(&mut d, 254);
    put_u16_le(&mut d, 8);
    put_u16_le(&mut d, 254);
    put_u16_le(&mut d, 16);
    put_u16_le(&mut d, 254);
    put_u16_le(&mut d, 32);
    put_u16_le(&mut d, 254);
    put_u16_le(&mut d, 64);
    put_u16_le(&mut d, 254);
    put_u16_le(&mut d, 128);
    put_u16_le(&mut d, 254);
    put_u16_le(&mut d, 256);
    put_u16_le(&mut d, 254);
    put_u16_le(&mut d, 256);
    put_u32_le(&mut d, 0x0100_0100);
    put_u16_le(&mut d, 0);
    put_u16_le(&mut d, 0);
    proof {
        assert(d@ =~= glyph_cache_definitions() + le32(0x0100_0100) + le16(0) + le16(0));
    }
    capability_set(CAPSTYPE_GLYPHCACHE, d.as_slice())
}

/// TS_OFFSCREEN_CAPABILITYSET — offscreen caching disabled.
pub fn offscreen_caps() -> (r: Vec<u8>)
    ensures
        r@ == spec_capability_set(CAPSTYPE_OFFSCREENCACHE, le32(0) + le16(0) + le16(0)),
{
    let mut d: Vec<u8> = Vec::new();
    put_u32_le(&mut d, 0);
    put_u16_le(&mut d, 0);
    put_u16_le(&mut d, 0);
    capability_set(CAPSTYPE_OFFSCREENCACHE, d.as_slice())
}

/// The TS_BITMAPCACHE_CAPABILITYSET_REV2 body a modern client sends.
pub open spec fn bitmap_cache_rev2_body() -> Seq<u8> {
    seq![
        0x02u8, 0x00, 0x00, 0x05, 0x58, 0x02, 0x00, 0x00, 0x58, 0x02, 0x00, 0x00, 0x00, 0x08, 0x00,
        0x00, 0x00, 0x10, 0x00, 0x00, 0x00, 0x08, 0x00, 0x00, 0x00, 0x00, 0x00, 0x00, 0x00, 0x00,
        0x00, 0x00, 0x00, 0x00, 0x00, 0x00,
    ]
}

/// TS_BITMAPCACHE_CAPABILITYSET_REV2 (the server rejects the legacy rev1 cache
/// capability on RDP 8+ sessions).
pub fn bitmap_cache_rev2_caps() -> (r: Vec<u8>)
    ensures
        r@ == spec_capability_set(CAPSTYPE_BITMAPCACHE_REV2, bitmap_cache_rev2_body()),
{
    let body: [u8; 36] = [
        0x02, 0x00, 0x00, 0x05, 0x58, 0x02, 0x00, 0x00, 0x58, 0x02, 0x00, 0x00, 0x00, 0x08, 0x00,
        0x00, 0x00, 0x10, 0x00, 0x00, 0x00, 0x08, 0x00, 0x00, 0x00, 0x00, 0x00, 0x00, 0x00, 0x00,
        0x00, 0x00, 0x00, 0x00, 0x00, 0x00,
    ];
    proof {
        assert(body@ =~= bitmap_cache_rev2_body());
    }
    capability_set(CAPSTYPE_BITMAPCACHE_REV2, &body)
}

/// TS_BITMAPCODECS_CAPABILITYSET with an empty codec list.
pub fn bitmap_codecs_caps() -> (r: Vec<u8>)
    ensures
        r@ == spec_capability_set(CAPSETTYPE_BITMAP_CODECS, seq![0x00u8]),
{
    let mut d: Vec<u8> = Vec::new();
    put_u8(&mut d, 0);
    capability_set(CAPSETTYPE_BITMAP_CODECS, d.as_slice())
}

/// TS_MULTIFRAGMENTUPDATE_CAPABILITYSET.
pub fn multifragment_caps() -> (r: Vec<u8>)
    ensures
        r@ == spec_capability_set(CAPSETTYPE_MULTIFRAGMENTUPDATE, le32(0x0009_482b)),
{
    let mut d: Vec<u8> = Vec::new();
    put_u32_le(&mut d, 0x0009_482b);
    capability_set(CAPSETTYPE_MULTIFRAGMENTUPDATE, d.as_slice())
}

/// TS_LARGE_POINTER_CAPABILITYSET (96x96 and 384x384).
pub fn large_pointer_caps() -> (r: Vec<u8>)
    ensures
        r@ == spec_capability_set(CAPSETTYPE_LARGE_POINTER, le16(0x0003)),
{
    let mut d: Vec<u8> = Vec::new();
    put_u16_le(&mut d, 0x0003);
    capability_set(CAPSETTYPE_LARGE_POINTER, d.as_slice())
}

/// TS_SURFCMDS_CAPABILITYSET (set-surface-bits, frame marker, stream-surface-bits).
pub fn surface_commands_caps() -> (r: Vec<u8>)
    ensures
        r@ == spec_capability_set(CAPSETTYPE_SURFACE_COMMANDS, le32(0x52) + le32(0)),
{
    let mut d: Vec<u8> = Vec::new();
    put_u32_le(&mut d, 0x52);
    put_u32_le(&mut d, 0);
    capability_set(CAPSETTYPE_SURFACE_COMMANDS, d.as_slice())
}

/// TS_FRAME_ACKNOWLEDGE_CAPABILITYSET — at most two unacknowledged frames.
pub fn frame_acknowledge_caps() -> (r: Vec<u8>)
    ensures
        r@ == spec_capability_set(CAPSETTYPE_FRAME_ACKNOWLEDGE, le32(2)),
{
    let mut d: Vec<u8> = Vec::new();
    put_u32_le(&mut d, 2);
    capability_set(CAPSETTYPE_FRAME_ACKNOWLEDGE, d.as_slice())
}

/// The TS_GENERAL_CAPABILITYSET body.
pub open spec fn general_body() -> Seq<u8> {
    le16(4) + le16(7) + le16(0x0200) + le16(0) + le16(0) + le16(0x041d) + le16(0) + le16(0) + le16(0)
        + seq![1u8, 1u8]
}

/// TS_GENERAL_CAPABILITYSET (fast-path output, long credentials, auto-reconnect).
pub fn general_caps() -> (r: Vec<u8>)
    ensures
        r@ == spec_capability_set(CAPSTYPE_GENERAL, general_body()),
{
    let mut d: Vec<u8> = Vec::new();
    put_u16_le(&mut d, 4);
    put_u16_le(&mut d, 7);
    put_u16_le(&mut d, 0x0200);
    put_u16_le(&mut d, 0);
    put_u16_le(&mut d, 0);
    put_u16_le(&mut d, 0x041d);
    put_u16_le(&mut d, 0);
    put_u16_le(&mut d, 0);
    put_u16_le(&mut d, 0);
    put_u8(&mut d, 1);
    put_u8(&mut d, 1);
    proof {
        assert(d@ =~= general_body());
    }
    capability_set(CAPSTYPE_GENERAL, d.as_slice())
}

/// The TS_BITMAP_CAPABILITYSET body for a `width` x `height` desktop at 32 bpp.
pub open spec fn bitmap_body(width: u16, height: u16) -> Seq<u8> {
    le16(32) + le16(1) + le16(1) + le16(1) + le16(width) + le16(height) + le16(0) + le16(1) + le16(1)
        + seq![0u8, 0x0au8] + le16(1) + le16(0)
}

/// TS_BITMAP_CAPABILITYSET.
pub fn bitmap_caps(width: u16, height: u16) -> (r: Vec<u8>)
    ensures
        r@ == spec_capability_set(CAPSTYPE_BITMAP, bitmap_body(width, height)),
{
    let mut d: Vec<u8> = Vec::new();
    put_u16_le(&mut d, 32);
    put_u16_le(&mut d, 1);
    put_u16_le(&mut d, 1);
    put_u16_le(&mut d, 1);
    put_u16_le(&mut d, width);
    put_u16_le(&mut d, height);
    put_u16_le(&mut d, 0);
    put_u16_le(&mut d, 1);
    put_u16_le(&mut d, 1);
    put_u8(&mut d, 0);
    put_u8(&mut d, 0x0a);
    put_u16_le(&mut d, 1);
    put_u16_le(&mut d, 0);
    proof {
        assert(d@ =~= bitmap_body(width, height));
    }
    capability_set(CAPSTYPE_BITMAP, d.as_slice())
}

/// TS_POINTER_CAPABILITYSET.
pub fn pointer_caps() -> (r: Vec<u8>)
    ensures
        r@ == spec_capability_set(CAPSTYPE_POINTER, le16(1) + le16(25) + le16(25)),
{
    let mut d: Vec<u8> = Vec::new();
    put_u16_le(&mut d, 1);
    put_u16_le(&mut d, 25);
    put_u16_le(&mut d, 25);
    capability_set(CAPSTYPE_POINTER, d.as_slice())
}

/// The TS_INPUT_CAPABILITYSET body.
pub open spec fn input_body(keyboard_layout: u32) -> Seq<u8> {
    le16(0x032d) + le16(0) + le32(keyboard_layout) + le32(4) + le32(0) + le32(12) + zeros(64)
}

/// TS_INPUT_CAPABILITYSET (scancodes, mouse-x, fast-path input, h-wheel, QoE).
pub fn input_caps(keyboard_layout: u32) -> (r: Vec<u8>)
    ensures
        r@ == spec_capability_set(CAPSTYPE_INPUT, input_body(keyboard_layout)),
{
    let mut d: Vec<u8> = Vec::new();
    put_u16_le(&mut d, 0x032d);
    put_u16_le(&mut d, 0);
    put_u32_le(&mut d, keyboard_layout);
    put_u32_le(&mut d, 4);
    put_u32_le(&mut d, 0);
    put_u32_le(&mut d, 12);
    put_zeros(&mut d, 64);
    proof {
        assert(d@ =~= input_body(keyboard_layout));
    }
    capability_set(CAPSTYPE_INPUT, d.as_slice())
}

/// The TS_ORDER_CAPABILITYSET body a normal client sends.
pub open spec fn order_body() -> Seq<u8> {
    zeros(20) + seq![0x01u8, 0x00, 0x14, 0x00, 0x00, 0x00, 0x01, 0x00, 0x00, 0x00, 0xaa, 0x00] + seq![
        0x01u8, 0x01, 0x01, 0x00, 0x00, 0x00, 0x00, 0x01, 0x00, 0x00, 0x00, 0x00, 0x00, 0x00, 0x00,
        0x00, 0x01, 0x00, 0x00, 0x00, 0x01, 0x00, 0x00, 0x00, 0x00, 0x00, 0x00, 0x00, 0x00, 0x00,
        0x00, 0x00,
    ] + seq![
        0x04u8, 0x00, 0x00, 0x00, 0x00, 0x00, 0x00, 0x00, 0x00, 0x84, 0x03, 0x00, 0x00, 0x00, 0x00,
        0x00, 0xe9, 0xfd, 0x00, 0x00,
    ]
}

/// TS_ORDER_CAPABILITYSET with the standard primary-order support array.
pub fn order_caps() -> (r: Vec<u8>)
    ensures
        r@ == spec_capability_set(CAPSTYPE_ORDER, order_body()),
{
    let body: [u8; 84] = [
        0, 0, 0, 0, 0, 0, 0, 0, 0, 0, 0, 0, 0, 0, 0, 0, 0, 0, 0, 0, 0x01, 0x00, 0x14, 0x00, 0x00,
        0x00, 0x01, 0x00, 0x00, 0x00, 0xaa, 0x00, 0x01, 0x01, 0x01, 0x00, 0x00, 0x00, 0x00, 0x01,
        0x00, 0x00, 0x00, 0x00, 0x00, 0x00, 0x00, 0x00, 0x01, 0x00, 0x00, 0x00, 0x01, 0x00, 0x00,
        0x00, 0x00, 0x00, 0x00, 0x00, 0x00, 0x00, 0x00, 0x00, 0x04, 0x00, 0x00, 0x00, 0x00, 0x00,
        0x00, 0x00, 0x00, 0x84, 0x03, 0x00, 0x00, 0x00, 0x00, 0x00, 0xe9, 0xfd, 0x00, 0x00,
    ];
    proof {
        assert(body@ =~= order_body());
    }
    capability_set(CAPSTYPE_ORDER, &body)
}

/// TS_VIRTUALCHANNEL_CAPABILITYSET (no compression, 1600-byte chunks).
pub fn virtual_channel_caps() -> (r: Vec<u8>)
    ensures
        r@ == spec_capability_set(CAPSTYPE_VIRTUALCHANNEL, le32(0) + le32(1600)),
{
    let mut d: Vec<u8> = Vec::new();
    put_u32_le(&mut d, 0);
    put_u32_le(&mut d, 1600);
    capability_set(CAPSTYPE_VIRTUALCHANNEL, d.as_slice())
}

/// TS_SHARE_CAPABILITYSET.
pub fn share_caps() -> (r: Vec<u8>)
    ensures
        r@ == spec_capability_set(CAPSTYPE_SHARE, le16(0) + le16(0)),
{
    let mut d: Vec<u8> = Vec::new();
    put_u16_le(&mut d, 0);
    put_u16_le(&mut d, 0);
    capability_set(CAPSTYPE_SHARE, d.as_slice())
}

/// `"MSTSC\0"`.
pub open spec fn source_descriptor() -> Seq<u8> {
    seq![0x4du8, 0x53, 0x54, 0x53, 0x43, 0x00]
}

/// The Confirm Active PDU body advertising `sets`.
pub open spec fn spec_confirm_active_body(share_id: u32, sets: Seq<Seq<u8>>) -> Seq<u8> {
    let combined = concat(sets);
    le32(share_id) + le16(0x03EA) + le16(6) + le16(len16(combined.len(), 4)) + source_descriptor() + le16(
        len16(sets.len(), 0),
    ) + le16(0) + combined
}

/// Build a Confirm Active PDU advertising `capability_sets`.
pub fn confirm_active(pdu_source: u16, share_id: u32, capability_sets: &[Vec<u8>]) -> (r: Vec<u8>)
    ensures
        r@ == spec_share_control(
            PDUTYPE_CONFIRMACTIVE,
            pdu_source,
            spec_confirm_active_body(share_id, views(capability_sets@)),
        ),
{
    let source: [u8; 6] = [0x4d, 0x53, 0x54, 0x53, 0x43, 0x00];
    proof {
        assert(source@ =~= source_descriptor());
    }
    let combined = concat_all(capability_sets);
    let mut body: Vec<u8> = Vec::new();
    put_u32_le(&mut body, share_id);
    put_u16_le(&mut body, 0x03EA);
    put_u16_le(&mut body, 6);
    put_u16_le(&mut body, len16_of(combined.len(), 4));
    put_bytes(&mut body, &source);
    put_u16_le(&mut body, len16_of(capability_sets.len(), 0));
    put_u16_le(&mut body, 0);
    put_bytes(&mut body, combined.as_slice());
    proof {
        assert(body@ =~= spec_confirm_active_body(share_id, views(capability_sets@)));
    }
    share_control(PDUTYPE_CONFIRMACTIVE, pdu_source, body.as_slice())
}

/// Parsed Demand Active header info the client needs to reply.
#[derive(Clone, Debug, PartialEq, Eq)]
pub struct DemandActive {
    pub share_id: u32,
    pub capability_sets: Vec<(u16, Vec<u8>)>,
}

/// The (type, data) pairs held by a vector of capability sets.
pub open spec fn cap_views(v: Seq<(u16, Vec<u8>)>) -> Seq<(u16, Seq<u8>)> {
    Seq::new(v.len(), |i: int| (v[i].0, v[i].1@))
}

impl View for DemandActive {
    type V = (u32, Seq<(u16, Seq<u8>)>);

    open spec fn view(&self) -> Self::V {
        (self.share_id, cap_views(self.capability_sets@))
    }
}

/// `n` capability sets at the front of `s`.
pub open spec fn spec_parse_caps(s: Seq<u8>, n: nat) -> Option<Seq<(u16, Seq<u8>)>>
    decreases n,
{
    if n == 0 {
        Some(Seq::empty())
    } else if s.len() < 4 {
        None
    } else {
        let len = get_le16(s, 2) as int;
        if len < 4 || s.len() - 4 < len - 4 {
            None
        } else {
            match spec_parse_caps(s.subrange(len, s.len() as int), (n - 1) as nat) {
                None => None,
                Some(rest) => Some(seq![(get_le16(s, 0), s.subrange(4, len))] + rest),
            }
        }
    }
}

/// Where parsing `n` capability sets from `s` fails: `Some(Some((need, have)))`
/// when a set header is cut off (a Short error), `Some(None)` when a set's
/// length is below 4 or runs past the end (a Protocol error), `None` when
/// every set parses.
pub open spec fn spec_caps_fault(s: Seq<u8>, n: nat) -> Option<Option<(int, int)>>
    decreases n,
{
    if n == 0 {
        None
    } else if s.len() < 4 {
        Some(Some((4, s.len() as int)))
    } else {
        let len = get_le16(s, 2) as int;
        if len < 4 || s.len() - 4 < len - 4 {
            Some(None)
        } else {
            spec_caps_fault(s.subrange(len, s.len() as int), (n - 1) as nat)
        }
    }
}

/// The Demand Active body's share id and capability sets, if well-formed.
pub open spec fn spec_parse_demand_active(body: Seq<u8>) -> Option<(u32, Seq<(u16, Seq<u8>)>)> {
    if body.len() < 8 {
        None
    } else {
        let len_source = get_le16(body, 4) as int;
        if body.len() - 8 < len_source + 4 {
            None
        } else {
            let caps = body.subrange(8 + len_source, body.len() as int);
            match spec_parse_caps(caps.subrange(4, caps.len() as int), get_le16(caps, 0) as nat) {
                None => None,
                Some(sets) => Some((get_le32(body, 0), sets)),
            }
        }
    }
}

/// `prefix` placed before the sets a parse gives, if it gives any.
pub open spec fn prepend(prefix: Seq<(u16, Seq<u8>)>, o: Option<Seq<(u16, Seq<u8>)>>) -> Option<Seq<(u16, Seq<u8>)>> {
    match o {
        Some(rest) => Some(prefix + rest),
        None => None,
    }
}

/// Parse a Demand Active PDU body (after the share control header).
pub fn parse_demand_active(body: &[u8]) -> (r: Result<DemandActive>)
    ensures
        r matches Ok(v) ==> spec_parse_demand_active(body@) == Some(v@),
        r is Err <==> spec_parse_demand_active(body@) is None,
        body.len() < 8 ==> is_short(r, 8, body.len() as int),
        body.len() >= 8 && body.len() - 8 < get_le16(body@, 4) + 4 ==> is_short(
            r,
            get_le16(body@, 4) + 4,
            body.len() - 8,
        ),
        body.len() >= 8 && body.len() - 8 >= get_le16(body@, 4) + 4 ==> ({
            let caps = body@.subrange(8 + get_le16(body@, 4), body.len() as int);
            match spec_caps_fault(caps.subrange(4, caps.len() as int), get_le16(caps, 0) as nat) {
                Some(Some((need, have))) => is_short(r, need, have),
                Some(None) => is_protocol(r),
                None => r is Ok,
            }
        }),
{
    if body.len() < 8 {
        return Err(Error::Short { need: 8, have: body.len() });
    }
    let share_id = read_u32_le(body, 0);
    let len_source = read_u16_le(body, 4) as usize;
    let b = slice_range(body, 8, body.len());
    if b.len() < len_source + 4 {
        return Err(Error::Short { need: len_source + 4, have: b.len() });
    }
    let caps = slice_range(b, len_source, b.len());
    proof {
        assert(caps@ =~= body@.subrange(8 + len_source, body.len() as int));
    }
    let number_caps = read_u16_le(caps, 0) as usize;
    let mut b = slice_range(caps, 4, caps.len());
    let ghost start = b@;
    assert(spec_parse_caps(start, number_caps as nat) == prepend(
        cap_views(Seq::<(u16, Vec<u8>)>::empty()),
        spec_parse_caps(start, number_caps as nat),
    )) by {
        assert(cap_views(Seq::<(u16, Vec<u8>)>::empty()) =~= Seq::empty());
        if let Some(x) = spec_parse_caps(start, number_caps as nat) {
            assert(Seq::<(u16, Seq<u8>)>::empty() + x =~= x);
        }
    }
    let mut capability_sets: Vec<(u16, Vec<u8>)> = Vec::new();
    let mut i: usize = 0;
    while i < number_caps
        invariant
            i <= number_caps,
            body.len() >= 8,
            caps@.len() >= 4,
            share_id == get_le32(body@, 0),
            spec_parse_demand_active(body@) == (match spec_parse_caps(start, number_caps as nat) {
                Some(sets) => Some((share_id, sets)),
                None => None,
            }),
            number_caps == get_le16(caps@, 0),
            start == caps@.subrange(4, caps@.len() as int),
            caps@ == body@.subrange(8 + get_le16(body@, 4), body.len() as int),
            spec_caps_fault(start, number_caps as nat) == spec_caps_fault(b@, (number_caps - i) as nat),
            body.len() - 8 >= get_le16(body@, 4) + 4,
            spec_parse_caps(start, number_caps as nat) == prepend(
                cap_views(capability_sets@),
                spec_parse_caps(b@, (number_caps - i) as nat),
            ),
        decreases number_caps - i,
    {
        if b.len() < 4 {
            return Err(Error::Short { need: 4, have: b.len() });
        }
        let cap_type = read_u16_le(b, 0);
        let cap_len = read_u16_le(b, 2) as usize;
        if cap_len < 4 || b.len() - 4 < cap_len - 4 {
            return Err(Error::Protocol("bad capability set length"));
        }
        let data = to_vec(slice_range(b, 4, cap_len));
        let ghost prev = capability_sets@;
        capability_sets.push((cap_type, data));
        proof {
            let o = spec_parse_caps(b@.subrange(cap_len as int, b@.len() as int), (number_caps - i - 1) as nat);
            assert(cap_views(capability_sets@) =~= cap_views(prev) + seq![(cap_type, b@.subrange(4, cap_len as int))]);
            if let Some(rest) = o {
                assert(cap_views(prev) + (seq![(cap_type, b@.subrange(4, cap_len as int))] + rest)
                    =~= cap_views(capability_sets@) + rest);
            }
        }
        b = slice_range(b, cap_len, b.len());
        i = i + 1;
    }
    proof {
        assert(cap_views(capability_sets@) + Seq::empty() =~= cap_views(capability_sets@));
    }
    Ok(DemandActive { share_id, capability_sets })
}

/// The offset in `s` at which the `i`-th of `n` capability sets starts: the
/// first at 0, each next one `lengthCapability` bytes after the previous one.
pub open spec fn cap_offset(s: Seq<u8>, n: nat, i: nat) -> int
    decreases n,
{
    if n == 0 || i == 0 || s.len() < 4 {
        0
    } else {
        let len = get_le16(s, 2) as int;
        if len < 4 || s.len() < len {
            0
        } else {
            len + cap_offset(s.subrange(len, s.len() as int), (n - 1) as nat, (i - 1) as nat)
        }
    }
}

/// The capability set `set` is the one whose header stands at offset `o` of
/// `s`: its type is capabilitySetType there, and its data the
/// `lengthCapability - 4` bytes after the header.
pub open spec fn cap_at(s: Seq<u8>, o: int, set: (u16, Seq<u8>)) -> bool {
    let t = s.subrange(o, s.len() as int);
    let len = get_le16(t, 2) as int;
    &&& 0 <= o && o + 4 <= s.len()
    &&& 4 <= len <= t.len()
    &&& set == (get_le16(t, 0), t.subrange(4, len))
}

/// Reading `n` capability sets gives exactly `n`, in wire order: the `i`-th is
/// the one at offset `cap_offset(s, n, i)`.
pub proof fn lemma_parse_caps_sets(s: Seq<u8>, n: nat, i: nat)
    ensures
        spec_parse_caps(s, n) matches Some(sets) ==> {
            &&& sets.len() == n
            &&& i < n ==> cap_at(s, cap_offset(s, n, i), sets[i as int])
        },
    decreases n,
{
    if n > 0 && s.len() >= 4 {
        let len = get_le16(s, 2) as int;
        if len >= 4 && s.len() - 4 >= len - 4 {
            let t = s.subrange(len, s.len() as int);
            lemma_parse_caps_sets(t, (n - 1) as nat, (i - 1) as nat);
            if let Some(rest) = spec_parse_caps(t, (n - 1) as nat) {
                let sets = seq![(get_le16(s, 0), s.subrange(4, len))] + rest;
                assert(spec_parse_caps(s, n) == Some(sets));
                if i == 0 {
                    assert(s.subrange(0, s.len() as int) =~= s);
                } else if i < n {
                    let o2 = cap_offset(t, (n - 1) as nat, (i - 1) as nat);
                    assert(sets[i as int] == rest[i - 1]);
                    assert(t.subrange(o2, t.len() as int) =~= s.subrange(len + o2, s.len() as int));
                }
            }
        }
    }
}

/// A Demand Active gives the share id in its first four bytes and exactly
/// numberCapabilities capability sets, in wire order: the `i`-th is the one
/// at offset `cap_offset(..)` of the capability area after the source
/// descriptor and the four-byte count header.
pub proof fn lemma_demand_active_sets(body: Seq<u8>, i: nat)
    ensures
        spec_parse_demand_active(body) matches Some((share_id, sets)) ==> {
            let caps = body.subrange(8 + get_le16(body, 4), body.len() as int);
            let area = caps.subrange(4, caps.len() as int);
            &&& share_id == get_le32(body, 0)
            &&& sets.len() == get_le16(caps, 0)
            &&& i < sets.len() ==> cap_at(area, cap_offset(area, get_le16(caps, 0) as nat, i), sets[i as int])
        },
{
    if body.len() >= 8 && body.len() - 8 >= get_le16(body, 4) + 4 {
        let caps = body.subrange(8 + get_le16(body, 4), body.len() as int);
        lemma_parse_caps_sets(caps.subrange(4, caps.len() as int), get_le16(caps, 0) as nat, i);
    }
}

} // verus!
