//! The display state: applies decoded fast-path updates to a framebuffer and
//! tracks the cursor. A connection feeds it fast-path update PDUs and reads
//! back the framebuffer to present.

use vstd::prelude::*;
use super::bitmap::{
    apply as apply_bitmap, blitted, parse_bitmap_update, rect_overruns, rect_sizes_fit, rect_sizes_ok, rect_views,
    spec_parse_bitmap_update, spec_rect_rgba, BitmapRect, RectView,
};
use super::fastpath::{
    update_views, FastPathUpdate, UpdateView, UPDATETYPE_BITMAP, UPDATETYPE_COLOR, UPDATETYPE_POINTER, UPDATETYPE_PTR_NULL,
    UPDATETYPE_PTR_POSITION,
};
use super::framebuffer::Framebuffer;
use super::pointer::{decode_color_pointer, decode_new_pointer, spec_pointer, Cursor, CursorView};
use super::rle::overruns;
use crate::wire::{get_le16, read_u16_le, zeros};
use crate::Result;

verus! {

/// Everything needed to present the remote desktop: the pixel buffer and cursor.
pub struct Display {
    pub framebuffer: Framebuffer,
    pub cursor: Option<Cursor>,
    pub cursor_pos: (u16, u16),
    /// Whether anything was drawn since the flag was last cleared.
    pub dirty: bool,
}

/// The state of a display.
pub struct DisplayView {
    pub width: nat,
    pub height: nat,
    pub pixels: Seq<u8>,
    pub cursor: Option<CursorView>,
    pub cursor_pos: (u16, u16),
    pub dirty: bool,
}

/// The cursor an optional cursor holds.
pub open spec fn cursor_view(c: Option<Cursor>) -> Option<CursorView> {
    match c {
        Some(c) => Some(c@),
        None => None,
    }
}

impl View for Display {
    type V = DisplayView;

    open spec fn view(&self) -> DisplayView {
        DisplayView {
            width: self.framebuffer.spec_width(),
            height: self.framebuffer.spec_height(),
            pixels: self.framebuffer.spec_pixels(),
            cursor: cursor_view(self.cursor),
            cursor_pos: self.cursor_pos,
            dirty: self.dirty,
        }
    }
}

/// One rectangle applied to the pixels `old` of a `w × h` framebuffer: blitted
/// when it decodes, else skipped.
pub open spec fn rect_step(old: Seq<u8>, new: Seq<u8>, w: nat, h: nat, r: RectView) -> bool {
    match spec_rect_rgba(r) {
        Some(rgba) => blitted(old, new, w, h, r.dest_left as int, r.dest_top as int, r.width as int, r.height as int, rgba),
        None => new == old,
    }
}

/// `new` is `old` with the rectangles applied in order.
pub open spec fn rects_applied(old: Seq<u8>, new: Seq<u8>, w: nat, h: nat, rects: Seq<RectView>) -> bool {
    exists|st: Seq<Seq<u8>>|
        #![trigger st.len()]
        st.len() == rects.len() + 1 && st[0] == old && st[rects.len() as int] == new && forall|i: int|
            0 <= i < rects.len() ==> rect_step(#[trigger] st[i], st[i + 1], w, h, rects[i])
}

/// Whether one of the first `n` rectangles decodes.
pub open spec fn some_decodes(rects: Seq<RectView>, n: nat) -> bool
    decreases n,
{
    n > 0 && (some_decodes(rects, (n - 1) as nat) || spec_rect_rgba(rects[n - 1]) is Some)
}

/// Whether applying `u` fails: its bitmap update or pointer does not parse.
pub open spec fn update_fails(u: UpdateView) -> bool {
    if u.update_code == UPDATETYPE_BITMAP {
        spec_parse_bitmap_update(u.data) is Err
    } else if u.update_code == UPDATETYPE_COLOR {
        !(spec_pointer(u.data, 24) matches Ok(Some(_)))
    } else if u.update_code == UPDATETYPE_POINTER {
        u.data.len() < 2 || !(spec_pointer(u.data.subrange(2, u.data.len() as int), get_le16(u.data, 0)) matches Ok(
            Some(_),
        ))
    } else {
        false
    }
}

/// What a successful update does to the display: bitmaps are blitted (those
/// that do not decode are skipped) and mark it dirty when one was drawn;
/// pointer updates replace, move or clear the cursor and mark it dirty; other
/// update types change nothing.
pub open spec fn display_step(old: DisplayView, new: DisplayView, u: UpdateView) -> bool {
    &&& new.width == old.width
    &&& new.height == old.height
    &&& if u.update_code == UPDATETYPE_BITMAP {
        let rects = spec_parse_bitmap_update(u.data)->Ok_0;
        &&& rects_applied(old.pixels, new.pixels, old.width, old.height, rects)
        &&& new.cursor == old.cursor
        &&& new.cursor_pos == old.cursor_pos
        &&& new.dirty == (old.dirty || some_decodes(rects, rects.len()))
    } else {
        &&& new.pixels == old.pixels
        &&& if u.update_code == UPDATETYPE_COLOR {
            new.cursor == spec_pointer(u.data, 24)->Ok_0 && new.cursor_pos == old.cursor_pos && new.dirty
        } else if u.update_code == UPDATETYPE_POINTER {
            new.cursor == spec_pointer(u.data.subrange(2, u.data.len() as int), get_le16(u.data, 0))->Ok_0
                && new.cursor_pos == old.cursor_pos && new.dirty
        } else if u.update_code == UPDATETYPE_PTR_POSITION && u.data.len() >= 4 {
            new.cursor == old.cursor && new.cursor_pos == (get_le16(u.data, 0), get_le16(u.data, 2)) && new.dirty
        } else if u.update_code == UPDATETYPE_PTR_NULL {
            new.cursor is None && new.cursor_pos == old.cursor_pos && new.dirty
        } else {
            new.cursor == old.cursor && new.cursor_pos == old.cursor_pos && new.dirty == old.dirty
        }
    }
}

/// Whether a rectangle can be decoded within the machine limits and its
/// stream stays within its bitmap.
pub open spec fn rect_decodable(r: RectView) -> bool {
    rect_sizes_ok(r) && !rect_overruns(r)
}

/// Whether `u` is a bitmap update with a rectangle that is not decodable: one
/// beyond the machine limits, or a compressed one whose stream would write
/// past the end of its bitmap.
pub open spec fn update_overruns(u: UpdateView) -> bool {
    u.update_code == UPDATETYPE_BITMAP && match spec_parse_bitmap_update(u.data) {
        Ok(rects) => some_undecodable(rects),
        Err(_) => false,
    }
}

/// Whether one of `rects` is not decodable.
pub open spec fn some_undecodable(rects: Seq<RectView>) -> bool {
    exists|i: int| 0 <= i < rects.len() && !rect_decodable(#[trigger] rects[i])
}

/// A run of displays `st` through the first `k` updates of `us`, none failing.
pub open spec fn valid_run(st: Seq<DisplayView>, us: Seq<UpdateView>, k: int) -> bool {
    &&& 0 <= k <= us.len()
    &&& st.len() == k + 1
    &&& forall|i: int| 0 <= i < k ==> !update_fails(#[trigger] us[i]) && display_step(st[i], st[i + 1], us[i])
}

impl Display {
    /// A black display of the given size with no cursor.
    pub fn new(width: usize, height: usize) -> (r: Display)
        requires
            width * height * 4 <= usize::MAX,
        ensures
            r.framebuffer.wf(),
            r@ == (DisplayView {
                width: width as nat,
                height: height as nat,
                pixels: zeros(width as nat * height as nat * 4),
                cursor: None,
                cursor_pos: (0, 0),
                dirty: false,
            }),
    {
        Display { framebuffer: Framebuffer::new(width, height), cursor: None, cursor_pos: (0, 0), dirty: false }
    }

    /// Whether `update` is a bitmap update holding a rectangle that cannot
    /// be decoded: one beyond the machine limits, or a compressed one whose
    /// stream would write past the end of its bitmap.
    pub fn would_overrun(update: &FastPathUpdate) -> (r: bool)
        ensures
            r == update_overruns(update@),
    {
        if update.update_code != UPDATETYPE_BITMAP {
            return false;
        }
        let rects = match parse_bitmap_update(update.data.as_slice()) {
            Ok(v) => v,
            Err(_) => return false,
        };
        let ghost rv = rect_views(rects@);
        let mut i: usize = 0;
        while i < rects.len()
            invariant
                i <= rects.len(),
                rv == rect_views(rects@),
                update.update_code == UPDATETYPE_BITMAP,
                spec_parse_bitmap_update(update.data@) == Ok::<Seq<RectView>, (int, int)>(rv),
                forall|j: int| 0 <= j < i ==> rect_decodable(#[trigger] rv[j]),
            decreases rects.len() - i,
        {
            let rect = &rects[i];
            assert(rv[i as int] == rect@);
            if !rect_sizes_fit(rect) {
                assert(!rect_decodable(rv[i as int]));
                assert(some_undecodable(rv));
                return true;
            }
            if rect.compressed && overruns(rect.data.as_slice(), rect.width as usize, rect.height as usize, rect.bits_per_pixel) {
                assert(!rect_decodable(rv[i as int]));
                assert(some_undecodable(rv));
                return true;
            }
            i = i + 1;
        }
        false
    }

    /// Blit the rectangles of a bitmap update in order, skipping those that
    /// do not decode; `dirty` is set when one was drawn.
    fn apply_rects(&mut self, rects: &Vec<BitmapRect>)
        requires
            old(self).framebuffer.wf(),
            forall|j: int| 0 <= j < rects.len() ==> rect_decodable(#[trigger] rect_views(rects@)[j]),
        ensures
            final(self).framebuffer.wf(),
            final(self)@.width == old(self)@.width,
            final(self)@.height == old(self)@.height,
            final(self)@.cursor == old(self)@.cursor,
            final(self)@.cursor_pos == old(self)@.cursor_pos,
            rects_applied(old(self)@.pixels, final(self)@.pixels, old(self)@.width, old(self)@.height, rect_views(rects@)),
            final(self)@.dirty == (old(self)@.dirty || some_decodes(rect_views(rects@), rects.len() as nat)),
    {
        let ghost rv = rect_views(rects@);
        let ghost w = self.framebuffer.spec_width();
        let ghost h = self.framebuffer.spec_height();
        let ghost start = self@;
        let ghost mut states: Seq<Seq<u8>> = seq![self.framebuffer.spec_pixels()];
        let mut i: usize = 0;
        while i < rects.len()
            invariant
                i <= rects.len(),
                rv == rect_views(rects@),
                forall|j: int| 0 <= j < rv.len() ==> rect_decodable(#[trigger] rv[j]),
                self.framebuffer.wf(),
                self.framebuffer.spec_width() == w,
                self.framebuffer.spec_height() == h,
                w == start.width,
                h == start.height,
                cursor_view(self.cursor) == start.cursor,
                self.cursor_pos == start.cursor_pos,
                states.len() == i + 1,
                states[0] == start.pixels,
                states[i as int] == self.framebuffer.spec_pixels(),
                forall|j: int| 0 <= j < i ==> rect_step(#[trigger] states[j], states[j + 1], w, h, rv[j]),
                self.dirty == (start.dirty || some_decodes(rv, i as nat)),
            decreases rects.len() - i,
        {
            let rect = &rects[i];
            assert(rv[i as int] == rect@);
            assert(rect_decodable(rv[i as int]));
            let ok = apply_bitmap(&mut self.framebuffer, rect).is_ok();
            if ok {
                self.dirty = true;
            }
            proof {
                let prev = states;
                states = states.push(self.framebuffer.spec_pixels());
                assert forall|j: int| 0 <= j < i + 1 implies rect_step(#[trigger] states[j], states[j + 1], w, h, rv[j]) by {
                    if j < i {
                        assert(states[j] == prev[j]);
                        assert(states[j + 1] == prev[j + 1]);
                    }
                }
            }
            i = i + 1;
        }
        proof {
            assert(states.len() == rv.len() + 1);
            assert(rects_applied(start.pixels, self.framebuffer.spec_pixels(), w, h, rv));
        }
    }

    /// Apply one fast-path update. Update types without a handler are
    /// ignored; a bitmap rectangle that fails to decode (for example, an
    /// unsupported bpp) is skipped, so a single bad rectangle does not blank
    /// the session.
    pub fn apply(&mut self, update: &FastPathUpdate) -> (r: Result<()>)
        requires
            old(self).framebuffer.wf(),
            !update_overruns(update@),
        ensures
            final(self).framebuffer.wf(),
            r is Err <==> update_fails(update@),
            r is Err ==> final(self)@ == old(self)@,
            r is Ok ==> display_step(old(self)@, final(self)@, update@),
    {
        let code = update.update_code;
        if code == UPDATETYPE_BITMAP {
            let rects = parse_bitmap_update(update.data.as_slice())?;
            proof {
                assert forall|j: int| 0 <= j < rects.len() implies rect_decodable(#[trigger] rect_views(rects@)[j]) by {
                    let rv = rect_views(rects@);
                    assert(spec_parse_bitmap_update(update.data@) == Ok::<Seq<RectView>, (int, int)>(rv));
                    if !rect_decodable(rv[j]) {
                        assert(0 <= j < rv.len() && !rect_decodable(rv[j]));
                        assert(some_undecodable(rv));
                    }
                }
            }
            self.apply_rects(&rects);
        } else if code == UPDATETYPE_COLOR {
            self.cursor = Some(decode_color_pointer(update.data.as_slice())?);
            self.dirty = true;
        } else if code == UPDATETYPE_POINTER {
            self.cursor = Some(decode_new_pointer(update.data.as_slice())?);
            self.dirty = true;
        } else if code == UPDATETYPE_PTR_POSITION {
            if update.data.len() >= 4 {
                self.cursor_pos = (read_u16_le(update.data.as_slice(), 0), read_u16_le(update.data.as_slice(), 2));
                self.dirty = true;
            }
        } else if code == UPDATETYPE_PTR_NULL {
            self.cursor = None;
            self.dirty = true;
        }
        Ok(())
    }

    /// Apply every update of a parsed fast-path output PDU, stopping at the
    /// first that fails.
    pub fn apply_all(&mut self, updates: &[FastPathUpdate]) -> (r: Result<()>)
        requires
            old(self).framebuffer.wf(),
            forall|i: int| 0 <= i < updates.len() ==> !update_overruns(#[trigger] updates@[i]@),
        ensures
            final(self).framebuffer.wf(),
            r is Err <==> exists|i: int| 0 <= i < updates.len() && update_fails(#[trigger] updates@[i]@),
            exists|st: Seq<DisplayView>, k: int|
                #[trigger] valid_run(st, update_views(updates@), k) && st[0] == old(self)@ && st[k] == final(self)@ && (k
                    < updates.len() ==> update_fails(updates@[k]@)),
    {
        let ghost us = update_views(updates@);
        let ghost mut st: Seq<DisplayView> = seq![self@];
        let mut i: usize = 0;
        while i < updates.len()
            invariant
                i <= updates.len(),
                us == update_views(updates@),
                self.framebuffer.wf(),
                forall|j: int| 0 <= j < updates.len() ==> !update_overruns(#[trigger] updates@[j]@),
                valid_run(st, us, i as int),
                st[0] == old(self)@,
                st[i as int] == self@,
            decreases updates.len() - i,
        {
            assert(us[i as int] == updates@[i as int]@);
            match self.apply(&updates[i]) {
                Ok(()) => {},
                Err(e) => {
                    proof {
                        assert(valid_run(st, us, i as int));
                        assert forall|j: int| 0 <= j < i implies !update_fails(#[trigger] updates@[j]@) by {
                            assert(us[j] == updates@[j]@);
                        }
                    }
                    return Err(e);
                },
            }
            proof {
                let prev = st;
                st = st.push(self@);
                assert forall|j: int| 0 <= j < i + 1 implies !update_fails(#[trigger] us[j]) && display_step(
                    st[j],
                    st[j + 1],
                    us[j],
                ) by {
                    if j < i {
                        assert(st[j] == prev[j]);
                        assert(st[j + 1] == prev[j + 1]);
                    }
                }
            }
            i = i + 1;
        }
        proof {
            assert(valid_run(st, us, updates.len() as int));
            assert forall|j: int| 0 <= j < updates.len() implies !update_fails(#[trigger] updates@[j]@) by {
                assert(us[j] == updates@[j]@);
            }
        }
        Ok(())
    }
}

} // verus!
