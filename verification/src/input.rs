//! Fast-path client input: the keyboard and mouse events the client sends to
//! the server. A compact header, a length, then a sequence of events. Under
//! TLS there is no per-PDU signature.

use vstd::prelude::*;
use crate::wire::{concat, get_le16, le16, lemma_get_le16_at, lemma_le16, put_bytes, put_u16_le, put_u8, views};

verus! {

pub const EVENT_SCANCODE: u8 = 0;
pub const EVENT_MOUSE: u8 = 1;
pub const EVENT_MOUSEX: u8 = 2;
pub const EVENT_UNICODE: u8 = 4;

/// Keyboard event flags (eventHeader bits 0-4).
pub const KBDFLAGS_RELEASE: u8 = 0x01;
pub const KBDFLAGS_EXTENDED: u8 = 0x02;

/// Mouse pointerFlags.
pub const PTRFLAGS_WHEEL: u16 = 0x0200;
pub const PTRFLAGS_MOVE: u16 = 0x0800;
pub const PTRFLAGS_DOWN: u16 = 0x8000;
pub const PTRFLAGS_BUTTON1: u16 = 0x1000;
pub const PTRFLAGS_BUTTON2: u16 = 0x2000;
pub const PTRFLAGS_BUTTON3: u16 = 0x4000;

/// The event header: event code in bits 5-7, flags in bits 0-4.
pub open spec fn spec_event_header(event_code: u8, event_flags: u8) -> u8 {
    (((event_code as int * 32) % 256) + event_flags % 32) as u8
}

fn event_header(event_code: u8, event_flags: u8) -> (r: u8)
    ensures
        r == spec_event_header(event_code, event_flags),
{
    let r = (event_code << 5) | (event_flags & 0x1f);
    assert(r == (((event_code as int * 32) % 256) + event_flags % 32) as u8) by (bit_vector)
        requires
            r == (event_code << 5) | (event_flags & 0x1f),
    ;
    r
}

/// A scancode keyboard event: RELEASE when not pressed, EXTENDED when extended.
pub open spec fn spec_scancode_event(key_code: u8, pressed: bool, extended: bool) -> Seq<u8> {
    let flags: u8 = ((if pressed { 0u8 } else { KBDFLAGS_RELEASE }) + (if extended { KBDFLAGS_EXTENDED } else { 0u8 })) as u8;
    seq![spec_event_header(EVENT_SCANCODE, flags), key_code]
}

/// A scancode keyboard event.
pub fn scancode_event(key_code: u8, pressed: bool, extended: bool) -> (r: Vec<u8>)
    ensures
        r@ == spec_scancode_event(key_code, pressed, extended),
{
    let mut flags: u8 = 0;
    if !pressed {
        flags = flags | KBDFLAGS_RELEASE;
    }
    if extended {
        flags = flags | KBDFLAGS_EXTENDED;
    }
    assert(flags == ((if pressed { 0u8 } else { KBDFLAGS_RELEASE }) + (if extended { KBDFLAGS_EXTENDED } else { 0u8 })) as u8) by {
        assert(0u8 | 1u8 == 1u8) by (bit_vector);
        assert(0u8 | 2u8 == 2u8) by (bit_vector);
        assert(1u8 | 2u8 == 3u8) by (bit_vector);
    }
    let r = vec![event_header(EVENT_SCANCODE, flags), key_code];
    assert(r@ =~= spec_scancode_event(key_code, pressed, extended));
    r
}

/// A scancode event is two bytes: the header, whose event code (bits 5-7) is
/// the scancode event, whose bit 0 (KBDFLAGS_RELEASE) is set exactly when the
/// key is released and bit 1 (KBDFLAGS_EXTENDED) exactly when the key is an
/// extended one, with no other flag set; then the key code.
pub proof fn lemma_scancode_event_fields(key_code: u8, pressed: bool, extended: bool)
    ensures
        ({
            let r = spec_scancode_event(key_code, pressed, extended);
            &&& r.len() == 2
            &&& r[0] / 32 == EVENT_SCANCODE
            &&& (r[0] % 2 == 1 <==> !pressed)
            &&& ((r[0] / 2) % 2 == 1 <==> extended)
            &&& r[0] % 32 < 4
            &&& r[1] == key_code
        }),
{
}

/// A Unicode keyboard event (sends a character directly).
pub open spec fn spec_unicode_event(code: u16, pressed: bool) -> Seq<u8> {
    seq![spec_event_header(EVENT_UNICODE, if pressed { 0u8 } else { KBDFLAGS_RELEASE })] + le16(code)
}

/// A Unicode keyboard event (sends a character directly).
pub fn unicode_event(code: u16, pressed: bool) -> (r: Vec<u8>)
    ensures
        r@ == spec_unicode_event(code, pressed),
{
    let flags: u8 = if pressed { 0 } else { KBDFLAGS_RELEASE };
    let mut v: Vec<u8> = Vec::new();
    put_u8(&mut v, event_header(EVENT_UNICODE, flags));
    put_u16_le(&mut v, code);
    v
}

/// A mouse event of the given event code: pointer flags and position.
pub open spec fn spec_mouse(event_code: u8, pointer_flags: u16, x: u16, y: u16) -> Seq<u8> {
    seq![spec_event_header(event_code, 0)] + le16(pointer_flags) + le16(x) + le16(y)
}

fn mouse(event_code: u8, pointer_flags: u16, x: u16, y: u16) -> (r: Vec<u8>)
    ensures
        r@ == spec_mouse(event_code, pointer_flags, x, y),
{
    let mut b: Vec<u8> = Vec::new();
    put_u8(&mut b, event_header(event_code, 0));
    put_u16_le(&mut b, pointer_flags);
    put_u16_le(&mut b, x);
    put_u16_le(&mut b, y);
    b
}

/// A mouse event: pointer flags and absolute position.
pub fn mouse_event(pointer_flags: u16, x: u16, y: u16) -> (r: Vec<u8>)
    ensures
        r@ == spec_mouse(EVENT_MOUSE, pointer_flags, x, y),
{
    mouse(EVENT_MOUSE, pointer_flags, x, y)
}

/// An extended mouse event (buttons 4 and 5).
pub fn mouse_x_event(pointer_flags: u16, x: u16, y: u16) -> (r: Vec<u8>)
    ensures
        r@ == spec_mouse(EVENT_MOUSEX, pointer_flags, x, y),
{
    mouse(EVENT_MOUSEX, pointer_flags, x, y)
}

/// A fast-path input PDU: fpInputHeader (action 0, numberEvents in bits 2-5
/// when at most 15), a 1- or 2-byte length counting the whole PDU, then a
/// separate numberEvents byte when there are more than 15, then the events.
pub open spec fn spec_input_pdu(events: Seq<Seq<u8>>) -> Seq<u8> {
    let num = events.len();
    let header: u8 = if num <= 15 { (num * 4) as u8 } else { 0 };
    let body = (if num > 15 { seq![(num % 256) as u8] } else { Seq::empty() }) + concat(events);
    let base = 1 + body.len();
    let len_bytes = if base + 1 < 0x80 {
        seq![(base + 1) as u8]
    } else {
        let total = base + 2;
        seq![(0x80 + (total / 256) % 128) as u8, (total % 256) as u8]
    };
    seq![header] + len_bytes + body
}

/// Assemble a fast-path input PDU from the given events.
pub fn input_pdu(events: &[Vec<u8>]) -> (r: Vec<u8>)
    requires
        concat(views(events@)).len() + 4 <= usize::MAX,
    ensures
        r@ == spec_input_pdu(views(events@)),
{
    let num = events.len();
    let header: u8 = if num <= 15 { (num as u8) << 2 } else { 0 };
    assert(num <= 15 ==> header == (num * 4) as u8) by (bit_vector)
        requires
            header == if num <= 15 { (num as u8) << 2 } else { 0 },
    ;
    let mut body: Vec<u8> = Vec::new();
    if num > 15 {
        put_u8(&mut body, (num % 256) as u8);
    }
    let ghost head = body@;
    let mut i: usize = 0;
    while i < events.len()
        invariant
            i <= events.len(),
            body@ == head + concat(views(events@).subrange(0, i as int)),
        decreases events.len() - i,
    {
        put_bytes(&mut body, events[i].as_slice());
        proof {
            assert(views(events@).subrange(0, i + 1).drop_last() =~= views(events@).subrange(0, i as int));
            assert(body@ =~= head + concat(views(events@).subrange(0, i + 1)));
        }
        i = i + 1;
    }
    proof {
        assert(views(events@).subrange(0, events.len() as int) =~= views(events@));
        assert(views(events@).len() == num);
    }
    let base = 1 + body.len();
    let mut out: Vec<u8> = Vec::new();
    put_u8(&mut out, header);
    if base + 1 < 0x80 {
        put_u8(&mut out, (base + 1) as u8);
    } else {
        let total = base + 2;
        let hi = (total >> 8) as u8;
        let b0 = 0x80 | hi;
        assert(b0 == (0x80 + (total / 256) % 128) as u8) by (bit_vector)
            requires
                hi == (total >> 8) as u8,
                b0 == 0x80 | hi,
        ;
        put_u8(&mut out, b0);
        put_u8(&mut out, (total & 0xff) as u8);
        assert((total & 0xff) as u8 == (total % 256) as u8) by (bit_vector);
    }
    put_bytes(&mut out, body.as_slice());
    proof {
        assert(out@ =~= spec_input_pdu(views(events@)));
    }
    out
}

/// A Unicode event is three bytes: the header, whose event code is the Unicode
/// event and whose only possible flag is RELEASE, set exactly when the key is
/// released; then the UTF-16 code unit, little-endian.
pub proof fn lemma_unicode_event_fields(code: u16, pressed: bool)
    ensures
        ({
            let r = spec_unicode_event(code, pressed);
            &&& r.len() == 3
            &&& r[0] / 32 == EVENT_UNICODE
            &&& (r[0] % 2 == 1 <==> !pressed)
            &&& r[0] % 32 < 2
            &&& get_le16(r, 1) == code
        }),
{
    let r = spec_unicode_event(code, pressed);
    lemma_le16(code);
    assert(r.subrange(1, 3) =~= le16(code));
    lemma_get_le16_at(r, 1, code);
}

/// A mouse event (plain or extended) is seven bytes: the header with the
/// event code and no flags, then pointerFlags, x and y, each little-endian.
pub proof fn lemma_mouse_event_fields(extended: bool, pointer_flags: u16, x: u16, y: u16)
    ensures
        ({
            let code = if extended { EVENT_MOUSEX } else { EVENT_MOUSE };
            let r = spec_mouse(code, pointer_flags, x, y);
            &&& r.len() == 7
            &&& r[0] / 32 == code
            &&& r[0] % 32 == 0
            &&& get_le16(r, 1) == pointer_flags
            &&& get_le16(r, 3) == x
            &&& get_le16(r, 5) == y
        }),
{
    let code = if extended { EVENT_MOUSEX } else { EVENT_MOUSE };
    let r = spec_mouse(code, pointer_flags, x, y);
    lemma_le16(pointer_flags);
    lemma_le16(x);
    lemma_le16(y);
    assert(r.subrange(1, 3) =~= le16(pointer_flags));
    assert(r.subrange(3, 5) =~= le16(x));
    assert(r.subrange(5, 7) =~= le16(y));
    lemma_get_le16_at(r, 1, pointer_flags);
    lemma_get_le16_at(r, 3, x);
    lemma_get_le16_at(r, 5, y);
}

/// A fast-path input PDU's length field counts the whole PDU (one byte below
/// 0x80, else two bytes big-endian with the high bit set); its header has
/// action 0 and gives the number of events in bits 2-5 when there are at most
/// 15, else a separate numberEvents byte follows the length; the events
/// follow, concatenated in order.
pub proof fn lemma_input_pdu_layout(events: Seq<Seq<u8>>)
    requires
        concat(events).len() + 4 < 0x8000,
    ensures
        ({
            let r = spec_input_pdu(events);
            let n = events.len();
            let k: int = if r[1] < 0x80 { 2 } else { 3 };
            let start: int = if n > 15 { k + 1 } else { k };
            &&& r[1] < 0x80 ==> r[1] == r.len()
            &&& r[1] >= 0x80 ==> (r[1] - 0x80) * 256 + r[2] == r.len()
            &&& r[0] % 4 == 0
            &&& n <= 15 ==> r[0] / 4 == n
            &&& n > 15 ==> r[0] == 0 && r[k] == n % 256
            &&& r.subrange(start, r.len() as int) == concat(events)
        }),
{
    let r = spec_input_pdu(events);
    let n = events.len();
    let body = (if n > 15 { seq![(n % 256) as u8] } else { Seq::empty() }) + concat(events);
    let base = 1 + body.len();
    if base + 1 < 0x80 {
        assert(r[1] == (base + 1) as u8);
        assert(r.subrange(2, r.len() as int) =~= body);
    } else {
        let total = base + 2;
        assert(r[1] == (0x80 + (total / 256) % 128) as u8);
        assert(r.subrange(3, r.len() as int) =~= body);
    }
    if n > 15 {
        let k: int = if r[1] < 0x80 { 2 } else { 3 };
        assert(r.subrange(k + 1, r.len() as int) =~= body.subrange(1, body.len() as int));
        assert(body.subrange(1, body.len() as int) =~= concat(events));
    }
}

} // verus!
