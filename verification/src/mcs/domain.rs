//! MCS domain PDUs (T.125), PER-encoded. The DomainMCSPDU CHOICE index sits in
//! the top 6 bits of the first byte (`index << 2`); the low bit 0x02 marks an
//! optional field present. UserIds and the initiator field are offset from
//! `MCS_BASE = 1001`; channel IDs are sent directly.

use vstd::prelude::*;
use super::per::{self, spec_length, spec_read_length};
use crate::wire::{be16, get_be16, put_bytes, put_u16_be, put_u8, read_u16_be, slice_range};
use crate::{is_protocol, is_rejected, is_short, Error, Result};

verus! {

/// Base value for MCS user/initiator INTEGER(16) fields.
pub const MCS_BASE: u16 = 1001;
/// The well-known RDP I/O channel.
pub const IO_CHANNEL: u16 = 1003;

/// DomainMCSPDU CHOICE index of Erect Domain Request.
pub const ERECT_DOMAIN_REQUEST: u8 = 1;
/// DomainMCSPDU CHOICE index of Attach User Request.
pub const ATTACH_USER_REQUEST: u8 = 10;
/// DomainMCSPDU CHOICE index of Attach User Confirm.
pub const ATTACH_USER_CONFIRM: u8 = 11;
/// DomainMCSPDU CHOICE index of Channel Join Request.
pub const CHANNEL_JOIN_REQUEST: u8 = 14;
/// DomainMCSPDU CHOICE index of Channel Join Confirm.
pub const CHANNEL_JOIN_CONFIRM: u8 = 15;
/// DomainMCSPDU CHOICE index of Send Data Request.
pub const SEND_DATA_REQUEST: u8 = 25;
/// DomainMCSPDU CHOICE index of Send Data Indication.
pub const SEND_DATA_INDICATION: u8 = 26;

fn choice(index: u8) -> (r: u8)
    requires
        index < 64,
    ensures
        r == index * 4,
{
    index * 4
}

/// MCS Erect Domain Request (subHeight=0, subInterval=0).
pub fn erect_domain_request() -> (r: Vec<u8>)
    ensures
        r@ == seq![0x04u8, 0x01, 0x00, 0x01, 0x00],
{
    let mut out: Vec<u8> = Vec::new();
    put_u8(&mut out, choice(ERECT_DOMAIN_REQUEST));
    put_u8(&mut out, 0x01);
    put_u8(&mut out, 0x00);
    put_u8(&mut out, 0x01);
    put_u8(&mut out, 0x00);
    out
}

/// MCS Attach User Request (a single choice byte).
pub fn attach_user_request() -> (r: Vec<u8>)
    ensures
        r@ == seq![0x28u8],
{
    let mut out: Vec<u8> = Vec::new();
    put_u8(&mut out, choice(ATTACH_USER_REQUEST));
    out
}

/// The user channel an Attach User Confirm assigns, if `buf` is a successful
/// one whose initiator, offset by `MCS_BASE`, is a 16-bit user ID.
pub open spec fn spec_parse_attach_user_confirm(buf: Seq<u8>) -> Option<u16> {
    if buf.len() < 2 || buf[0] / 4 != ATTACH_USER_CONFIRM || buf[1] != 0 || buf[0] % 4 < 2 || buf.len()
        < 4 || !attach_initiator_in_range(buf) {
        None
    } else {
        Some((get_be16(buf, 2) + MCS_BASE) as u16)
    }
}

/// Whether the initiator of an Attach User Confirm, offset by `MCS_BASE`, fits
/// in 16 bits: the user ID range is 1001 to 65535.
pub open spec fn attach_initiator_in_range(buf: Seq<u8>) -> bool {
    buf.len() >= 4 ==> get_be16(buf, 2) + MCS_BASE <= u16::MAX
}

/// Parse an MCS Attach User Confirm, returning the assigned user channel ID.
pub fn parse_attach_user_confirm(buf: &[u8]) -> (r: Result<u16>)
    ensures
        r matches Ok(v) ==> spec_parse_attach_user_confirm(buf@) == Some(v) && v >= MCS_BASE,
        r is Err <==> spec_parse_attach_user_confirm(buf@) is None,
        buf.len() < 2 ==> is_short(r, 2, buf.len() as int),
        buf.len() >= 2 && buf[0] / 4 != ATTACH_USER_CONFIRM ==> is_protocol(r),
        buf.len() >= 2 && buf[0] / 4 == ATTACH_USER_CONFIRM && buf[1] != 0 ==> is_rejected(r),
        buf.len() >= 4 && buf[0] / 4 == ATTACH_USER_CONFIRM && buf[1] == 0 && !attach_initiator_in_range(buf@)
            ==> is_protocol(r),
{
    if buf.len() < 2 {
        return Err(Error::Short { need: 2, have: buf.len() });
    }
    let tag = buf[0];
    if tag / 4 != ATTACH_USER_CONFIRM {
        return Err(Error::Protocol("not an Attach User Confirm"));
    }
    let result = buf[1];
    if result != 0 {
        return Err(Error::NegotiationFailure("Attach User Confirm result not successful"));
    }
    if tag % 4 < 2 || buf.len() < 4 {
        return Err(Error::Protocol("Attach User Confirm missing initiator"));
    }
    let initiator = read_u16_be(buf, 2);
    if initiator > u16::MAX - MCS_BASE {
        return Err(Error::Protocol("Attach User Confirm initiator outside the user ID range"));
    }
    Ok(initiator + MCS_BASE)
}

/// The wire form of a Channel Join Request.
pub open spec fn spec_channel_join_request(user_id: u16, channel_id: u16) -> Seq<u8> {
    seq![0x38u8] + be16((user_id - MCS_BASE) as u16) + be16(channel_id)
}

/// MCS Channel Join Request for `channel_id` from `user_id` (at least `MCS_BASE`).
pub fn channel_join_request(user_id: u16, channel_id: u16) -> (r: Vec<u8>)
    requires
        user_id >= MCS_BASE,
    ensures
        r@ == spec_channel_join_request(user_id, channel_id),
{
    let mut out: Vec<u8> = Vec::new();
    put_u8(&mut out, choice(CHANNEL_JOIN_REQUEST));
    put_u16_be(&mut out, user_id - MCS_BASE);
    put_u16_be(&mut out, channel_id);
    proof {
        assert(out@ =~= spec_channel_join_request(user_id, channel_id));
    }
    out
}

/// The channel a Channel Join Confirm confirms, if `buf` is a successful one.
pub open spec fn spec_parse_channel_join_confirm(buf: Seq<u8>) -> Option<u16> {
    if buf.len() < 2 || buf[0] / 4 != CHANNEL_JOIN_CONFIRM || buf[1] != 0 || buf.len() < 6 {
        None
    } else if buf[0] % 4 >= 2 {
        if buf.len() < 8 {
            None
        } else {
            Some(get_be16(buf, 6))
        }
    } else {
        Some(get_be16(buf, 4))
    }
}

/// Parse an MCS Channel Join Confirm, returning the joined channel ID.
pub fn parse_channel_join_confirm(buf: &[u8]) -> (r: Result<u16>)
    ensures
        r matches Ok(v) ==> spec_parse_channel_join_confirm(buf@) == Some(v),
        r is Err <==> spec_parse_channel_join_confirm(buf@) is None,
        buf.len() < 2 ==> is_short(r, 2, buf.len() as int),
        buf.len() >= 2 && buf[0] / 4 != CHANNEL_JOIN_CONFIRM ==> is_protocol(r),
        buf.len() >= 2 && buf[0] / 4 == CHANNEL_JOIN_CONFIRM && buf[1] != 0 ==> is_rejected(r),
{
    if buf.len() < 2 {
        return Err(Error::Short { need: 2, have: buf.len() });
    }
    let tag = buf[0];
    if tag / 4 != CHANNEL_JOIN_CONFIRM {
        return Err(Error::Protocol("not a Channel Join Confirm"));
    }
    let result = buf[1];
    if result != 0 {
        return Err(Error::NegotiationFailure("Channel Join Confirm result not successful"));
    }
    if buf.len() < 6 {
        return Err(Error::Short { need: 4, have: buf.len() - 2 });
    }
    let requested = read_u16_be(buf, 4);
    if tag % 4 >= 2 {
        if buf.len() < 8 {
            return Err(Error::Short { need: 2, have: buf.len() - 6 });
        }
        Ok(read_u16_be(buf, 6))
    } else {
        Ok(requested)
    }
}

/// The wire form of a Send Data Request.
pub open spec fn spec_send_data_request(user_id: u16, channel_id: u16, data: Seq<u8>) -> Seq<u8> {
    seq![0x64u8] + be16((user_id - MCS_BASE) as u16) + be16(channel_id) + seq![0x70u8] + spec_length(
        data.len(),
    ) + data
}

/// Wrap `data` in an MCS Send Data Request on `channel_id` from `user_id`.
pub fn send_data_request(user_id: u16, channel_id: u16, data: &[u8]) -> (r: Vec<u8>)
    requires
        user_id >= MCS_BASE,
    ensures
        r@ == spec_send_data_request(user_id, channel_id, data@),
{
    let mut out: Vec<u8> = Vec::new();
    put_u8(&mut out, choice(SEND_DATA_REQUEST));
    put_u16_be(&mut out, user_id - MCS_BASE);
    put_u16_be(&mut out, channel_id);
    put_u8(&mut out, 0x70);
    per::write_length(&mut out, data.len());
    put_bytes(&mut out, data);
    proof {
        assert(out@ =~= spec_send_data_request(user_id, channel_id, data@));
    }
    out
}

/// The channel and payload of a Send Data Indication, if `buf` is one.
pub open spec fn spec_parse_send_data_indication(buf: Seq<u8>) -> Option<(u16, Seq<u8>)> {
    if buf.len() < 6 || buf[0] / 4 != SEND_DATA_INDICATION {
        None
    } else {
        match spec_read_length(buf.subrange(6, buf.len() as int)) {
            None => None,
            Some((len, k)) => if buf.len() - 6 - k < len {
                None
            } else {
                Some((get_be16(buf, 3), buf.subrange(6 + k, 6 + k + len)))
            },
        }
    }
}

/// Parse an MCS Send Data Indication, returning (channel_id, payload).
pub fn parse_send_data_indication(buf: &[u8]) -> (r: Result<(u16, &[u8])>)
    ensures
        r matches Ok((c, d)) ==> spec_parse_send_data_indication(buf@) == Some((c, d@)),
        r is Err <==> spec_parse_send_data_indication(buf@) is None,
        buf.len() == 0 ==> is_short(r, 1, 0),
        buf.len() > 0 && buf[0] / 4 != SEND_DATA_INDICATION ==> is_protocol(r),
{
    if buf.len() == 0 {
        return Err(Error::Short { need: 1, have: 0 });
    }
    let tag = buf[0];
    if tag / 4 != SEND_DATA_INDICATION {
        return Err(Error::Protocol("not a Send Data Indication"));
    }
    if buf.len() < 6 {
        return Err(Error::Short { need: 5, have: buf.len() - 1 });
    }
    let channel_id = read_u16_be(buf, 3);
    let mut b = slice_range(buf, 6, buf.len());
    let len = per::read_length(&mut b)?;
    if b.len() < len {
        return Err(Error::Short { need: len, have: b.len() });
    }
    let consumed = buf.len() - b.len();
    Ok((channel_id, slice_range(buf, consumed, consumed + len)))
}

/// A Send Data Request re-tagged as an indication parses back to its channel and data.
pub proof fn lemma_send_data_roundtrip(user_id: u16, channel_id: u16, data: Seq<u8>)
    requires
        user_id >= MCS_BASE,
        data.len() < 0x4000,
    ensures
        spec_parse_send_data_indication(
            spec_send_data_request(user_id, channel_id, data).update(0, 0x68u8),
        ) == Some((channel_id, data)),
{
    let s = spec_send_data_request(user_id, channel_id, data).update(0, 0x68u8);
    let l = spec_length(data.len());
    per::lemma_read_length(data.len() as usize, data);
    assert(s.subrange(6, s.len() as int) =~= l + data);
    assert(s[3] == be16(channel_id)[0] && s[4] == be16(channel_id)[1]);
    assert(s.subrange(6 + l.len() as int, 6 + l.len() as int + data.len() as int) =~= data);
}

} // verus!
