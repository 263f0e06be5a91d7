//! Client Info PDU — sent after channel join to carry logon settings. Under NLA
//! the password is empty (credentials already went via CredSSP). Preceded by a
//! Basic Security Header with the SEC_INFO_PKT flag.

use vstd::prelude::*;
use crate::nla::crypto::unicode;
use crate::text::spec_unicode;
use crate::wire::{le16, le32, len16, len16_of, put_bytes, put_u16_le, put_u32_le, put_zeros, zeros};

verus! {

/// Basic Security Header flag: this PDU is a Client Info PDU.
pub const SEC_INFO_PKT: u16 = 0x0040;

pub const INFO_MOUSE: u32 = 0x0000_0001;
pub const INFO_DISABLECTRLALTDEL: u32 = 0x0000_0002;
pub const INFO_AUTOLOGON: u32 = 0x0000_0008;
pub const INFO_UNICODE: u32 = 0x0000_0010;
pub const INFO_MAXIMIZESHELL: u32 = 0x0000_0020;
pub const INFO_COMPRESSION: u32 = 0x0000_0080;
pub const INFO_ENABLEWINDOWSKEY: u32 = 0x0000_0100;

/// Size of the TS_TIME_ZONE_INFORMATION structure.
pub const TIMEZONE_LEN: usize = 172;

/// Logon settings for the Client Info PDU.
#[derive(Clone, Debug, Default)]
pub struct LogonInfo {
    pub domain: String,
    pub username: String,
    /// Empty under NLA (credentials already delivered via CredSSP).
    pub password: String,
    pub alternate_shell: String,
    pub working_dir: String,
}

/// UTF-16LE `"0.0.0.0"` with its null terminator.
pub open spec fn client_address() -> Seq<u8> {
    seq![0x30u8, 0, 0x2e, 0, 0x30, 0, 0x2e, 0, 0x30, 0, 0x2e, 0, 0x30, 0, 0, 0]
}

/// The TS_INFO_PACKET flags: mouse, no Ctrl+Alt+Del, Unicode, maximized shell,
/// Windows key; plus auto-logon when asked for and a password is present.
pub open spec fn spec_info_flags(info: LogonInfo, autologon: bool) -> u32 {
    if autologon && info.password@.len() > 0 {
        0x013B
    } else {
        0x0133
    }
}

/// A string field of the info packet: its cb length (without the terminator)
/// goes in the header, its bytes with a null terminator go in the body.
pub open spec fn spec_cb(s: Seq<char>) -> Seq<u8> {
    le16(len16(spec_unicode(s).len(), 0))
}

/// UTF-16LE bytes of `s` plus a null terminator.
pub open spec fn spec_utf16_z(s: Seq<char>) -> Seq<u8> {
    spec_unicode(s) + seq![0u8, 0u8]
}

/// The Client Info PDU body: Basic Security Header + TS_INFO_PACKET + the
/// extended info packet.
pub open spec fn spec_client_info(info: LogonInfo, autologon: bool) -> Seq<u8> {
    le16(SEC_INFO_PKT) + le16(0) + le32(0) + le32(spec_info_flags(info, autologon)) + spec_cb(
        info.domain@,
    ) + spec_cb(info.username@) + spec_cb(info.password@) + spec_cb(info.alternate_shell@) + spec_cb(
        info.working_dir@,
    ) + spec_utf16_z(info.domain@) + spec_utf16_z(info.username@) + spec_utf16_z(info.password@)
        + spec_utf16_z(info.alternate_shell@) + spec_utf16_z(info.working_dir@) + le16(2) + le16(16)
        + client_address() + le16(2) + seq![0u8, 0u8] + zeros(172) + le32(0) + le32(0) + le16(0)
}

/// A UTF-16LE string plus its 2-byte null terminator.
fn utf16_z(s: &str) -> (r: Vec<u8>)
    ensures
        r@ == spec_utf16_z(s@),
{
    let mut v = unicode(s);
    v.push(0);
    v.push(0);
    proof {
        assert(v@ =~= spec_utf16_z(s@));
    }
    v
}

/// Build the Client Info PDU body: Basic Security Header + TS_INFO_PACKET.
/// (Wrap the result in MCS Send Data, X.224 and TPKT to send.)
pub fn client_info(info: &LogonInfo, autologon: bool) -> (r: Vec<u8>)
    ensures
        r@ == spec_client_info(*info, autologon),
{
    let mut flags: u32 = 0x0133;
    if autologon && !info.password.as_str().is_empty() {
        flags = 0x013B;
    }
    let domain = utf16_z(info.domain.as_str());
    let username = utf16_z(info.username.as_str());
    let password = utf16_z(info.password.as_str());
    let shell = utf16_z(info.alternate_shell.as_str());
    let workdir = utf16_z(info.working_dir.as_str());

    let mut b: Vec<u8> = Vec::new();
    put_u16_le(&mut b, SEC_INFO_PKT);
    put_u16_le(&mut b, 0);
    put_u32_le(&mut b, 0);
    put_u32_le(&mut b, flags);
    put_u16_le(&mut b, len16_of(domain.len() - 2, 0));
    put_u16_le(&mut b, len16_of(username.len() - 2, 0));
    put_u16_le(&mut b, len16_of(password.len() - 2, 0));
    put_u16_le(&mut b, len16_of(shell.len() - 2, 0));
    put_u16_le(&mut b, len16_of(workdir.len() - 2, 0));
    put_bytes(&mut b, domain.as_slice());
    put_bytes(&mut b, username.as_slice());
    put_bytes(&mut b, password.as_slice());
    put_bytes(&mut b, shell.as_slice());
    put_bytes(&mut b, workdir.as_slice());
    let addr: [u8; 16] = [0x30, 0, 0x2e, 0, 0x30, 0, 0x2e, 0, 0x30, 0, 0x2e, 0, 0x30, 0, 0, 0];
    proof {
        assert(addr@ =~= client_address());
    }
    put_u16_le(&mut b, 2);
    put_u16_le(&mut b, 16);
    put_bytes(&mut b, &addr);
    put_u16_le(&mut b, 2);
    put_u16_le(&mut b, 0);
    put_zeros(&mut b, TIMEZONE_LEN);
    put_u32_le(&mut b, 0);
    put_u32_le(&mut b, 0);
    put_u16_le(&mut b, 0);
    proof {
        assert(le16(0) =~= seq![0u8, 0u8]);
        assert(b@ =~= spec_client_info(*info, autologon));
    }
    b
}

} // verus!
