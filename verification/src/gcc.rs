//! GCC user-data blocks: the client and server data blocks carried inside the
//! GCC ConferenceCreate PDUs. Each block is a `TS_UD_HEADER` (type u16 LE,
//! length u16 LE including the header) followed by a little-endian body.

use vstd::prelude::*;
use vstd::utf8::encode_utf8;
use crate::mcs::per::{self, spec_read_length};
use crate::nla::crypto::unicode;
use crate::text::spec_unicode;
use crate::wire::{
    concat, find, find_from, fit, get_le16, le16, le32, len16, len16_of, len32_of,
    lemma_find_from_props, put_bytes, put_fit, put_u16_le, put_u32_le, put_u8, put_zeros,
    read_u16_le, slice_range, zeros,
};
use crate::{Error, Result};

verus! {

/// Client core data block type.
pub const CS_CORE: u16 = 0xC001;
/// Client security data block type.
pub const CS_SECURITY: u16 = 0xC002;
/// Client network data block type.
pub const CS_NET: u16 = 0xC003;
/// Client cluster data block type.
pub const CS_CLUSTER: u16 = 0xC004;
/// Server core data block type.
pub const SC_CORE: u16 = 0x0C01;
/// Server security data block type.
pub const SC_SECURITY: u16 = 0x0C02;
/// Server network data block type.
pub const SC_NET: u16 = 0x0C03;
/// Client multitransport data block type.
pub const CS_MULTITRANSPORT: u16 = 0xC00A;

/// A TS_UD block: type, total length (including the 4-byte header), body.
pub open spec fn spec_ud_block(block_type: u16, body: Seq<u8>) -> Seq<u8> {
    le16(block_type) + le16(len16(body.len(), 4)) + body
}

/// Emit a TS_UD block.
pub fn ud_block(block_type: u16, body: &[u8]) -> (r: Vec<u8>)
    ensures
        r@ == spec_ud_block(block_type, body@),
{
    let mut out: Vec<u8> = Vec::new();
    put_u16_le(&mut out, block_type);
    put_u16_le(&mut out, len16_of(body.len(), 4));
    put_bytes(&mut out, body);
    out
}

/// TS_UD_CS_CORE.
#[derive(Clone, Debug)]
pub struct ClientCoreData {
    pub desktop_width: u16,
    pub desktop_height: u16,
    pub client_name: String,
    pub keyboard_layout: u32,
    pub client_build: u32,
    /// The protocol selected during X.224 negotiation (echoed back here).
    pub server_selected_protocol: u32,
    /// RNS_UD_CS_* early capability flags.
    pub early_capability_flags: u16,
}

impl Default for ClientCoreData {
    fn default() -> (r: ClientCoreData)
        ensures
            r.desktop_width == 1024,
            r.desktop_height == 768,
            r.client_name@ == "FERROPIPE"@,
            r.keyboard_layout == 0x0409,
            r.client_build == 2600,
            r.server_selected_protocol == 0,
            r.early_capability_flags == 0x0007,
    {
        ClientCoreData {
            desktop_width: 1024,
            desktop_height: 768,
            client_name: "FERROPIPE".to_owned(),
            keyboard_layout: 0x0000_0409,
            client_build: 2600,
            server_selected_protocol: 0,
            early_capability_flags: 0x0007,  // SUPPORT_ERRINFO_PDU | WANT_32BPP_SESSION | SUPPORT_STATUSINFO_PDU
        }
    }
}

/// The body of a TS_UD_CS_CORE block.
pub open spec fn spec_core_body(c: ClientCoreData) -> Seq<u8> {
    spec_core_fields(
        c.desktop_width,
        c.desktop_height,
        c.client_name@,
        c.keyboard_layout,
        c.client_build,
        c.early_capability_flags,
        c.server_selected_protocol,
    )
}

/// The body of a TS_UD_CS_CORE block with these field values.
pub open spec fn spec_core_fields(
    width: u16,
    height: u16,
    client_name: Seq<char>,
    keyboard_layout: u32,
    client_build: u32,
    early_capability_flags: u16,
    selected_protocol: u32,
) -> Seq<u8> {
    le32(ClientCoreData::VERSION_RDP5) + le16(width) + le16(height) + le16(ClientCoreData::COLOR_8BPP)
        + le16(ClientCoreData::SAS_DEL) + le32(keyboard_layout) + le32(client_build) + fit(
        spec_unicode(client_name),
        32,
    ) + le32(4) + le32(0) + le32(12) + zeros(64) + le16(ClientCoreData::COLOR_8BPP) + le16(1) + le32(
        0,
    ) + le16(ClientCoreData::HIGH_COLOR_24BPP) + le16(ClientCoreData::SUPPORT_ALL_COLOR_DEPTHS)
        + le16(early_capability_flags) + zeros(64) + seq![0u8, 0u8] + le32(selected_protocol)
}

impl ClientCoreData {
    pub const VERSION_RDP5: u32 = 0x0008_0004;
    pub const COLOR_8BPP: u16 = 0xCA01;
    pub const COLOR_16BPP_565: u16 = 0xCA03;
    pub const SAS_DEL: u16 = 0xAA03;
    pub const HIGH_COLOR_24BPP: u16 = 0x0018;
    pub const SUPPORT_ALL_COLOR_DEPTHS: u16 = 0x000F;

    /// The TS_UD_CS_CORE block.
    pub fn encode(&self) -> (r: Vec<u8>)
        ensures
            r@ == spec_ud_block(CS_CORE, spec_core_body(*self)),
    {
        let mut b: Vec<u8> = Vec::new();
        put_u32_le(&mut b, Self::VERSION_RDP5);
        put_u16_le(&mut b, self.desktop_width);
        put_u16_le(&mut b, self.desktop_height);
        put_u16_le(&mut b, Self::COLOR_8BPP);
        put_u16_le(&mut b, Self::SAS_DEL);
        put_u32_le(&mut b, self.keyboard_layout);
        put_u32_le(&mut b, self.client_build);
        let name = unicode(self.client_name.as_str());
        put_fit(&mut b, name.as_slice(), 32);
        put_u32_le(&mut b, 4);
        put_u32_le(&mut b, 0);
        put_u32_le(&mut b, 12);
        put_zeros(&mut b, 64);
        put_u16_le(&mut b, Self::COLOR_8BPP);
        put_u16_le(&mut b, 1);
        put_u32_le(&mut b, 0);
        put_u16_le(&mut b, Self::HIGH_COLOR_24BPP);
        put_u16_le(&mut b, Self::SUPPORT_ALL_COLOR_DEPTHS);
        put_u16_le(&mut b, self.early_capability_flags);
        put_zeros(&mut b, 64);
        put_u8(&mut b, 0);
        put_u8(&mut b, 0);
        put_u32_le(&mut b, self.server_selected_protocol);
        proof {
            assert(b@ =~= spec_core_body(*self));
        }
        ud_block(CS_CORE, b.as_slice())
    }
}

/// TS_UD_CS_SEC: under TLS/NLA no RDP encryption is used.
pub fn client_security_data() -> (r: Vec<u8>)
    ensures
        r@ == spec_ud_block(CS_SECURITY, le32(0) + le32(0)),
{
    let mut b: Vec<u8> = Vec::new();
    put_u32_le(&mut b, 0);
    put_u32_le(&mut b, 0);
    ud_block(CS_SECURITY, b.as_slice())
}

/// One virtual channel definition (CHANNEL_DEF): 8-byte ASCII name + options.
#[derive(Clone, Debug)]
pub struct ChannelDef {
    pub name: String,
    pub options: u32,
}

/// The CHANNEL_DEF entries of `channels`, concatenated.
pub open spec fn spec_channel_defs(channels: Seq<ChannelDef>) -> Seq<u8>
    decreases channels.len(),
{
    if channels.len() == 0 {
        Seq::empty()
    } else {
        spec_channel_defs(channels.drop_last()) + fit(encode_utf8(channels.last().name@), 8) + le32(
            channels.last().options,
        )
    }
}

/// TS_UD_CS_NET.
pub fn client_network_data(channels: &[ChannelDef]) -> (r: Vec<u8>)
    ensures
        r@ == spec_ud_block(
            CS_NET,
            le32((channels.len() as nat % 0x1_0000_0000) as u32) + spec_channel_defs(channels@),
        ),
{
    let mut b: Vec<u8> = Vec::new();
    put_u32_le(&mut b, len32_of(channels.len()));
    let ghost head = b@;
    let mut i: usize = 0;
    while i < channels.len()
        invariant
            i <= channels.len(),
            b@ == head + spec_channel_defs(channels@.subrange(0, i as int)),
        decreases channels.len() - i,
    {
        let ch = &channels[i];
        put_fit(&mut b, ch.name.as_str().as_bytes(), 8);
        put_u32_le(&mut b, ch.options);
        assert(channels@.subrange(0, i + 1).drop_last() =~= channels@.subrange(0, i as int));
        i = i + 1;
    }
    assert(channels@.subrange(0, channels.len() as int) =~= channels@);
    ud_block(CS_NET, b.as_slice())
}

/// TS_UD_CS_MULTITRANSPORTCHANNELDATA: advertise UDP multitransport support.
pub fn client_multitransport_data(flags: u32) -> (r: Vec<u8>)
    ensures
        r@ == spec_ud_block(CS_MULTITRANSPORT, le32(flags)),
{
    let mut b: Vec<u8> = Vec::new();
    put_u32_le(&mut b, flags);
    ud_block(CS_MULTITRANSPORT, b.as_slice())
}

/// TS_UD_CS_CLUSTER: REDIRECTION_SUPPORTED, redirection version 4.
pub fn client_cluster_data() -> (r: Vec<u8>)
    ensures
        r@ == spec_ud_block(CS_CLUSTER, le32(0x0D) + le32(0)),
{
    let mut b: Vec<u8> = Vec::new();
    put_u32_le(&mut b, 0x0000_000D);
    put_u32_le(&mut b, 0);
    ud_block(CS_CLUSTER, b.as_slice())
}

/// The T.124 ConnectData prefix: Key = OID {0 0 20 124 0 1}.
pub open spec fn gcc_connect_data_prefix() -> Seq<u8> {
    seq![0x00u8, 0x05, 0x00, 0x14, 0x7c, 0x00, 0x01]
}

/// The ConnectGCCPDU header up to the H.221 key.
pub open spec fn gcc_ccr_header() -> Seq<u8> {
    seq![0x00u8, 0x08, 0x00, 0x10, 0x00, 0x01, 0xc0, 0x00]
}

/// The client H.221 non-standard key `"Duca"`.
pub open spec fn h221_client_key() -> Seq<u8> {
    seq![0x44u8, 0x75, 0x63, 0x61]
}

/// The server H.221 non-standard key `"McDn"`.
pub open spec fn h221_server_key() -> Seq<u8> {
    seq![0x4du8, 0x63, 0x44, 0x6e]
}

/// The GCC ConferenceCreateRequest wrapping `blocks`.
pub open spec fn spec_conference_create_request(blocks: Seq<u8>) -> Seq<u8> {
    let gcc = gcc_ccr_header() + h221_client_key() + per::spec_length(blocks.len()) + blocks;
    gcc_connect_data_prefix() + per::spec_length(gcc.len()) + gcc
}

/// Wrap concatenated client `data_blocks` in a GCC ConferenceCreateRequest.
pub fn conference_create_request(data_blocks: &[u8]) -> (r: Vec<u8>)
    requires
        data_blocks.len() <= usize::MAX - 20,
    ensures
        r@ == spec_conference_create_request(data_blocks@),
{
    let header: [u8; 8] = [0x00, 0x08, 0x00, 0x10, 0x00, 0x01, 0xc0, 0x00];
    let key: [u8; 4] = [0x44, 0x75, 0x63, 0x61];
    let prefix: [u8; 7] = [0x00, 0x05, 0x00, 0x14, 0x7c, 0x00, 0x01];
    proof {
        assert(header@ =~= gcc_ccr_header());
        assert(key@ =~= h221_client_key());
        assert(prefix@ =~= gcc_connect_data_prefix());
    }
    let mut gcc: Vec<u8> = Vec::new();
    put_bytes(&mut gcc, &header);
    put_bytes(&mut gcc, &key);
    per::write_length(&mut gcc, data_blocks.len());
    put_bytes(&mut gcc, data_blocks);
    let mut out: Vec<u8> = Vec::new();
    put_bytes(&mut out, &prefix);
    per::write_length(&mut out, gcc.len());
    put_bytes(&mut out, gcc.as_slice());
    proof {
        assert(out@ =~= spec_conference_create_request(data_blocks@));
    }
    out
}

/// The server data blocks of a GCC ConferenceCreateResponse: the PER-length
/// prefixed bytes after the first `"McDn"` key.
pub open spec fn spec_parse_conference_create_response(gcc: Seq<u8>) -> Option<Seq<u8>> {
    match find_from(gcc, h221_server_key(), 0) {
        None => None,
        Some(pos) => {
            let rest = gcc.subrange(pos + 4, gcc.len() as int);
            match spec_read_length(rest) {
                None => None,
                Some((len, k)) => if rest.len() - k < len {
                    None
                } else {
                    Some(rest.subrange(k, k + len))
                },
            }
        },
    }
}

/// Extract the concatenated server data blocks from a GCC ConferenceCreateResponse.
pub fn parse_conference_create_response(gcc: &[u8]) -> (r: Result<&[u8]>)
    ensures
        r matches Ok(v) ==> spec_parse_conference_create_response(gcc@) == Some(v@),
        r is Err <==> spec_parse_conference_create_response(gcc@) is None,
        find_from(gcc@, h221_server_key(), 0) is None ==> crate::is_protocol(r),
{
    let key_bytes: [u8; 4] = [0x4d, 0x63, 0x44, 0x6e];
    let key: &[u8] = &key_bytes;
    proof {
        assert(key@ =~= h221_server_key());
    }
    let found = find(gcc, key);
    let pos = match found {
        Some(p) => p,
        None => {
            return Err(Error::Protocol("GCC response missing McDn key"));
        },
    };
    proof {
        assert(find_from(gcc@, key@, 0) == Some(pos as int));
        lemma_find_from_props(gcc@, key@, 0);
        assert(pos + key@.len() <= gcc@.len());
        assert(key@.len() == 4);
        assert(pos + 4 <= gcc.len());
    }
    let mut rest = slice_range(gcc, pos + 4, gcc.len());
    let ghost whole = rest@;
    let len = per::read_length(&mut rest)?;
    if rest.len() < len {
        return Err(Error::Short { need: len, have: rest.len() });
    }
    let v = slice_range(rest, 0, len);
    proof {
        let k = whole.len() - rest@.len();
        assert(v@ =~= whole.subrange(k, k + len));
    }
    Ok(v)
}

/// Parsed TS_UD_SC_NET: the I/O channel plus the joined virtual-channel IDs
/// the server assigned, in request order.
#[derive(Clone, Debug, Default, PartialEq, Eq)]
pub struct ServerNetworkData {
    pub io_channel_id: u16,
    pub channel_ids: Vec<u16>,
}

/// The I/O channel and channel IDs of an SC_NET block body.
pub open spec fn spec_parse_sc_net_body(body: Seq<u8>) -> Option<(u16, Seq<u16>)> {
    if body.len() < 4 {
        None
    } else {
        let count = get_le16(body, 2) as int;
        if body.len() < 4 + 2 * count {
            None
        } else {
            Some((get_le16(body, 0), Seq::new(count as nat, |i: int| get_le16(body, 4 + 2 * i))))
        }
    }
}

/// Walk the server data blocks to the first SC_NET block and parse it.
pub open spec fn spec_parse_server_network_data(buf: Seq<u8>) -> Option<(u16, Seq<u16>)>
    decreases buf.len(),
{
    if buf.len() < 4 {
        None
    } else {
        let len = get_le16(buf, 2) as int;
        if len < 4 || buf.len() < len {
            None
        } else if get_le16(buf, 0) == SC_NET {
            spec_parse_sc_net_body(buf.subrange(4, len))
        } else {
            spec_parse_server_network_data(buf.subrange(len, buf.len() as int))
        }
    }
}

/// Walk the concatenated server data blocks and extract SC_NET.
pub fn parse_server_network_data(server_user_data: &[u8]) -> (r: Result<ServerNetworkData>)
    ensures
        r matches Ok(v) ==> spec_parse_server_network_data(server_user_data@) == Some(
            (v.io_channel_id, v.channel_ids@),
        ),
        r is Err <==> spec_parse_server_network_data(server_user_data@) is None,
{
    let mut buf = server_user_data;
    while buf.len() >= 4
        invariant
            spec_parse_server_network_data(server_user_data@) == spec_parse_server_network_data(buf@),
        decreases buf.len(),
    {
        let block_type = read_u16_le(buf, 0);
        let len = read_u16_le(buf, 2) as usize;
        if len < 4 || buf.len() < len {
            return Err(Error::Protocol("bad SC data block length"));
        }
        if block_type == SC_NET {
            let body = slice_range(buf, 4, len);
            if body.len() < 4 {
                return Err(Error::Short { need: 4, have: body.len() });
            }
            let io_channel_id = read_u16_le(body, 0);
            let count = read_u16_le(body, 2) as usize;
            let mut channel_ids: Vec<u16> = Vec::new();
            let mut i: usize = 0;
            while i < count
                invariant
                    i <= count,
                    body.len() >= 4,
                    spec_parse_server_network_data(server_user_data@) == spec_parse_sc_net_body(body@),
                    count == get_le16(body@, 2),
                    channel_ids@.len() == i,
                    4 + 2 * i <= body.len(),
                    forall|j: int| 0 <= j < i ==> channel_ids@[j] == get_le16(body@, 4 + 2 * j),
                decreases count - i,
            {
                if body.len() - 4 - 2 * i < 2 {
                    return Err(Error::Short { need: 2, have: body.len() - 4 - 2 * i });
                }
                channel_ids.push(read_u16_le(body, 4 + 2 * i));
                i = i + 1;
            }
            proof {
                assert(channel_ids@ =~= Seq::new(count as nat, |j: int| get_le16(body@, 4 + 2 * j)));
            }
            return Ok(ServerNetworkData { io_channel_id, channel_ids });
        }
        buf = slice_range(buf, len, buf.len());
    }
    Err(Error::Protocol("SC_NET block not found"))
}

} // verus!
