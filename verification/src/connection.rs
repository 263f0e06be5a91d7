//! The connection sequence: Basic Settings Exchange, Channel Connection,
//! Client Info, licensing, capability exchange and finalization. It drives the
//! wire structures of `mcs`, `gcc`, `pdu`, `info` and `caps` over a
//! [`PduTransport`] that the caller supplies (a TLS transport, or a scripted
//! one in tests).
//!
//! What is sent is fixed by the pure builders here (`connect_initial_pdu`,
//! `client_capabilities`, `finalization_pdus`); how each reply is read is fixed
//! by the parsers they call.

use vstd::prelude::*;
use crate::caps::{
    activation_caps, bitmap_body, bitmap_cache_rev2_body, bitmap_cache_rev2_caps, bitmap_caps,
    bitmap_codecs_caps, brush_caps, color_cache_caps, confirm_active, control_caps, font_caps,
    frame_acknowledge_caps, general_body, general_caps, glyph_cache_caps, glyph_cache_definitions,
    input_body, input_caps, large_pointer_caps, multifragment_caps, offscreen_caps, order_body,
    order_caps, parse_demand_active, pointer_caps, share_caps, sound_caps, spec_capability_set,
    spec_parse_demand_active, surface_commands_caps, virtual_channel_caps, DemandActive,
    CAPSETTYPE_BITMAP_CODECS, CAPSETTYPE_FRAME_ACKNOWLEDGE, CAPSETTYPE_LARGE_POINTER,
    CAPSETTYPE_MULTIFRAGMENTUPDATE, CAPSETTYPE_SURFACE_COMMANDS, CAPSTYPE_ACTIVATION,
    CAPSTYPE_BITMAP, CAPSTYPE_BITMAPCACHE_REV2, CAPSTYPE_BRUSH, CAPSTYPE_COLORCACHE,
    CAPSTYPE_CONTROL, CAPSTYPE_FONT, CAPSTYPE_GENERAL, CAPSTYPE_GLYPHCACHE, CAPSTYPE_INPUT,
    CAPSTYPE_OFFSCREENCACHE, CAPSTYPE_ORDER, CAPSTYPE_POINTER, CAPSTYPE_SHARE, CAPSTYPE_SOUND,
    CAPSTYPE_VIRTUALCHANNEL,
};
use crate::gcc::{
    client_cluster_data, client_multitransport_data, client_network_data, client_security_data,
    conference_create_request, parse_conference_create_response, parse_server_network_data,
    spec_channel_defs, spec_conference_create_request, spec_core_fields,
    spec_parse_conference_create_response, spec_parse_server_network_data, spec_ud_block, ChannelDef,
    ClientCoreData, ServerNetworkData, CS_CLUSTER, CS_CORE, CS_MULTITRANSPORT, CS_NET, CS_SECURITY,
};
use crate::info::{client_info, LogonInfo};
use crate::mcs::connect::{connect_initial, parse_connect_response, spec_connect_initial, spec_parse_connect_response};
use crate::mcs::domain::{
    attach_user_request, channel_join_request, erect_domain_request, parse_attach_user_confirm,
    parse_channel_join_confirm, parse_send_data_indication, send_data_request,
    attach_initiator_in_range, spec_channel_join_request, spec_parse_attach_user_confirm,
    spec_parse_channel_join_confirm, spec_parse_send_data_indication, spec_send_data_request, IO_CHANNEL,
    MCS_BASE,
};
use crate::multitransport::{spec_detect, InitiateRequest, TRANSPORTTYPE_UDPFECR, TRANSPORTTYPE_UDP_PREFERRED};
use crate::pdu::{
    control, font_list, parse_share_control, parse_share_data, share_data, spec_share_data, synchronize,
    CTRLACTION_COOPERATE, CTRLACTION_REQUEST_CONTROL, PDUTYPE2_CONTROL, PDUTYPE2_FONTLIST,
    PDUTYPE2_SYNCHRONIZE, PDUTYPE_DEMANDACTIVE, spec_parse_share_control,
};
use crate::wire::{le16, le32, put_bytes, read_u16_be, views, zeros};
use crate::{is_protocol, is_short, Error, Result};

verus! {

/// Sends and receives MCS PDUs; the implementor does the X.224/TPKT framing.
pub trait PduTransport {
    /// Send one MCS PDU.
    fn send(&mut self, mcs_pdu: &[u8]) -> Result<()>;

    /// Receive the next MCS PDU.
    fn recv(&mut self) -> Result<Vec<u8>>;
}

/// Settings for establishing a session.
#[derive(Clone, Debug)]
pub struct SessionConfig {
    pub width: u16,
    pub height: u16,
    pub domain: String,
    pub username: String,
    /// Protocol selected during X.224 negotiation (echoed in CS_CORE).
    pub selected_protocol: u32,
    pub channels: Vec<ChannelDef>,
}

/// The negotiated result of the connection sequence.
#[derive(Clone, Debug)]
pub struct Session {
    pub user_id: u16,
    pub io_channel: u16,
    /// Joined virtual-channel IDs, in request order.
    pub channel_ids: Vec<u16>,
    pub share_id: u32,
    /// The server's Initiate Multitransport Request, if it offered a UDP sideband.
    pub multitransport_request: Option<InitiateRequest>,
}

/// Bound on how many stray PDUs to skip while waiting for an expected one.
pub const MAX_SKIP: usize = 16;

/// Multitransport flags this client advertises: reliable UDP, preferred.
pub const ADVERTISED_TRANSPORTS: u32 = 0x0000_0101;

/// The client data blocks of the Basic Settings Exchange for `cfg`: core,
/// security, network, cluster and multitransport.
pub open spec fn spec_client_blocks(cfg: SessionConfig) -> Seq<u8> {
    spec_ud_block(
        CS_CORE,
        spec_core_fields(cfg.width, cfg.height, "FERROPIPE"@, 0x0409, 2600, 0x0007, cfg.selected_protocol),
    ) + spec_ud_block(CS_SECURITY, le32(0) + le32(0)) + spec_ud_block(
        CS_NET,
        le32((cfg.channels.len() as nat % 0x1_0000_0000) as u32) + spec_channel_defs(cfg.channels@),
    ) + spec_ud_block(CS_CLUSTER, le32(0x0D) + le32(0)) + spec_ud_block(
        CS_MULTITRANSPORT,
        le32(ADVERTISED_TRANSPORTS),
    )
}

/// The MCS Connect Initial PDU for `cfg`.
pub open spec fn spec_connect_initial_pdu(cfg: SessionConfig) -> Seq<u8> {
    spec_connect_initial(spec_conference_create_request(spec_client_blocks(cfg)))
}

/// The I/O channel and virtual-channel IDs that an MCS Connect Response
/// carries in its server network data.
pub open spec fn spec_server_network(response: Seq<u8>) -> Option<(u16, Seq<u16>)> {
    match spec_parse_connect_response(response) {
        None => None,
        Some(gcc) => match spec_parse_conference_create_response(gcc) {
            None => None,
            Some(blocks) => spec_parse_server_network_data(blocks),
        },
    }
}

/// The virtual-channel IDs of the server network data in `response`, or none.
pub open spec fn network_ids(response: Seq<u8>) -> Seq<u16> {
    match spec_server_network(response) {
        Some((_, ids)) => ids,
        None => Seq::empty(),
    }
}

/// The IDs kept from the first `n` join confirmations: those confirming a
/// channel other than the user channel and the I/O channel.
pub open spec fn kept_joins(requested: Seq<u16>, confirmed: Seq<u16>, user_id: u16, n: nat) -> Seq<u16>
    decreases n,
{
    if n == 0 {
        Seq::empty()
    } else {
        let prev = kept_joins(requested, confirmed, user_id, (n - 1) as nat);
        let c = requested[n - 1];
        if c != user_id && c != IO_CHANNEL {
            prev.push(confirmed[n - 1])
        } else {
            prev
        }
    }
}

/// The capability sets of the Confirm Active PDU: the full standard set, plus
/// the virtual channel set when channels are requested.
pub open spec fn spec_client_caps(width: u16, height: u16, with_channels: bool) -> Seq<Seq<u8>> {
    let base = seq![
        spec_capability_set(CAPSTYPE_GENERAL, general_body()),
        spec_capability_set(CAPSTYPE_BITMAP, bitmap_body(width, height)),
        spec_capability_set(CAPSTYPE_ORDER, order_body()),
        spec_capability_set(CAPSTYPE_BITMAPCACHE_REV2, bitmap_cache_rev2_body()),
        spec_capability_set(CAPSTYPE_COLORCACHE, le16(6) + le16(0)),
        spec_capability_set(CAPSTYPE_ACTIVATION, zeros(8)),
        spec_capability_set(CAPSTYPE_CONTROL, le16(0) + le16(0) + le16(2) + le16(2)),
        spec_capability_set(CAPSTYPE_POINTER, le16(1) + le16(25) + le16(25)),
        spec_capability_set(CAPSTYPE_SHARE, le16(0) + le16(0)),
        spec_capability_set(CAPSTYPE_INPUT, input_body(0x0409)),
        spec_capability_set(CAPSTYPE_SOUND, le16(1) + le16(0)),
        spec_capability_set(CAPSTYPE_FONT, le16(1) + le16(0)),
        spec_capability_set(CAPSTYPE_BRUSH, le32(2)),
        spec_capability_set(
            CAPSTYPE_GLYPHCACHE,
            glyph_cache_definitions() + le32(0x0100_0100) + le16(0) + le16(0),
        ),
        spec_capability_set(CAPSTYPE_OFFSCREENCACHE, le32(0) + le16(0) + le16(0)),
        spec_capability_set(CAPSETTYPE_MULTIFRAGMENTUPDATE, le32(0x0009_482b)),
        spec_capability_set(CAPSETTYPE_LARGE_POINTER, le16(0x0003)),
        spec_capability_set(CAPSETTYPE_SURFACE_COMMANDS, le32(0x52) + le32(0)),
        spec_capability_set(CAPSETTYPE_BITMAP_CODECS, seq![0x00u8]),
        spec_capability_set(CAPSETTYPE_FRAME_ACKNOWLEDGE, le32(2)),
    ];
    if with_channels {
        base.push(spec_capability_set(CAPSTYPE_VIRTUALCHANNEL, le32(0) + le32(1600)))
    } else {
        base
    }
}

/// The client's finalization data PDUs: Synchronize, Control (cooperate),
/// Control (request control) and Font List.
pub open spec fn spec_finalization_pdus(user_id: u16, share_id: u32) -> Seq<Seq<u8>> {
    seq![
        spec_share_data(user_id, share_id, PDUTYPE2_SYNCHRONIZE, le16(1) + le16(IO_CHANNEL)),
        spec_share_data(
            user_id,
            share_id,
            PDUTYPE2_CONTROL,
            le16(CTRLACTION_COOPERATE) + le16(0) + le32(0),
        ),
        spec_share_data(
            user_id,
            share_id,
            PDUTYPE2_CONTROL,
            le16(CTRLACTION_REQUEST_CONTROL) + le16(0) + le32(0),
        ),
        spec_share_data(
            user_id,
            share_id,
            PDUTYPE2_FONTLIST,
            le16(0) + le16(0) + le16(0x0003) + le16(0x0032),
        ),
    ]
}

/// The MCS Connect Initial PDU (with the GCC client data blocks) that opens
/// the Basic Settings Exchange. The bound on the channel count holds of any
/// channel list in memory: a `ChannelDef` takes at least 16 bytes.
pub fn connect_initial_pdu(cfg: &SessionConfig) -> (r: Vec<u8>)
    requires
        cfg.channels.len() <= usize::MAX / 16,
    ensures
        r@ == spec_connect_initial_pdu(*cfg),
{
    let core = ClientCoreData {
        desktop_width: cfg.width,
        desktop_height: cfg.height,
        server_selected_protocol: cfg.selected_protocol,
        ..Default::default()
    };
    let mut blocks = core.encode();
    let security = client_security_data();
    put_bytes(&mut blocks, security.as_slice());
    let network = client_network_data(cfg.channels.as_slice());
    put_bytes(&mut blocks, network.as_slice());
    let cluster = client_cluster_data();
    put_bytes(&mut blocks, cluster.as_slice());
    assert(TRANSPORTTYPE_UDPFECR | TRANSPORTTYPE_UDP_PREFERRED == ADVERTISED_TRANSPORTS) by (bit_vector);
    let multitransport = client_multitransport_data(TRANSPORTTYPE_UDPFECR | TRANSPORTTYPE_UDP_PREFERRED);
    put_bytes(&mut blocks, multitransport.as_slice());
    proof {
        assert(blocks@ =~= spec_client_blocks(*cfg));
        lemma_client_blocks_len(*cfg);
        let n = cfg.channels.len();
        assert(12 * n <= 12 * (usize::MAX / 16)) by (nonlinear_arith)
            requires
                n <= usize::MAX / 16,
        ;
    }
    let ccr = conference_create_request(blocks.as_slice());
    connect_initial(ccr.as_slice())
}

/// Each channel definition takes 12 bytes.
proof fn lemma_channel_defs_len(channels: Seq<ChannelDef>)
    ensures
        spec_channel_defs(channels).len() == 12 * channels.len(),
    decreases channels.len(),
{
    if channels.len() > 0 {
        lemma_channel_defs_len(channels.drop_last());
    }
}

/// The client data blocks take 236 bytes plus 12 per channel.
proof fn lemma_client_blocks_len(cfg: SessionConfig)
    ensures
        spec_client_blocks(cfg).len() == 256 + 12 * cfg.channels.len(),
{
    lemma_channel_defs_len(cfg.channels@);
}

/// The server network data carried by an MCS Connect Response.
pub fn server_network_from(response: &[u8]) -> (r: Result<ServerNetworkData>)
    ensures
        r matches Ok(v) ==> spec_server_network(response@) == Some((v.io_channel_id, v.channel_ids@)),
        r is Err <==> spec_server_network(response@) is None,
{
    let gcc_response = parse_connect_response(response)?;
    let server_blocks = parse_conference_create_response(gcc_response)?;
    parse_server_network_data(server_blocks)
}

/// Send MCS Connect Initial (with the GCC client data blocks) and parse the
/// server's network data out of the Connect Response.
pub fn basic_settings_exchange<T: PduTransport>(t: &mut T, cfg: &SessionConfig) -> (r: Result<
    ServerNetworkData,
>)
    requires
        cfg.channels.len() <= usize::MAX / 16,
    ensures
        r matches Ok(v) ==> exists|response: Seq<u8>|
            spec_server_network(response) == Some((v.io_channel_id, v.channel_ids@)),
{
    let pdu = connect_initial_pdu(cfg);
    t.send(pdu.as_slice())?;
    let response = t.recv()?;
    let net = server_network_from(response.as_slice())?;
    assert(spec_server_network(response@) == Some((net.io_channel_id, net.channel_ids@)));
    Ok(net)
}

/// Join one channel and return the ID the server confirmed.
fn join_channel<T: PduTransport>(t: &mut T, user_id: u16, channel: u16) -> (r: Result<u16>)
    requires
        user_id >= MCS_BASE,
{
    let request = channel_join_request(user_id, channel);
    t.send(request.as_slice())?;
    let reply = t.recv()?;
    parse_channel_join_confirm(reply.as_slice())
}

/// The user channel an Attach User Confirm assigns. A confirm whose
/// initiator does not leave room for the channel offset in 16 bits is refused.
pub fn user_channel(confirm: &[u8]) -> (r: Result<u16>)
    ensures
        !attach_initiator_in_range(confirm@) ==> is_protocol(r),
        attach_initiator_in_range(confirm@) ==> {
            &&& r matches Ok(v) ==> spec_parse_attach_user_confirm(confirm@) == Some(v)
            &&& r is Err <==> spec_parse_attach_user_confirm(confirm@) is None
        },
        r matches Ok(v) ==> v >= MCS_BASE,
{
    if confirm.len() >= 4 && read_u16_be(confirm, 2) > u16::MAX - MCS_BASE {
        return Err(Error::Protocol("user channel out of range"));
    }
    parse_attach_user_confirm(confirm)
}

/// The order in which channels are joined: the user channel, the I/O channel,
/// then the virtual channels the server assigned.
pub open spec fn join_order(user_id: u16, ids: Seq<u16>) -> Seq<u16> {
    seq![user_id, IO_CHANNEL] + ids
}

/// The decisions of the Channel Connection phase, one confirm at a time: which
/// Channel Join Request goes out next and which confirmed IDs are kept.
pub struct ChannelJoiner {
    /// The user channel the Attach User Confirm assigned.
    pub user_id: u16,
    /// The channels to join, in order (see [`join_order`]).
    pub channels: Vec<u16>,
    /// The index in `channels` whose confirm is awaited.
    pub next: usize,
    /// The confirmed IDs kept so far: those of channels other than the user
    /// and I/O channels, in request order.
    pub joined: Vec<u16>,
}

impl ChannelJoiner {
    /// Whether the joiner is waiting for a confirm.
    pub open spec fn awaiting(&self) -> bool {
        &&& self.user_id >= MCS_BASE
        &&& self.next < self.channels.len()
    }

    /// Start joining once the Attach User Confirm `confirm` arrived: gives the
    /// joiner and the first Channel Join Request (for the user channel).
    pub fn start(confirm: &[u8], ids: &[u16]) -> (r: Result<(ChannelJoiner, Vec<u8>)>)
        ensures
            !attach_initiator_in_range(confirm@) ==> is_protocol(r),
            attach_initiator_in_range(confirm@) ==> (r is Err <==> spec_parse_attach_user_confirm(
                confirm@,
            ) is None),
            r matches Ok((j, request)) ==> {
                &&& spec_parse_attach_user_confirm(confirm@) == Some(j.user_id)
                &&& j.awaiting()
                &&& j.channels@ == join_order(j.user_id, ids@)
                &&& j.next == 0
                &&& j.joined@ == Seq::<u16>::empty()
                &&& request@ == spec_channel_join_request(j.user_id, j.user_id)
            },
    {
        let user_id = user_channel(confirm)?;
        let mut channels: Vec<u16> = Vec::new();
        channels.push(user_id);
        channels.push(IO_CHANNEL);
        let mut i: usize = 0;
        while i < ids.len()
            invariant
                i <= ids.len(),
                channels@ == join_order(user_id, ids@.subrange(0, i as int)),
            decreases ids.len() - i,
        {
            channels.push(ids[i]);
            proof {
                assert(join_order(user_id, ids@.subrange(0, i + 1)) =~= join_order(
                    user_id,
                    ids@.subrange(0, i as int),
                ).push(ids@[i as int]));
            }
            i = i + 1;
        }
        assert(ids@.subrange(0, ids.len() as int) =~= ids@);
        let request = channel_join_request(user_id, user_id);
        Ok((ChannelJoiner { user_id, channels, next: 0, joined: Vec::new() }, request))
    }

    /// Take the Channel Join Confirm for `channels[next]`. A reply that is not a
    /// successful confirm is that error, and the joiner is left as it was.
    /// Otherwise the confirmed ID is kept unless the channel is the user or
    /// I/O channel, and the result is the request for the next channel, or
    /// none when every channel is joined.
    pub fn on_confirm(&mut self, reply: &[u8]) -> (r: Result<Option<Vec<u8>>>)
        requires
            old(self).awaiting(),
        ensures
            final(self).user_id == old(self).user_id,
            final(self).channels@ == old(self).channels@,
            spec_parse_channel_join_confirm(reply@) is None ==> r is Err && *final(self) == *old(self),
            spec_parse_channel_join_confirm(reply@) is None && reply.len() < 2 ==> is_short(r, 2, reply.len() as int),
            spec_parse_channel_join_confirm(reply@) matches Some(id) ==> {
                let c = old(self).channels@[old(self).next as int];
                &&& final(self).next == old(self).next + 1
                &&& final(self).joined@ == if c != old(self).user_id && c != IO_CHANNEL {
                    old(self).joined@.push(id)
                } else {
                    old(self).joined@
                }
                &&& if final(self).next < final(self).channels.len() {
                    r matches Ok(Some(request)) && request@ == spec_channel_join_request(
                        old(self).user_id,
                        old(self).channels@[final(self).next as int],
                    )
                } else {
                    r matches Ok(None)
                }
            },
    {
        let id = parse_channel_join_confirm(reply)?;
        let channel = self.channels[self.next];
        if channel != self.user_id && channel != IO_CHANNEL {
            self.joined.push(id);
        }
        self.next = self.next + 1;
        if self.next < self.channels.len() {
            Ok(Some(channel_join_request(self.user_id, self.channels[self.next])))
        } else {
            Ok(None)
        }
    }
}

/// Erect the domain, attach the user, and join the user, I/O and virtual
/// channels. Returns the user channel and the IDs confirmed for the channels
/// other than the user and I/O channels, in request order. Each join is driven
/// by [`ChannelJoiner`].
pub fn channel_connection<T: PduTransport>(
    t: &mut T,
    cfg: &SessionConfig,
    server_net: &ServerNetworkData,
) -> (r: Result<(u16, Vec<u16>)>)
    ensures
        r matches Ok((user_id, joined)) ==> {
            &&& user_id >= MCS_BASE
            &&& exists|attach: Seq<u8>| spec_parse_attach_user_confirm(attach) == Some(user_id)
            &&& exists|confirmed: Seq<u16>|
                confirmed.len() == server_net.channel_ids.len() && joined@ == kept_joins(
                    server_net.channel_ids@,
                    confirmed,
                    user_id,
                    server_net.channel_ids.len() as nat,
                )
        },
{
    let erect = erect_domain_request();
    t.send(erect.as_slice())?;
    let attach = attach_user_request();
    t.send(attach.as_slice())?;
    let confirm = t.recv()?;
    let ids = &server_net.channel_ids;
    let (mut joiner, first) = ChannelJoiner::start(confirm.as_slice(), ids.as_slice())?;
    let user_id = joiner.user_id;
    assert(spec_parse_attach_user_confirm(confirm@) == Some(user_id));
    let mut request = first;
    let ghost mut confirmed: Seq<u16> = Seq::empty();
    loop
        invariant_except_break
            joiner.awaiting(),
        invariant
            user_id >= MCS_BASE,
            joiner.next <= joiner.channels.len(),
            joiner.user_id == user_id,
            joiner.channels@ == join_order(user_id, ids@),
            joiner.next <= 2 ==> confirmed.len() == 0 && joiner.joined@ == Seq::<u16>::empty(),
            joiner.next >= 2 ==> confirmed.len() == joiner.next - 2 && joiner.joined@ == kept_joins(
                ids@,
                confirmed,
                user_id,
                (joiner.next - 2) as nat,
            ),
        ensures
            joiner.next == joiner.channels.len(),
        decreases joiner.channels.len() - joiner.next,
    {
        t.send(request.as_slice())?;
        let reply = t.recv()?;
        let ghost before = joiner;
        let step = joiner.on_confirm(reply.as_slice())?;
        proof {
            let id = spec_parse_channel_join_confirm(reply@)->0;
            if before.next >= 2 {
                let c2 = confirmed.push(id);
                lemma_kept_joins_prefix(ids@, confirmed, c2, user_id, (before.next - 2) as nat);
                assert(before.channels@[before.next as int] == ids@[before.next - 2]);
                confirmed = c2;
            } else {
                assert(before.channels@[before.next as int] == user_id || before.channels@[before.next as int]
                    == IO_CHANNEL);
            }
        }
        match step {
            Some(next) => {
                request = next;
            },
            None => {
                break;
            },
        }
    }
    Ok((user_id, joiner.joined))
}

/// `kept_joins` over the first `n` entries reads only the first `n`
/// confirmations.
proof fn lemma_kept_joins_prefix(requested: Seq<u16>, a: Seq<u16>, b: Seq<u16>, user_id: u16, n: nat)
    requires
        n <= a.len(),
        n <= b.len(),
        forall|i: int| 0 <= i < n ==> a[i] == b[i],
    ensures
        kept_joins(requested, a, user_id, n) == kept_joins(requested, b, user_id, n),
    decreases n,
{
    if n > 0 {
        lemma_kept_joins_prefix(requested, a, b, user_id, (n - 1) as nat);
    }
}

/// Send a PDU on the I/O channel, wrapped in a Send Data Request.
fn send_on_io<T: PduTransport>(t: &mut T, user_id: u16, pdu: &[u8]) -> (r: Result<()>)
    requires
        user_id >= MCS_BASE,
{
    let framed = send_data_request(user_id, IO_CHANNEL, pdu);
    t.send(framed.as_slice())
}

/// Send the Client Info PDU (credentials empty under NLA).
pub fn send_client_info<T: PduTransport>(t: &mut T, user_id: u16, cfg: &SessionConfig) -> (r: Result<()>)
    requires
        user_id >= MCS_BASE,
{
    let logon = LogonInfo {
        domain: cfg.domain.clone(),
        username: cfg.username.clone(),
        password: String::new(),
        alternate_shell: String::new(),
        working_dir: String::new(),
    };
    let info = client_info(&logon, false);
    send_on_io(t, user_id, info.as_slice())
}

/// What one PDU received on the I/O channel while waiting for the Demand
/// Active does.
#[derive(Clone, Debug)]
pub enum DemandStep {
    /// The Demand Active arrived.
    Demand(DemandActive),
    /// A Server Initiate Multitransport Request, to be noted.
    Multitransport(InitiateRequest),
    /// Anything else (licensing, deactivation, ...), skipped.
    Skip,
}

/// Classify a PDU received while waiting for the Demand Active: a share
/// control PDU of type Demand Active is parsed; any other share control PDU
/// is skipped; a PDU that is not a share control PDU is a Server Initiate
/// Multitransport Request when it is recognised as one and none was `noted`
/// before, and is skipped otherwise.
pub fn demand_step(pdu: &[u8], noted: bool) -> (r: Result<DemandStep>)
    ensures
        match spec_parse_share_control(pdu@) {
            Some((hdr, body)) => if hdr.pdu_type == PDUTYPE_DEMANDACTIVE {
                match spec_parse_demand_active(body) {
                    Some(d) => r matches Ok(DemandStep::Demand(v)) && v@ == d,
                    None => r is Err && (body.len() < 8 ==> is_short(r, 8, body.len() as int)),
                }
            } else {
                r matches Ok(DemandStep::Skip)
            },
            None => if !noted && spec_detect(pdu@) is Some {
                r matches Ok(DemandStep::Multitransport(m)) && spec_detect(pdu@) == Some(m.fields())
            } else {
                r matches Ok(DemandStep::Skip)
            },
        },
{
    match parse_share_control(pdu) {
        Ok((hdr, body)) => {
            if hdr.pdu_type == PDUTYPE_DEMANDACTIVE {
                let d = parse_demand_active(body)?;
                Ok(DemandStep::Demand(d))
            } else {
                Ok(DemandStep::Skip)
            }
        },
        Err(_) => {
            if noted {
                return Ok(DemandStep::Skip);
            }
            match InitiateRequest::detect(pdu) {
                Some(req) => Ok(DemandStep::Multitransport(req)),
                None => Ok(DemandStep::Skip),
            }
        },
    }
}

/// Whether the PDU that makes `reads` reads in all ended the wait without a
/// Demand Active: the `MAX_SKIP`-th read gives up with a protocol error.
pub open spec fn skip_result(r: Result<Option<DemandActive>>, reads: usize) -> bool {
    if reads + 1 >= MAX_SKIP {
        is_protocol(r)
    } else {
        r matches Ok(None)
    }
}

/// The decisions of the wait for the Demand Active, one received MCS PDU at a
/// time. Nothing is ever sent while waiting.
pub struct DemandWaiter {
    /// How many PDUs were read so far.
    pub reads: usize,
}

impl DemandWaiter {
    /// Take the next MCS PDU. It must be a Send Data Indication; its payload is
    /// classified as by [`demand_step`]. The Demand Active is returned; a
    /// Server Initiate Multitransport Request is noted in `multitransport` when
    /// none was before; anything else is skipped, and the `MAX_SKIP`-th
    /// skipped PDU ends the wait with a protocol error.
    pub fn on_pdu(&mut self, mcs: &[u8], multitransport: &mut Option<InitiateRequest>) -> (r: Result<
        Option<DemandActive>,
    >)
        requires
            old(self).reads < MAX_SKIP,
        ensures
            spec_parse_send_data_indication(mcs@) is None ==> r is Err && final(self).reads == old(self).reads
                && *final(multitransport) == *old(multitransport),
            spec_parse_send_data_indication(mcs@) is None && mcs.len() == 0 ==> is_short(r, 1, 0),
            spec_parse_send_data_indication(mcs@) matches Some((_, pdu)) ==> {
                &&& final(self).reads == old(self).reads + 1
                &&& match spec_parse_share_control(pdu) {
                    Some((hdr, body)) => {
                        &&& *final(multitransport) == *old(multitransport)
                        &&& if hdr.pdu_type == PDUTYPE_DEMANDACTIVE {
                            match spec_parse_demand_active(body) {
                                Some(d) => r matches Ok(Some(v)) && v@ == d,
                                None => r is Err && (body.len() < 8 ==> is_short(r, 8, body.len() as int)),
                            }
                        } else {
                            skip_result(r, old(self).reads)
                        }
                    },
                    None => {
                        &&& skip_result(r, old(self).reads)
                        &&& if *old(multitransport) is None && spec_detect(pdu) is Some {
                            *final(multitransport) matches Some(m) && spec_detect(pdu) == Some(m.fields())
                        } else {
                            *final(multitransport) == *old(multitransport)
                        }
                    },
                }
            },
    {
        let (_channel, pdu) = parse_send_data_indication(mcs)?;
        self.reads = self.reads + 1;
        match demand_step(pdu, multitransport.is_some())? {
            DemandStep::Demand(d) => {
                return Ok(Some(d));
            },
            DemandStep::Multitransport(req) => {
                *multitransport = Some(req);
            },
            DemandStep::Skip => {},
        }
        if self.reads >= MAX_SKIP {
            Err(Error::Protocol("no Demand Active PDU received"))
        } else {
            Ok(None)
        }
    }
}

/// Skip licensing and other PDUs until the server's Demand Active arrives,
/// noting a Server Initiate Multitransport Request on the way if none was
/// noted before. Gives up after `MAX_SKIP` PDUs. Each PDU is handled by
/// [`DemandWaiter::on_pdu`]; nothing is sent.
pub fn wait_for_demand_active<T: PduTransport>(
    t: &mut T,
    multitransport: &mut Option<InitiateRequest>,
) -> (r: Result<DemandActive>)
    ensures
        r matches Ok(d) ==> exists|pdu: Seq<u8>|
            #[trigger] spec_parse_share_control(pdu) matches Some((hdr, body)) && hdr.pdu_type
                == PDUTYPE_DEMANDACTIVE && spec_parse_demand_active(body) == Some(d@),
        *old(multitransport) is Some ==> *final(multitransport) == *old(multitransport),
        *old(multitransport) is None ==> (*final(multitransport) matches Some(m) ==> exists|pdu: Seq<u8>|
            spec_detect(pdu) == Some(m.fields())),
{
    let mut waiter = DemandWaiter { reads: 0 };
    loop
        invariant
            waiter.reads < MAX_SKIP,
            *old(multitransport) is Some ==> *multitransport == *old(multitransport),
            *old(multitransport) is None ==> (*multitransport matches Some(m) ==> exists|pdu: Seq<u8>|
                spec_detect(pdu) == Some(m.fields())),
        decreases MAX_SKIP - waiter.reads,
    {
        let mcs = t.recv()?;
        let got = waiter.on_pdu(mcs.as_slice(), multitransport)?;
        match got {
            Some(d) => {
                return Ok(d);
            },
            None => {},
        }
    }
}

/// The capability sets this client confirms.
#[verifier::rlimit(60)]
pub fn client_capabilities(cfg: &SessionConfig) -> (r: Vec<Vec<u8>>)
    ensures
        views(r@) == spec_client_caps(cfg.width, cfg.height, cfg.channels.len() > 0),
{
    let mut caps: Vec<Vec<u8>> = Vec::new();
    caps.push(general_caps());
    caps.push(bitmap_caps(cfg.width, cfg.height));
    caps.push(order_caps());
    caps.push(bitmap_cache_rev2_caps());
    caps.push(color_cache_caps());
    caps.push(activation_caps());
    caps.push(control_caps());
    caps.push(pointer_caps());
    caps.push(share_caps());
    caps.push(input_caps(0x0000_0409));
    caps.push(sound_caps());
    caps.push(font_caps());
    caps.push(brush_caps());
    caps.push(glyph_cache_caps());
    caps.push(offscreen_caps());
    caps.push(multifragment_caps());
    caps.push(large_pointer_caps());
    caps.push(surface_commands_caps());
    caps.push(bitmap_codecs_caps());
    caps.push(frame_acknowledge_caps());
    if cfg.channels.len() > 0 {
        caps.push(virtual_channel_caps());
    }
    proof {
        assert(views(caps@) =~= spec_client_caps(cfg.width, cfg.height, cfg.channels.len() > 0));
    }
    caps
}

/// Reply to the server's Demand Active with the client's capability sets.
pub fn send_confirm_active<T: PduTransport>(
    t: &mut T,
    user_id: u16,
    share_id: u32,
    cfg: &SessionConfig,
) -> (r: Result<()>)
    requires
        user_id >= MCS_BASE,
{
    let caps = client_capabilities(cfg);
    let pdu = confirm_active(user_id, share_id, caps.as_slice());
    send_on_io(t, user_id, pdu.as_slice())
}

/// The client's finalization PDUs, in sending order.
pub fn finalization_pdus(user_id: u16, share_id: u32) -> (r: Vec<Vec<u8>>)
    ensures
        views(r@) == spec_finalization_pdus(user_id, share_id),
{
    let mut out: Vec<Vec<u8>> = Vec::new();
    let sync = synchronize(IO_CHANNEL);
    out.push(share_data(user_id, share_id, PDUTYPE2_SYNCHRONIZE, sync.as_slice()));
    let cooperate = control(CTRLACTION_COOPERATE, 0, 0);
    out.push(share_data(user_id, share_id, PDUTYPE2_CONTROL, cooperate.as_slice()));
    let request = control(CTRLACTION_REQUEST_CONTROL, 0, 0);
    out.push(share_data(user_id, share_id, PDUTYPE2_CONTROL, request.as_slice()));
    let fonts = font_list();
    out.push(share_data(user_id, share_id, PDUTYPE2_FONTLIST, fonts.as_slice()));
    proof {
        assert(views(out@) =~= spec_finalization_pdus(user_id, share_id));
    }
    out
}

/// Whether `pdu` is a share control PDU long enough to hold a share data
/// header: what counts as one of the server's finalization replies.
pub fn is_share_data_pdu(pdu: &[u8]) -> (r: bool)
    ensures
        r == (spec_parse_share_control(pdu@) matches Some((_, body)) && body.len() >= 12),
{
    match parse_share_control(pdu) {
        Ok((_hdr, body)) => parse_share_data(body).is_ok(),
        Err(_) => false,
    }
}

/// What the finalization phase does next.
pub enum FinalAction {
    /// Send this MCS PDU.
    Send(Vec<u8>),
    /// Read the next MCS PDU and hand it to [`Finalizer::on_reply`].
    Receive,
    /// Finalization is over.
    Done,
}

/// The decisions of the finalization phase: the four client finalization PDUs
/// go out first, in order, each in a Send Data Request on the I/O channel;
/// then the server's replies are drained until four share data PDUs were seen
/// or `MAX_SKIP` PDUs were read.
pub struct Finalizer {
    pub user_id: u16,
    pub share_id: u32,
    /// How many of the client's finalization PDUs were handed out.
    pub sent: usize,
    /// How many of the server's replies were share data PDUs.
    pub seen: usize,
    /// How many replies were read.
    pub reads: usize,
}

impl Finalizer {
    /// Whether the counters are in range.
    pub open spec fn wf(&self) -> bool {
        &&& self.user_id >= MCS_BASE
        &&& self.sent <= 4
        &&& self.reads <= MAX_SKIP
        &&& self.seen <= self.reads
        &&& self.reads > 0 ==> self.sent == 4
    }

    /// A finalizer that has sent and read nothing.
    pub fn new(user_id: u16, share_id: u32) -> (r: Finalizer)
        requires
            user_id >= MCS_BASE,
        ensures
            r.wf(),
            r.user_id == user_id && r.share_id == share_id,
            r.sent == 0 && r.seen == 0 && r.reads == 0,
    {
        Finalizer { user_id, share_id, sent: 0, seen: 0, reads: 0 }
    }

    /// The next action. While fewer than four PDUs were sent, the next of
    /// [`spec_finalization_pdus`] wrapped for the I/O channel; then a read,
    /// until four share data replies were seen or `MAX_SKIP` were read.
    pub fn next_action(&mut self) -> (r: FinalAction)
        requires
            old(self).wf(),
        ensures
            final(self).wf(),
            final(self).user_id == old(self).user_id && final(self).share_id == old(self).share_id,
            final(self).seen == old(self).seen && final(self).reads == old(self).reads,
            old(self).sent < 4 ==> final(self).sent == old(self).sent + 1,
            old(self).sent < 4 ==> (r matches FinalAction::Send(p) && p@ == spec_send_data_request(
                old(self).user_id,
                IO_CHANNEL,
                spec_finalization_pdus(old(self).user_id, old(self).share_id)[old(self).sent as int],
            )),
            old(self).sent == 4 ==> final(self).sent == 4 && if old(self).seen >= 4 || old(self).reads
                >= MAX_SKIP {
                r is Done
            } else {
                r is Receive
            },
    {
        if self.sent < 4 {
            let pdus = finalization_pdus(self.user_id, self.share_id);
            assert(views(pdus@).len() == pdus@.len());
            assert(views(pdus@)[self.sent as int] == pdus@[self.sent as int]@);
            let framed = send_data_request(self.user_id, IO_CHANNEL, pdus[self.sent].as_slice());
            self.sent = self.sent + 1;
            FinalAction::Send(framed)
        } else if self.seen >= 4 || self.reads >= MAX_SKIP {
            FinalAction::Done
        } else {
            FinalAction::Receive
        }
    }

    /// Take one of the server's replies. It must be a Send Data Indication,
    /// else that error and the finalizer is left as it was; its payload counts
    /// as seen when it is a share data PDU.
    pub fn on_reply(&mut self, mcs: &[u8]) -> (r: Result<()>)
        requires
            old(self).wf(),
            old(self).sent == 4,
            old(self).reads < MAX_SKIP,
        ensures
            final(self).wf(),
            spec_parse_send_data_indication(mcs@) is None ==> r is Err && *final(self) == *old(self),
            spec_parse_send_data_indication(mcs@) is None && mcs.len() == 0 ==> is_short(r, 1, 0),
            spec_parse_send_data_indication(mcs@) matches Some((_, pdu)) ==> {
                &&& r is Ok
                &&& final(self).user_id == old(self).user_id && final(self).share_id == old(self).share_id
                &&& final(self).sent == 4
                &&& final(self).reads == old(self).reads + 1
                &&& final(self).seen == if spec_parse_share_control(pdu) matches Some((_, body)) && body.len()
                    >= 12 {
                    old(self).seen + 1
                } else {
                    old(self).seen as int
                }
            },
    {
        let (_channel, pdu) = parse_send_data_indication(mcs)?;
        if is_share_data_pdu(pdu) {
            self.seen = self.seen + 1;
        }
        self.reads = self.reads + 1;
        Ok(())
    }
}

/// Client-to-server finalization, then drain the server's finalization
/// replies (Synchronize, Control twice, Font Map), reading at most `MAX_SKIP`
/// PDUs. Each step is decided by [`Finalizer`].
pub fn finalization<T: PduTransport>(t: &mut T, user_id: u16, share_id: u32) -> (r: Result<()>)
    requires
        user_id >= MCS_BASE,
{
    let mut f = Finalizer::new(user_id, share_id);
    loop
        invariant
            f.wf(),
        decreases 4 - f.sent + MAX_SKIP - f.reads,
    {
        match f.next_action() {
            FinalAction::Send(p) => {
                t.send(p.as_slice())?;
            },
            FinalAction::Receive => {
                let mcs = t.recv()?;
                f.on_reply(mcs.as_slice())?;
            },
            FinalAction::Done => {
                return Ok(());
            },
        }
    }
}

/// Run the whole connection sequence to an active session.
pub fn establish<T: PduTransport>(t: &mut T, cfg: &SessionConfig) -> (r: Result<Session>)
    requires
        cfg.channels.len() <= usize::MAX / 16,
    ensures
        r matches Ok(s) ==> {
            &&& s.io_channel == IO_CHANNEL
            &&& s.user_id >= MCS_BASE
            &&& exists|attach: Seq<u8>| spec_parse_attach_user_confirm(attach) == Some(s.user_id)
            &&& exists|body: Seq<u8>|
                (#[trigger] spec_parse_demand_active(body)) matches Some((share_id, _)) && share_id
                    == s.share_id
            &&& s.multitransport_request matches Some(m) ==> exists|pdu: Seq<u8>|
                spec_detect(pdu) == Some(m.fields())
            &&& exists|response: Seq<u8>, confirmed: Seq<u16>|
                spec_server_network(response) is Some && confirmed.len() == network_ids(response).len()
                    && s.channel_ids@ == #[trigger] kept_joins(
                    network_ids(response),
                    confirmed,
                    s.user_id,
                    network_ids(response).len(),
                )
        },
{
    let server_net = basic_settings_exchange(t, cfg)?;
    let ghost response = choose|response: Seq<u8>|
        spec_server_network(response) == Some((server_net.io_channel_id, server_net.channel_ids@));
    let (user_id, channel_ids) = channel_connection(t, cfg, &server_net)?;
    let ghost confirmed = choose|confirmed: Seq<u16>|
        confirmed.len() == server_net.channel_ids.len() && channel_ids@ == kept_joins(
            server_net.channel_ids@,
            confirmed,
            user_id,
            server_net.channel_ids.len() as nat,
        );
    send_client_info(t, user_id, cfg)?;
    let mut multitransport_request: Option<InitiateRequest> = None;
    let demand = wait_for_demand_active(t, &mut multitransport_request)?;
    send_confirm_active(t, user_id, demand.share_id, cfg)?;
    finalization(t, user_id, demand.share_id)?;
    assert(channel_ids@ == kept_joins(network_ids(response), confirmed, user_id, network_ids(response).len()));
    Ok(Session {
        user_id,
        io_channel: IO_CHANNEL,
        channel_ids,
        share_id: demand.share_id,
        multitransport_request,
    })
}

} // verus!
