//! The decisions of a relay room: a set of sockets whose peers exchange packets through the relay.
//!
//! The host keeps an attachment on every socket and hands the attachments of all sockets in, in
//! its own order; a socket is named by its place in that order. A socket whose attachment is
//! missing or cannot be read stands there as `None`.

use vstd::prelude::*;

use crate::constants::{PacketType, HEADER_SIZE, MY_PEER_ID};
use crate::crypto::random_u64_string;
use crate::handlers::HandshakeOutcome;
use crate::packet::parse_header;
use crate::peer_manager::{holds, transaction_id_from, PeerManager, WsPeerContext};
use crate::proto::{RoutePeerInfo, RoutePeerInfoView, RpcPacket, RpcPacketView, Timestamp, Uuid};
use crate::random::RandomUnavailable;
use crate::route_model::{GroupSeed, GroupView};
use crate::rpc_handler::{RpcAction, RpcActionView};
use crate::text::{insert_in_order, is_blank, same_text};

verus! {

/// How long the relay waits between two looks at its sockets, in milliseconds.
pub const CLEANUP_INTERVAL_MS: u64 = 30_000;

/// How long a socket may stay silent, in milliseconds.
pub const SOCKET_TIMEOUT_MS: u64 = 120_000;

/// How long the connections of a peer that left are kept, in milliseconds: ten minutes.
pub const STALE_P2P_THRESHOLD_MS: u64 = 600_000;

/// Attachment data stored on each WebSocket for hibernation recovery.
#[derive(Debug)]
pub struct WsAttachment {
    pub peer_id: u32,
    pub group_key: String,
    pub domain_name: String,
    pub server_session_id: String,
    pub we_are_initiator: bool,
    /// Last time (in millis since epoch) any message was received on this socket.
    pub last_seen_ms: i64,
}

impl Clone for WsAttachment {
    fn clone(&self) -> (r: Self)
        ensures
            r == *self,
    {
        WsAttachment {
            peer_id: self.peer_id,
            group_key: self.group_key.clone(),
            domain_name: self.domain_name.clone(),
            server_session_id: self.server_session_id.clone(),
            we_are_initiator: self.we_are_initiator,
            last_seen_ms: self.last_seen_ms,
        }
    }
}

impl Default for WsAttachment {
    fn default() -> (r: Self)
        ensures
            r.peer_id == 0,
            r.group_key@ == Seq::<char>::empty(),
            r.domain_name@ == Seq::<char>::empty(),
            r.server_session_id@ == Seq::<char>::empty(),
            !r.we_are_initiator,
            r.last_seen_ms == 0,
    {
        WsAttachment {
            peer_id: 0,
            group_key: String::new(),
            domain_name: String::new(),
            server_session_id: String::new(),
            we_are_initiator: false,
            last_seen_ms: 0,
        }
    }
}

/// The attachment of a socket that was just accepted.
pub fn new_attachment(server_session_id: String, now_ms: u64) -> (r: WsAttachment)
    ensures
        r.peer_id == 0,
        r.group_key@ == Seq::<char>::empty(),
        r.domain_name@ == Seq::<char>::empty(),
        r.server_session_id == server_session_id,
        !r.we_are_initiator,
        r.last_seen_ms == now_ms as i64,
{
    WsAttachment {
        peer_id: 0,
        group_key: String::new(),
        domain_name: String::new(),
        server_session_id,
        we_are_initiator: false,
        last_seen_ms: now_ms as i64,
    }
}

/// Whether `ctx` is the context of the socket with the attachment `att`, with `session` in place of
/// a session that is missing.
pub open spec fn context_with(att: WsAttachment, session: Seq<char>, ctx: WsPeerContext) -> bool {
    &&& ctx.peer_id == att.peer_id
    &&& ctx.group_key == att.group_key
    &&& ctx.domain_name@ == (if att.domain_name@.len() == 0 {
        "public_server"@
    } else {
        att.domain_name@
    })
    &&& ctx.server_session_id@ == (if att.server_session_id@.len() == 0 {
        session
    } else {
        att.server_session_id@
    })
    &&& ctx.we_are_initiator == att.we_are_initiator
}

/// Whether `ctx` is the context of the socket with the attachment `att`, with some number in place
/// of a session that is missing.
pub open spec fn context_of(att: WsAttachment, ctx: WsPeerContext) -> bool {
    exists|n: u64| context_with(att, #[trigger] crate::text::decimal(n as nat), ctx)
}

/// Convert attachment to WsPeerContext; `session` takes the place of a session that is missing.
pub fn attachment_to_ctx_with(att: &WsAttachment, session: String) -> (r: WsPeerContext)
    ensures
        context_with(*att, session@, r),
{
    WsPeerContext {
        peer_id: att.peer_id,
        group_key: att.group_key.clone(),
        domain_name: if is_blank(att.domain_name.as_str()) {
            "public_server".to_string()
        } else {
            att.domain_name.clone()
        },
        server_session_id: if is_blank(att.server_session_id.as_str()) {
            session
        } else {
            att.server_session_id.clone()
        },
        we_are_initiator: att.we_are_initiator,
    }
}

/// Convert attachment to WsPeerContext; a session that is missing is drawn. Fails only where one
/// has to be drawn and the system gives no random bytes.
pub fn attachment_to_ctx(att: &WsAttachment) -> (r: Result<WsPeerContext, RandomUnavailable>)
    ensures
        match r {
            Ok(ctx) => context_of(*att, ctx),
            Err(_) => att.server_session_id@.len() == 0,
        },
{
    if is_blank(att.server_session_id.as_str()) {
        match random_u64_string() {
            Ok(session) => Ok(attachment_to_ctx_with(att, session)),
            Err(e) => Err(e),
        }
    } else {
        let ctx = attachment_to_ctx_with(att, String::new());
        assert(context_with(*att, crate::text::decimal(0u64 as nat), ctx));
        Ok(ctx)
    }
}

/// Notes on the attachment of a socket that a message came in, at `now_ms`.
pub fn note_message(att: &mut WsAttachment, now_ms: u64)
    ensures
        *final(att) == (WsAttachment { last_seen_ms: now_ms as i64, ..*old(att) }),
{
    att.last_seen_ms = now_ms as i64;
}

/// What is to be done with a message that came in on a socket.
#[derive(Debug, Clone, Copy, PartialEq, Eq, Structural)]
pub enum Inbound {
    /// It is shorter than a header: nothing.
    TooShort,
    /// Handle a handshake.
    HandShake,
    /// Answer a ping of this peer.
    Ping { from: u32 },
    /// Handle a remote procedure call.
    RpcReq,
    /// Handle an answer of this peer to a remote procedure call.
    RpcResp { from: u32 },
    /// Pass it on to this peer.
    Forward { to: u32 },
}

/// Whether a packet for `to` is for the relay itself.
pub open spec fn is_for_relay(to: u32) -> bool {
    to == 0 || to == MY_PEER_ID
}

/// What is to be done with a message. Handshakes and pings are always for the relay, calls and
/// their answers if they are addressed to it; everything else is passed on.
pub open spec fn inbound_of(bytes: Seq<u8>) -> Inbound {
    let header = crate::packet::PacketHeader::read(bytes);
    if bytes.len() < HEADER_SIZE {
        Inbound::TooShort
    } else if header.packet_type == PacketType::HandShake.code() {
        Inbound::HandShake
    } else if header.packet_type == PacketType::Ping.code() {
        Inbound::Ping { from: header.from_peer_id }
    } else if header.packet_type == PacketType::RpcReq.code() && is_for_relay(header.to_peer_id) {
        Inbound::RpcReq
    } else if header.packet_type == PacketType::RpcResp.code() && is_for_relay(header.to_peer_id) {
        Inbound::RpcResp { from: header.from_peer_id }
    } else {
        Inbound::Forward { to: header.to_peer_id }
    }
}

/// What is to be done with a message.
pub fn classify(bytes: &[u8]) -> (r: Inbound)
    ensures
        r == inbound_of(bytes@),
{
    let header = match parse_header(bytes) {
        Some(h) => h,
        None => {
            return Inbound::TooShort;
        },
    };
    let local = header.to_peer_id == 0 || header.to_peer_id == MY_PEER_ID;
    match header.packet_type_enum() {
        PacketType::HandShake => Inbound::HandShake,
        PacketType::Ping => Inbound::Ping { from: header.from_peer_id },
        PacketType::RpcReq => {
            if local {
                Inbound::RpcReq
            } else {
                Inbound::Forward { to: header.to_peer_id }
            }
        },
        PacketType::RpcResp => {
            if local {
                Inbound::RpcResp { from: header.from_peer_id }
            } else {
                Inbound::Forward { to: header.to_peer_id }
            }
        },
        _ => Inbound::Forward { to: header.to_peer_id },
    }
}

/// Whether the socket with the attachment `att` is that of the peer `id`.
pub open spec fn is_socket_of(att: Option<WsAttachment>, id: u32) -> bool {
    att matches Some(a) && a.peer_id == id
}

/// Whether two sockets are known to belong to different groups.
pub open spec fn are_strangers(a: Option<WsAttachment>, b: Option<WsAttachment>) -> bool {
    &&& a matches Some(x) && b matches Some(y) && x.group_key@.len() > 0 && y.group_key@.len() > 0
        && x.group_key@ != y.group_key@
}

/// Whether a packet for `to` goes to the socket `i`: it is the first socket of that peer, and does
/// not belong to another group than the source.
pub open spec fn forwards_to(
    sockets: Seq<Option<WsAttachment>>,
    source: Option<WsAttachment>,
    to: u32,
    i: int,
) -> bool {
    &&& 0 <= i < sockets.len()
    &&& is_socket_of(sockets[i], to)
    &&& forall|j: int| 0 <= j < i ==> !is_socket_of(#[trigger] sockets[j], to)
    &&& !are_strangers(source, sockets[i])
}

/// The socket that a packet for the peer `to` goes to. There is none where the peer has no socket,
/// or its first socket belongs to another group than the source.
pub fn forward_target(
    sockets: &Vec<Option<WsAttachment>>,
    source: &Option<WsAttachment>,
    to: u32,
) -> (r: Option<usize>)
    ensures
        match r {
            Some(i) => forwards_to(sockets@, *source, to, i as int),
            None => forall|i: int| !forwards_to(sockets@, *source, to, i),
        },
{
    let mut i: usize = 0;
    while i < sockets.len()
        invariant
            i <= sockets@.len(),
            forall|j: int| 0 <= j < i ==> !is_socket_of(#[trigger] sockets@[j], to),
        decreases sockets@.len() - i,
    {
        if let Some(att) = &sockets[i] {
            if att.peer_id == to {
                assert(is_socket_of(sockets@[i as int], to));
                if let Some(src) = source {
                    if !is_blank(src.group_key.as_str()) && !is_blank(att.group_key.as_str())
                        && !same_text(src.group_key.as_str(), att.group_key.as_str()) {
                        assert(are_strangers(*source, sockets@[i as int]));
                        assert forall|k: int| !forwards_to(sockets@, *source, to, k) by {
                            if forwards_to(sockets@, *source, to, k) {
                                assert(is_socket_of(sockets@[k], to));
                                assert(k == i);
                            }
                        }
                        return None;
                    }
                }
                return Some(i);
            }
        }
        i = i + 1;
    }
    assert forall|k: int| !forwards_to(sockets@, *source, to, k) by {
        if forwards_to(sockets@, *source, to, k) {
            assert(is_socket_of(sockets@[k], to));
        }
    }
    None
}

/// Whether a broadcast to the group `group_key`, without the peer `exclude`, reaches a socket.
pub open spec fn hears(att: Option<WsAttachment>, group_key: Seq<char>, exclude: u32) -> bool {
    att matches Some(a) && a.peer_id != exclude && a.group_key@ == group_key
}

fn hears_broadcast(att: &Option<WsAttachment>, group_key: &str, exclude: u32) -> (r: bool)
    ensures
        r == hears(*att, group_key@, exclude),
{
    match att {
        Some(a) => a.peer_id != exclude && same_text(a.group_key.as_str(), group_key),
        None => false,
    }
}

/// Whether a socket has been silent for too long. One that never had a message counts as alive; one
/// whose last message lies ahead of the clock does not.
pub open spec fn timed_out(att: Option<WsAttachment>, now_ms: int) -> bool {
    att matches Some(a) && a.last_seen_ms > 0 && (now_ms < a.last_seen_ms || now_ms - a.last_seen_ms
        > SOCKET_TIMEOUT_MS)
}

fn has_timed_out(att: &Option<WsAttachment>, now_ms: i64) -> (r: bool)
    ensures
        r == timed_out(*att, now_ms as int),
{
    match att {
        Some(a) => a.last_seen_ms > 0 && (now_ms < a.last_seen_ms || (now_ms - a.last_seen_ms)
            as u64 > SOCKET_TIMEOUT_MS),
        None => false,
    }
}

/// The places at which the sockets that have timed out stand.
pub open spec fn dead_sockets(sockets: Seq<Option<WsAttachment>>, now_ms: int) -> Seq<usize>
    decreases sockets.len(),
{
    if sockets.len() == 0 {
        Seq::empty()
    } else {
        let before = dead_sockets(sockets.drop_last(), now_ms);
        if timed_out(sockets.last(), now_ms) {
            before.push((sockets.len() - 1) as usize)
        } else {
            before
        }
    }
}

/// Whether a socket keeps its group `key` alive: it had a message, lately, and has a group.
pub open spec fn keeps_group(att: Option<WsAttachment>, now_ms: int, key: Seq<char>) -> bool {
    att matches Some(a) && a.last_seen_ms > 0 && !timed_out(att, now_ms) && a.group_key@ == key
        && key.len() > 0
}

/// What a look at the sockets shows.
#[derive(Debug)]
pub struct Sweep {
    /// The sockets to close.
    pub close: Vec<usize>,
    /// How many sockets are left.
    pub alive: usize,
    /// The groups of the sockets that are left, in order.
    pub group_keys: Vec<String>,
}

/// Looks for sockets that have been silent for too long.
pub fn sweep(sockets: &Vec<Option<WsAttachment>>, now_ms: i64) -> (r: Sweep)
    ensures
        r.close@ == dead_sockets(sockets@, now_ms as int),
        r.alive == sockets@.len() - r.close@.len(),
        crate::text::in_order(crate::text::texts_of(r.group_keys@)),
        forall|key: Seq<char>| #[trigger]
            crate::text::texts_of(r.group_keys@).to_set().contains(key) <==> exists|i: int|
                0 <= i < sockets@.len() && keeps_group(#[trigger] sockets@[i], now_ms as int, key),
{
    let mut close: Vec<usize> = Vec::new();
    let mut alive: usize = 0;
    let mut group_keys: Vec<String> = Vec::new();
    let mut i: usize = 0;
    assert(sockets@.take(0) =~= Seq::empty());
    while i < sockets.len()
        invariant
            i <= sockets@.len(),
            close@ == dead_sockets(sockets@.take(i as int), now_ms as int),
            alive + close@.len() == i,
            crate::text::in_order(crate::text::texts_of(group_keys@)),
            forall|key: Seq<char>| #[trigger]
                crate::text::texts_of(group_keys@).to_set().contains(key) <==> exists|j: int|
                    0 <= j < i && keeps_group(#[trigger] sockets@[j], now_ms as int, key),
        decreases sockets@.len() - i,
    {
        assert(sockets@.take(i + 1).drop_last() =~= sockets@.take(i as int));
        let ghost known = crate::text::texts_of(group_keys@).to_set();
        if has_timed_out(&sockets[i], now_ms) {
            close.push(i);
        } else {
            if let Some(att) = &sockets[i] {
                if att.last_seen_ms > 0 && !is_blank(att.group_key.as_str()) {
                    insert_in_order(&mut group_keys, att.group_key.as_str());
                    assert(keeps_group(sockets@[i as int], now_ms as int, att.group_key@));
                }
            }
            alive = alive + 1;
        }
        assert forall|key: Seq<char>| #[trigger]
            crate::text::texts_of(group_keys@).to_set().contains(key) implies exists|j: int|
            0 <= j < i + 1 && keeps_group(#[trigger] sockets@[j], now_ms as int, key) by {
            if known.contains(key) {
                let j = choose|j: int|
                    0 <= j < i && keeps_group(#[trigger] sockets@[j], now_ms as int, key);
                assert(keeps_group(sockets@[j], now_ms as int, key));
            } else {
                assert(keeps_group(sockets@[i as int], now_ms as int, key));
            }
        }
        assert forall|key: Seq<char>, j: int|
            0 <= j < i + 1 && #[trigger] keeps_group(sockets@[j], now_ms as int, key) implies
            crate::text::texts_of(group_keys@).to_set().contains(key) by {
            if j < i {
                assert(known.contains(key));
            }
        }
        i = i + 1;
    }
    assert(sockets@.take(sockets@.len() as int) =~= sockets@);
    Sweep { close, alive, group_keys }
}

/// What is to be done after a look at the sockets.
#[derive(Debug)]
pub enum AlarmStep {
    /// Close the socket at this place.
    Close(usize),
    /// See that another look is scheduled.
    Schedule,
    /// Drop the stale connections of all groups of the sockets that are left.
    CleanGroups,
    /// Bring all peers of this group up to date; see `refresh_group`.
    Refresh(String),
}

/// `AlarmStep` over sequences.
#[verifier::ext_equal]
pub enum AlarmStepView {
    Close(usize),
    Schedule,
    CleanGroups,
    Refresh(Seq<char>),
}

impl View for AlarmStep {
    type V = AlarmStepView;

    open spec fn view(&self) -> AlarmStepView {
        match self {
            AlarmStep::Close(i) => AlarmStepView::Close(*i),
            AlarmStep::Schedule => AlarmStepView::Schedule,
            AlarmStep::CleanGroups => AlarmStepView::CleanGroups,
            AlarmStep::Refresh(key) => AlarmStepView::Refresh(key@),
        }
    }
}

/// The steps that are due: the silent sockets are closed; if any socket is left, the next look is
/// scheduled, the groups are cleaned, and each group is brought up to date.
pub open spec fn steps_after(sweep: Sweep) -> Seq<AlarmStepView> {
    let closing = sweep.close@.map_values(|i: usize| AlarmStepView::Close(i));
    if sweep.alive > 0 {
        closing + seq![AlarmStepView::Schedule, AlarmStepView::CleanGroups]
            + sweep.group_keys@.map_values(|key: String| AlarmStepView::Refresh(key@))
    } else {
        closing
    }
}

/// The views of a list of steps.
pub open spec fn steps_of(steps: Seq<AlarmStep>) -> Seq<AlarmStepView> {
    steps.map_values(|s: AlarmStep| s@)
}

/// The steps that are due after a look at the sockets, in order.
pub fn alarm_steps(sweep: &Sweep) -> (r: Vec<AlarmStep>)
    ensures
        steps_of(r@) == steps_after(*sweep),
{
    let ghost closing = sweep.close@.map_values(|i: usize| AlarmStepView::Close(i));
    let ghost refreshing = sweep.group_keys@.map_values(|key: String| AlarmStepView::Refresh(key@));
    let mut steps: Vec<AlarmStep> = Vec::new();
    let mut i: usize = 0;
    assert(steps_of(steps@) =~= closing.take(0));
    while i < sweep.close.len()
        invariant
            i <= sweep.close@.len(),
            closing == sweep.close@.map_values(|i: usize| AlarmStepView::Close(i)),
            steps_of(steps@) == closing.take(i as int),
        decreases sweep.close@.len() - i,
    {
        let ghost before = steps@;
        steps.push(AlarmStep::Close(sweep.close[i]));
        assert(steps_of(steps@) =~= steps_of(before).push(closing[i as int]));
        assert(closing.take(i + 1) =~= closing.take(i as int).push(closing[i as int]));
        i = i + 1;
    }
    assert(closing.take(closing.len() as int) =~= closing);
    if sweep.alive == 0 {
        return steps;
    }
    steps.push(AlarmStep::Schedule);
    steps.push(AlarmStep::CleanGroups);
    let ghost early = closing + seq![AlarmStepView::Schedule, AlarmStepView::CleanGroups];
    let mut k: usize = 0;
    assert(steps_of(steps@) =~= early + refreshing.take(0));
    while k < sweep.group_keys.len()
        invariant
            k <= sweep.group_keys@.len(),
            refreshing == sweep.group_keys@.map_values(
                |key: String| AlarmStepView::Refresh(key@),
            ),
            steps_of(steps@) == early + refreshing.take(k as int),
        decreases sweep.group_keys@.len() - k,
    {
        let ghost before = steps@;
        steps.push(AlarmStep::Refresh(sweep.group_keys[k].clone()));
        assert(steps_of(steps@) =~= steps_of(before).push(refreshing[k as int]));
        assert(early + refreshing.take(k + 1) =~= (early + refreshing.take(k as int)).push(
            refreshing[k as int],
        ));
        k = k + 1;
    }
    assert(refreshing.take(refreshing.len() as int) =~= refreshing);
    steps
}

/// When the next look at the sockets is due, if none is due already.
pub fn alarm_time(current: Option<i64>, now_ms: u64) -> (r: Option<i64>)
    ensures
        r == (match current {
            Some(_) => None,
            None => Some((now_ms as i64).wrapping_add(CLEANUP_INTERVAL_MS as i64)),
        }),
{
    match current {
        Some(_) => None,
        None => Some((now_ms as i64).wrapping_add(CLEANUP_INTERVAL_MS as i64)),
    }
}

/// Whether the peer `id` is connected in the group `key`.
pub open spec fn is_member(
    groups: Map<Seq<char>, GroupView>,
    key: Seq<char>,
    id: u32,
) -> bool {
    groups.contains_key(key) && groups[key].peers.contains(id)
}

/// Whether taking up the socket with the attachment `att` took the groups from `before` to `after`:
/// a peer that had its handshake and is not among the connected peers connects.
pub open spec fn takes_up(
    before: Map<Seq<char>, GroupView>,
    after: Map<Seq<char>, GroupView>,
    att: Option<WsAttachment>,
) -> bool {
    match att {
        Some(a) if a.peer_id != 0 && !is_member(
            before,
            a.group_key@,
            a.peer_id,
        ) => crate::route_model::changes_group(
            before,
            after,
            a.group_key@,
            |g: GroupView| g.with_peer(a.peer_id).with_my_info(g.my_info),
        ),
        _ => after == before,
    }
}

/// Whether taking up the sockets one after the other took the groups from `before` to `after`.
pub open spec fn takes_up_all(
    before: Map<Seq<char>, GroupView>,
    after: Map<Seq<char>, GroupView>,
    sockets: Seq<Option<WsAttachment>>,
) -> bool
    decreases sockets.len(),
{
    if sockets.len() == 0 {
        after == before
    } else {
        exists|mid: Map<Seq<char>, GroupView>|
            takes_up_all(before, mid, sockets.drop_last()) && #[trigger] takes_up(
                mid,
                after,
                sockets.last(),
            )
    }
}

/// Ensures that the peers of all sockets are connected. Right after a restart this connects them
/// all; when the room only slept it changes nothing. Stops only at a socket whose group has to be
/// set up, where the system gives no random bytes.
pub fn restore_peers(peer_manager: &mut PeerManager, sockets: &Vec<Option<WsAttachment>>) -> (r:
    Result<(), RandomUnavailable>)
    ensures
        match r {
            Ok(()) => takes_up_all(
                old(peer_manager).route_state@,
                final(peer_manager).route_state@,
                sockets@,
            ),
            Err(_) => exists|i: int|
                {
                    &&& 0 <= i < sockets@.len()
                    &&& takes_up_all(
                        old(peer_manager).route_state@,
                        final(peer_manager).route_state@,
                        #[trigger] sockets@.take(i),
                    )
                    &&& sockets@[i] matches Some(a) && a.peer_id != 0 && !final(
                        peer_manager
                    ).route_state@.contains_key(a.group_key@)
                },
        },
{
    let ghost before = peer_manager.route_state@;
    let mut i: usize = 0;
    assert(sockets@.take(0) =~= Seq::empty());
    while i < sockets.len()
        invariant
            i <= sockets@.len(),
            before == old(peer_manager).route_state@,
            takes_up_all(before, peer_manager.route_state@, sockets@.take(i as int)),
        decreases sockets@.len() - i,
    {
        let ghost mid = peer_manager.route_state@;
        assert(sockets@.take(i + 1).drop_last() =~= sockets@.take(i as int));
        if let Some(att) = &sockets[i] {
            if att.peer_id != 0 {
                let existing = peer_manager.list_peer_ids_in_group(att.group_key.as_str());
                let known = holds(&existing, att.peer_id);
                proof {
                    if mid.contains_key(att.group_key@) {
                        let peers = mid[att.group_key@].peers;
                        assert(existing@.to_set().contains(att.peer_id) == peers.contains(
                            att.peer_id,
                        ));
                    }
                    assert(known == is_member(mid, att.group_key@, att.peer_id));
                }
                if !known {
                    if let Err(e) = peer_manager.add_peer(att.group_key.as_str(), att.peer_id) {
                        return Err(e);
                    }
                }
            }
        }
        assert(takes_up(mid, peer_manager.route_state@, sockets@.take(i + 1).last()));
        i = i + 1;
    }
    assert(sockets@.take(sockets@.len() as int) =~= sockets@);
    Ok(())
}

/// What is known of a peer that just had its handshake.
pub open spec fn newcomer_info(peer_id: u32, now_ms: u64) -> RoutePeerInfoView {
    RoutePeerInfoView {
        peer_id,
        version: 1,
        last_update: Some(Timestamp::at(now_ms)),
        inst_id: Some(Uuid { part1: 0, part2: 0, part3: 0, part4: 0 }),
        network_length: 24,
        ..RoutePeerInfoView::blank()
    }
}

/// The group after the peer `id` had its handshake.
pub open spec fn welcomed(g: GroupView, id: u32, now_ms: u64) -> GroupView {
    let joined = g.with_peer(id).with_my_info(g.my_info).with_info(id, newcomer_info(id, now_ms));
    joined.with_my_info(joined.my_info)
}

/// Notes on the attachment of a socket whose handshake was admitted who its peer is.
pub fn identify(att: &mut WsAttachment, outcome: &HandshakeOutcome)
    ensures
        final(att).peer_id == outcome.peer_id,
        final(att).group_key == outcome.group_key,
        final(att).domain_name == outcome.domain_name,
        final(att).server_session_id == old(att).server_session_id,
        !final(att).we_are_initiator,
        final(att).last_seen_ms == old(att).last_seen_ms,
{
    att.peer_id = outcome.peer_id;
    att.group_key = outcome.group_key.clone();
    att.domain_name = outcome.domain_name.clone();
    att.we_are_initiator = false;
}

/// Connects the peer of a handshake that was admitted. Fails, and changes nothing, only where the
/// group has to be set up and the system gives no random bytes.
pub fn accept_handshake(
    peer_manager: &mut PeerManager,
    outcome: &HandshakeOutcome,
    now_ms: u64,
) -> (r: Result<(), RandomUnavailable>)
    ensures
        match r {
            Ok(()) => crate::route_model::changes_group(
                old(peer_manager).route_state@,
                final(peer_manager).route_state@,
                outcome.group_key@,
                |g: GroupView| welcomed(g, outcome.peer_id, now_ms),
            ),
            Err(_) => {
                &&& !old(peer_manager).route_state@.contains_key(outcome.group_key@)
                &&& final(peer_manager).route_state@ == old(peer_manager).route_state@
            },
        },
{
    let ghost before = peer_manager.route_state@;
    let ghost key = outcome.group_key@;
    let id = outcome.peer_id;
    if let Err(e) = peer_manager.add_peer(outcome.group_key.as_str(), id) {
        return Err(e);
    }
    let ghost seed = choose|seed: GroupSeed|
        peer_manager.route_state@ == before.insert(
            key,
            (#[trigger] crate::route_model::group_at(before, key, seed)).with_peer(
                id,
            ).with_my_info(crate::route_model::group_at(before, key, seed).my_info),
        );
    let ghost g = crate::route_model::group_at(before, key, seed);
    let ghost g1 = g.with_peer(id).with_my_info(g.my_info);
    assert(peer_manager.route_state@ == before.insert(key, g1));
    let info = RoutePeerInfo {
        peer_id: id,
        version: 1,
        last_update: Some(Timestamp::at_ms(now_ms)),
        inst_id: Some(Uuid { part1: 0, part2: 0, part3: 0, part4: 0 }),
        network_length: 24,
        ..RoutePeerInfo::default()
    };
    assert(info@ == newcomer_info(id, now_ms));
    let ghost view = info@;
    if let Err(e) = peer_manager.update_peer_info(outcome.group_key.as_str(), id, Ok(info)) {
        return Err(e);
    }
    let ghost g2 = g1.with_info(id, view);
    assert(peer_manager.route_state@ =~= before.insert(key, g2));
    if let Err(e) = peer_manager.route_state.bump_my_info_version(outcome.group_key.as_str()) {
        return Err(e);
    }
    assert(peer_manager.route_state@ =~= before.insert(key, g2.with_my_info(g2.my_info)));
    proof {
        let change = |g: GroupView| welcomed(g, id, now_ms);
        assert(change(g) == g2.with_my_info(g2.my_info));
    }
    Ok(())
}

/// Takes the peer of a socket that closed or failed out of its group. Returns the group whose other
/// peers have to be told, and the peer that left.
pub fn leave_room(peer_manager: &mut PeerManager, att: &Option<WsAttachment>, now_ms: u64) -> (r:
    Result<Option<(String, u32)>, RandomUnavailable>)
    ensures
        match (att, r) {
            (Some(a), Ok(Some((group_key, peer_id)))) => {
                &&& a.peer_id != 0
                &&& group_key@ == a.group_key@
                &&& peer_id == a.peer_id
                &&& crate::route_model::changes_group(
                    old(peer_manager).route_state@,
                    final(peer_manager).route_state@,
                    a.group_key@,
                    |g: GroupView| g.without_peer(a.peer_id, now_ms),
                )
            },
            (None, Ok(Some(_))) => false,
            (_, Ok(None)) => {
                &&& att matches Some(a) ==> a.peer_id == 0
                &&& final(peer_manager).route_state@ == old(peer_manager).route_state@
            },
            (None, Err(_)) => false,
            (Some(a), Err(_)) => {
                &&& a.peer_id != 0
                &&& !old(peer_manager).route_state@.contains_key(a.group_key@)
                &&& final(peer_manager).route_state@ == old(peer_manager).route_state@
            },
        },
{
    match att {
        Some(a) => {
            let ctx = attachment_to_ctx_with(a, String::new());
            match peer_manager.remove_peer(&ctx, now_ms) {
                Ok(true) => Ok(Some((a.group_key.clone(), a.peer_id))),
                Ok(false) => Ok(None),
                Err(e) => Err(e),
            }
        },
        None => Ok(None),
    }
}

/// Whether drawing up a full route update for the peer of the socket with the attachment `att` took
/// the groups from `before` to `after`, and gave `packet` if the group's peers are not too many.
pub open spec fn updates_socket(
    before: Map<Seq<char>, GroupView>,
    after: Map<Seq<char>, GroupView>,
    att: WsAttachment,
    target: u32,
    now_ms: u64,
    packet: Option<RpcPacketView>,
) -> bool {
    exists|ctx: WsPeerContext|
        {
            &&& #[trigger] context_of(att, ctx)
            &&& match packet {
                Some(p) => exists|transaction_id: u32| #[trigger]
                    crate::peer_manager::sends_update(
                        before,
                        after,
                        ctx,
                        target,
                        true,
                        now_ms,
                        transaction_id,
                        p,
                    ),
                None => crate::peer_manager::cannot_update(before, after, ctx, target),
            }
        }
}

/// The view of a packet, if there is one.
pub open spec fn packet_of(p: Option<RpcPacket>) -> Option<RpcPacketView> {
    match p {
        Some(p) => Some(p@),
        None => None,
    }
}

/// Whether drawing up a full route update, with `session` in place of a session that is missing and
/// under the given transaction id, took the groups from `before` to `after`, and gave `packet` if
/// the group's peers are not too many.
pub open spec fn updates_socket_with(
    before: Map<Seq<char>, GroupView>,
    after: Map<Seq<char>, GroupView>,
    att: WsAttachment,
    target: u32,
    session: Seq<char>,
    transaction_id: u32,
    now_ms: u64,
    packet: Option<RpcPacketView>,
) -> bool {
    exists|ctx: WsPeerContext|
        {
            &&& #[trigger] context_with(att, session, ctx)
            &&& match packet {
                Some(p) => crate::peer_manager::sends_update(
                    before,
                    after,
                    ctx,
                    target,
                    true,
                    now_ms,
                    transaction_id,
                    p,
                ),
                None => crate::peer_manager::cannot_update(before, after, ctx, target),
            }
        }
}

/// Draws up a full route update for `target` over the socket with the attachment `att`, with
/// `session` in place of a session that is missing and under the given transaction id. Fails only
/// where the group has to be set up and the system gives no random bytes.
pub fn full_update_with(
    peer_manager: &mut PeerManager,
    att: &WsAttachment,
    target: u32,
    session: String,
    transaction_id: u32,
    now_ms: u64,
) -> (r: Result<Option<RpcPacket>, RandomUnavailable>)
    ensures
        match r {
            Ok(packet) => updates_socket_with(
                old(peer_manager).route_state@,
                final(peer_manager).route_state@,
                *att,
                target,
                session@,
                transaction_id,
                now_ms,
                packet_of(packet),
            ),
            Err(_) => !old(peer_manager).route_state@.contains_key(att.group_key@) && final(
                peer_manager
            ).route_state@ == old(peer_manager).route_state@,
        },
{
    let ghost drawn = session@;
    let ctx = attachment_to_ctx_with(att, session);
    let r = peer_manager.build_route_update_with(&ctx, target, true, transaction_id, now_ms);
    assert(context_with(*att, drawn, ctx));
    r
}

/// Draws up a full route update for `target` over the socket with the attachment `att`; a session
/// that is missing and the transaction id are drawn. Changes nothing where the system gives no
/// random bytes.
pub fn full_update(
    peer_manager: &mut PeerManager,
    att: &WsAttachment,
    target: u32,
    now_ms: u64,
) -> (r: Result<Option<RpcPacket>, RandomUnavailable>)
    ensures
        match r {
            Ok(packet) => updates_socket(
                old(peer_manager).route_state@,
                final(peer_manager).route_state@,
                *att,
                target,
                now_ms,
                packet_of(packet),
            ),
            Err(_) => final(peer_manager).route_state@ == old(peer_manager).route_state@,
        },
{
    let ctx = match attachment_to_ctx(att) {
        Ok(ctx) => ctx,
        Err(e) => {
            return Err(e);
        },
    };
    let r = peer_manager.build_route_update(&ctx, target, true, now_ms);
    assert(context_of(*att, ctx));
    r
}

/// Where a packet goes: back over the socket that a message came in on, or over another.
#[derive(Debug, Clone, Copy, PartialEq, Eq, Structural)]
pub enum Recipient {
    Sender,
    Socket(usize),
}

/// A packet to send.
#[derive(Debug)]
pub struct Delivery {
    pub recipient: Recipient,
    /// The peer that the packet's header names.
    pub to_peer: u32,
    pub packet_type: PacketType,
    pub packet: RpcPacket,
}

/// `Delivery` over sequences.
#[verifier::ext_equal]
pub struct DeliveryView {
    pub recipient: Recipient,
    pub to_peer: u32,
    pub packet_type: PacketType,
    pub packet: RpcPacketView,
}

impl View for Delivery {
    type V = DeliveryView;

    open spec fn view(&self) -> DeliveryView {
        DeliveryView {
            recipient: self.recipient,
            to_peer: self.to_peer,
            packet_type: self.packet_type,
            packet: self.packet@,
        }
    }
}

/// The views of a list of deliveries.
pub open spec fn deliveries_of(list: Seq<Delivery>) -> Seq<DeliveryView> {
    list.map_values(|d: Delivery| d@)
}

/// Whether a full route update for the peer of the socket at `place` took the groups from `before`
/// to `after`, and the deliveries from `sent` to `now_sent`.
pub open spec fn broadcast_step(
    before: Map<Seq<char>, GroupView>,
    after: Map<Seq<char>, GroupView>,
    att: WsAttachment,
    place: usize,
    now_ms: u64,
    sent: Seq<DeliveryView>,
    now_sent: Seq<DeliveryView>,
) -> bool {
    exists|packet: Option<RpcPacketView>|
        {
            &&& #[trigger] updates_socket(before, after, att, att.peer_id, now_ms, packet)
            &&& now_sent == (match packet {
                Some(p) => sent.push(
                    DeliveryView {
                        recipient: Recipient::Socket(place),
                        to_peer: att.peer_id,
                        packet_type: PacketType::RpcReq,
                        packet: p,
                    },
                ),
                None => sent,
            })
        }
}

/// Whether a broadcast to the group `group_key`, without the peer `exclude`, took the groups from
/// `before` to `after` and called for the deliveries `sent`: each socket that hears it in turn is
/// sent a full route update.
pub open spec fn broadcasts(
    before: Map<Seq<char>, GroupView>,
    after: Map<Seq<char>, GroupView>,
    sockets: Seq<Option<WsAttachment>>,
    group_key: Seq<char>,
    exclude: u32,
    now_ms: u64,
    sent: Seq<DeliveryView>,
) -> bool
    decreases sockets.len(),
{
    if sockets.len() == 0 {
        after == before && sent.len() == 0
    } else if !hears(sockets.last(), group_key, exclude) {
        broadcasts(before, after, sockets.drop_last(), group_key, exclude, now_ms, sent)
    } else {
        exists|mid: Map<Seq<char>, GroupView>, early: Seq<DeliveryView>|
            broadcasts(
                before,
                mid,
                sockets.drop_last(),
                group_key,
                exclude,
                now_ms,
                early,
            ) && #[trigger] broadcast_step(
                mid,
                after,
                sockets.last()->0,
                (sockets.len() - 1) as usize,
                now_ms,
                early,
                sent,
            )
    }
}

/// What chance decides of a route update: the session, where the socket has none, and the
/// transaction id.
#[derive(Debug)]
pub struct UpdateDraw {
    pub session: String,
    pub transaction_id: u32,
}

/// Whether `draw` could be drawn for the socket with the attachment `att`: a session that is missing
/// is some number.
pub open spec fn drawn_for(att: WsAttachment, draw: UpdateDraw) -> bool {
    att.server_session_id@.len() > 0 || exists|n: u64|
        draw.session@ == #[trigger] crate::text::decimal(n as nat)
}

/// Draws what a route update over the socket with the attachment `att` needs.
fn draw_update(att: &WsAttachment) -> (r: Result<UpdateDraw, RandomUnavailable>)
    ensures
        r matches Ok(draw) ==> drawn_for(*att, draw),
{
    let session = if is_blank(att.server_session_id.as_str()) {
        match random_u64_string() {
            Ok(session) => session,
            Err(e) => {
                return Err(e);
            },
        }
    } else {
        String::new()
    };
    match random_u64_string() {
        Ok(text) => Ok(
            UpdateDraw { session, transaction_id: transaction_id_from(text.as_str()) },
        ),
        Err(e) => Err(e),
    }
}

/// Whether a full route update with `draw`, for the peer of the socket at `place`, took the groups
/// from `before` to `after`, and the deliveries from `sent` to `now_sent`.
pub open spec fn broadcast_step_with(
    before: Map<Seq<char>, GroupView>,
    after: Map<Seq<char>, GroupView>,
    att: WsAttachment,
    place: usize,
    draw: UpdateDraw,
    now_ms: u64,
    sent: Seq<DeliveryView>,
    now_sent: Seq<DeliveryView>,
) -> bool {
    exists|packet: Option<RpcPacketView>|
        {
            &&& #[trigger] updates_socket_with(
                before,
                after,
                att,
                att.peer_id,
                draw.session@,
                draw.transaction_id,
                now_ms,
                packet,
            )
            &&& now_sent == (match packet {
                Some(p) => sent.push(
                    DeliveryView {
                        recipient: Recipient::Socket(place),
                        to_peer: att.peer_id,
                        packet_type: PacketType::RpcReq,
                        packet: p,
                    },
                ),
                None => sent,
            })
        }
}

/// `broadcasts` with what chance decides for each socket.
pub open spec fn broadcasts_with(
    before: Map<Seq<char>, GroupView>,
    after: Map<Seq<char>, GroupView>,
    sockets: Seq<Option<WsAttachment>>,
    draws: Seq<UpdateDraw>,
    group_key: Seq<char>,
    exclude: u32,
    now_ms: u64,
    sent: Seq<DeliveryView>,
) -> bool
    decreases sockets.len(),
{
    if sockets.len() == 0 {
        after == before && sent.len() == 0
    } else if !hears(sockets.last(), group_key, exclude) {
        broadcasts_with(
            before,
            after,
            sockets.drop_last(),
            draws,
            group_key,
            exclude,
            now_ms,
            sent,
        )
    } else {
        exists|mid: Map<Seq<char>, GroupView>, early: Seq<DeliveryView>|
            broadcasts_with(
                before,
                mid,
                sockets.drop_last(),
                draws,
                group_key,
                exclude,
                now_ms,
                early,
            ) && #[trigger] broadcast_step_with(
                mid,
                after,
                sockets.last()->0,
                (sockets.len() - 1) as usize,
                draws[sockets.len() - 1],
                now_ms,
                early,
                sent,
            )
    }
}

/// Whether any socket hears a broadcast to the group `group_key`, without the peer `exclude`.
pub open spec fn someone_hears(
    sockets: Seq<Option<WsAttachment>>,
    group_key: Seq<char>,
    exclude: u32,
) -> bool {
    exists|i: int| 0 <= i < sockets.len() && hears(#[trigger] sockets[i], group_key, exclude)
}

proof fn update_with_is_update(
    before: Map<Seq<char>, GroupView>,
    after: Map<Seq<char>, GroupView>,
    att: WsAttachment,
    target: u32,
    draw: UpdateDraw,
    now_ms: u64,
    packet: Option<RpcPacketView>,
)
    requires
        updates_socket_with(
            before,
            after,
            att,
            target,
            draw.session@,
            draw.transaction_id,
            now_ms,
            packet,
        ),
        drawn_for(att, draw),
    ensures
        updates_socket(before, after, att, target, now_ms, packet),
{
    let ctx = choose|ctx: WsPeerContext|
        {
            &&& #[trigger] context_with(att, draw.session@, ctx)
            &&& match packet {
                Some(p) => crate::peer_manager::sends_update(
                    before,
                    after,
                    ctx,
                    target,
                    true,
                    now_ms,
                    draw.transaction_id,
                    p,
                ),
                None => crate::peer_manager::cannot_update(before, after, ctx, target),
            }
        };
    if att.server_session_id@.len() > 0 {
        assert(context_with(att, crate::text::decimal(0u64 as nat), ctx));
    }
    assert(context_of(att, ctx));
}

proof fn broadcast_with_is_broadcast(
    before: Map<Seq<char>, GroupView>,
    after: Map<Seq<char>, GroupView>,
    sockets: Seq<Option<WsAttachment>>,
    draws: Seq<UpdateDraw>,
    group_key: Seq<char>,
    exclude: u32,
    now_ms: u64,
    sent: Seq<DeliveryView>,
)
    requires
        broadcasts_with(before, after, sockets, draws, group_key, exclude, now_ms, sent),
        forall|i: int|
            0 <= i < sockets.len() && hears(#[trigger] sockets[i], group_key, exclude) ==> drawn_for(
                sockets[i]->0,
                draws[i],
            ),
    ensures
        broadcasts(before, after, sockets, group_key, exclude, now_ms, sent),
    decreases sockets.len(),
{
    if sockets.len() > 0 {
        let rest = sockets.drop_last();
        assert forall|i: int|
            0 <= i < rest.len() && hears(#[trigger] rest[i], group_key, exclude) implies drawn_for(
            rest[i]->0,
            draws[i],
        ) by {
            assert(rest[i] == sockets[i]);
        }
        if !hears(sockets.last(), group_key, exclude) {
            broadcast_with_is_broadcast(
                before,
                after,
                rest,
                draws,
                group_key,
                exclude,
                now_ms,
                sent,
            );
        } else {
            let place = (sockets.len() - 1) as usize;
            let att = sockets.last()->0;
            let draw = draws[sockets.len() - 1];
            let (mid, early) = choose|mid: Map<Seq<char>, GroupView>, early: Seq<DeliveryView>|
                broadcasts_with(before, mid, rest, draws, group_key, exclude, now_ms, early)
                    && #[trigger] broadcast_step_with(
                    mid,
                    after,
                    att,
                    place,
                    draw,
                    now_ms,
                    early,
                    sent,
                );
            broadcast_with_is_broadcast(
                before,
                mid,
                rest,
                draws,
                group_key,
                exclude,
                now_ms,
                early,
            );
            let packet = choose|packet: Option<RpcPacketView>|
                {
                    &&& #[trigger] updates_socket_with(
                        mid,
                        after,
                        att,
                        att.peer_id,
                        draw.session@,
                        draw.transaction_id,
                        now_ms,
                        packet,
                    )
                    &&& sent == (match packet {
                        Some(p) => early.push(
                            DeliveryView {
                                recipient: Recipient::Socket(place),
                                to_peer: att.peer_id,
                                packet_type: PacketType::RpcReq,
                                packet: p,
                            },
                        ),
                        None => early,
                    })
                };
            assert(sockets[sockets.len() - 1] == sockets.last());
            update_with_is_update(mid, after, att, att.peer_id, draw, now_ms, packet);
            assert(broadcast_step(mid, after, att, place, now_ms, early, sent));
        }
    }
}

/// Broadcast a route update to all peers in the same group; `draws` holds for each socket what
/// chance decides of its update. Fails, and changes nothing, only where the group has to be set up
/// and the system gives no random bytes.
pub fn broadcast_route_update_with(
    peer_manager: &mut PeerManager,
    sockets: &Vec<Option<WsAttachment>>,
    draws: &Vec<UpdateDraw>,
    group_key: &str,
    exclude_peer_id: u32,
    now_ms: u64,
) -> (r: Result<Vec<Delivery>, RandomUnavailable>)
    requires
        draws@.len() == sockets@.len(),
    ensures
        match r {
            Ok(list) => broadcasts_with(
                old(peer_manager).route_state@,
                final(peer_manager).route_state@,
                sockets@,
                draws@,
                group_key@,
                exclude_peer_id,
                now_ms,
                deliveries_of(list@),
            ),
            Err(_) => {
                &&& !old(peer_manager).route_state@.contains_key(group_key@)
                &&& someone_hears(sockets@, group_key@, exclude_peer_id)
                &&& final(peer_manager).route_state@ == old(peer_manager).route_state@
            },
        },
{
    let ghost before = peer_manager.route_state@;
    let mut list: Vec<Delivery> = Vec::new();
    let mut i: usize = 0;
    assert(sockets@.take(0) =~= Seq::empty());
    while i < sockets.len()
        invariant
            i <= sockets@.len(),
            draws@.len() == sockets@.len(),
            before == old(peer_manager).route_state@,
            peer_manager.route_state@ == before || peer_manager.route_state@.contains_key(
                group_key@,
            ),
            broadcasts_with(
                before,
                peer_manager.route_state@,
                sockets@.take(i as int),
                draws@,
                group_key@,
                exclude_peer_id,
                now_ms,
                deliveries_of(list@),
            ),
        decreases sockets@.len() - i,
    {
        let ghost mid = peer_manager.route_state@;
        let ghost early = deliveries_of(list@);
        let ghost reached = sockets@.take(i + 1);
        assert(reached.drop_last() =~= sockets@.take(i as int));
        assert(reached.last() == sockets@[i as int]);
        let heard = hears_broadcast(&sockets[i], group_key, exclude_peer_id);
        if heard {
            if let Some(att) = &sockets[i] {
                let draw = &draws[i];
                let packet = match full_update_with(
                    peer_manager,
                    att,
                    att.peer_id,
                    draw.session.clone(),
                    draw.transaction_id,
                    now_ms,
                ) {
                    Ok(packet) => packet,
                    Err(e) => {
                        assert(hears(sockets@[i as int], group_key@, exclude_peer_id));
                        return Err(e);
                    },
                };
                let ghost outcome = packet_of(packet);
                assert(updates_socket_with(
                    mid,
                    peer_manager.route_state@,
                    *att,
                    att.peer_id,
                    draw.session@,
                    draw.transaction_id,
                    now_ms,
                    outcome,
                ));
                if let Some(packet) = packet {
                    let ghost view = packet@;
                    list.push(
                        Delivery {
                            recipient: Recipient::Socket(i),
                            to_peer: att.peer_id,
                            packet_type: PacketType::RpcReq,
                            packet,
                        },
                    );
                    assert(deliveries_of(list@) =~= early.push(
                        DeliveryView {
                            recipient: Recipient::Socket(i),
                            to_peer: att.peer_id,
                            packet_type: PacketType::RpcReq,
                            packet: view,
                        },
                    ));
                }
                assert(broadcast_step_with(
                    mid,
                    peer_manager.route_state@,
                    reached.last()->0,
                    (reached.len() - 1) as usize,
                    draws@[reached.len() - 1],
                    now_ms,
                    early,
                    deliveries_of(list@),
                ));
            }
        }
        i = i + 1;
    }
    assert(sockets@.take(sockets@.len() as int) =~= sockets@);
    Ok(list)
}

/// Broadcast a route update to all peers in the same group. Changes nothing where the system gives
/// no random bytes; a broadcast that nobody hears needs none.
pub fn broadcast_route_update(
    peer_manager: &mut PeerManager,
    sockets: &Vec<Option<WsAttachment>>,
    group_key: &str,
    exclude_peer_id: u32,
    now_ms: u64,
) -> (r: Result<Vec<Delivery>, RandomUnavailable>)
    ensures
        match r {
            Ok(list) => broadcasts(
                old(peer_manager).route_state@,
                final(peer_manager).route_state@,
                sockets@,
                group_key@,
                exclude_peer_id,
                now_ms,
                deliveries_of(list@),
            ),
            Err(_) => {
                &&& someone_hears(sockets@, group_key@, exclude_peer_id)
                &&& final(peer_manager).route_state@ == old(peer_manager).route_state@
            },
        },
{
    let mut draws: Vec<UpdateDraw> = Vec::new();
    let mut i: usize = 0;
    while i < sockets.len()
        invariant
            i <= sockets@.len(),
            draws@.len() == i,
            forall|j: int|
                0 <= j < i && hears(#[trigger] sockets@[j], group_key@, exclude_peer_id)
                    ==> drawn_for(sockets@[j]->0, draws@[j]),
            *peer_manager == *old(peer_manager),
        decreases sockets@.len() - i,
    {
        let mut draw = UpdateDraw { session: String::new(), transaction_id: 0 };
        if hears_broadcast(&sockets[i], group_key, exclude_peer_id) {
            if let Some(att) = &sockets[i] {
                match draw_update(att) {
                    Ok(drawn) => {
                        draw = drawn;
                    },
                    Err(e) => {
                        assert(hears(sockets@[i as int], group_key@, exclude_peer_id));
                        return Err(e);
                    },
                }
            }
        }
        draws.push(draw);
        i = i + 1;
    }
    let ghost before = peer_manager.route_state@;
    match broadcast_route_update_with(
        peer_manager,
        sockets,
        &draws,
        group_key,
        exclude_peer_id,
        now_ms,
    ) {
        Ok(list) => {
            proof {
                broadcast_with_is_broadcast(
                    before,
                    peer_manager.route_state@,
                    sockets@,
                    draws@,
                    group_key@,
                    exclude_peer_id,
                    now_ms,
                    deliveries_of(list@),
                );
            }
            Ok(list)
        },
        Err(e) => Err(e),
    }
}

/// Brings the peers of all sockets of a group up to date. Only sockets that had no handshake yet,
/// whose peer counts as 0, are left out.
pub fn refresh_group(
    peer_manager: &mut PeerManager,
    sockets: &Vec<Option<WsAttachment>>,
    group_key: &str,
    now_ms: u64,
) -> (r: Result<Vec<Delivery>, RandomUnavailable>)
    ensures
        match r {
            Ok(list) => broadcasts(
                old(peer_manager).route_state@,
                final(peer_manager).route_state@,
                sockets@,
                group_key@,
                0,
                now_ms,
                deliveries_of(list@),
            ),
            Err(_) => {
                &&& someone_hears(sockets@, group_key@, 0)
                &&& final(peer_manager).route_state@ == old(peer_manager).route_state@
            },
        },
{
    broadcast_route_update(peer_manager, sockets, group_key, 0, now_ms)
}

/// Whether carrying out `action`, after a call over the socket with the attachment `att`, took the
/// groups from `before` to `after` and called for the deliveries `sent`.
pub open spec fn carries_out(
    before: Map<Seq<char>, GroupView>,
    after: Map<Seq<char>, GroupView>,
    sockets: Seq<Option<WsAttachment>>,
    att: WsAttachment,
    action: RpcActionView,
    now_ms: u64,
    sent: Seq<DeliveryView>,
) -> bool {
    match action {
        RpcActionView::SendTo { peer_id: _, packet } => {
            &&& after == before
            &&& sent == seq![
                DeliveryView {
                    recipient: Recipient::Sender,
                    to_peer: att.peer_id,
                    packet_type: PacketType::RpcResp,
                    packet,
                },
            ]
        },
        RpcActionView::PushRouteUpdate { peer_id, group_key: _ } => exists|
            packet: Option<RpcPacketView>,
        |
            {
                &&& #[trigger] updates_socket(before, after, att, peer_id, now_ms, packet)
                &&& sent == (match packet {
                    Some(p) => seq![
                        DeliveryView {
                            recipient: Recipient::Sender,
                            to_peer: peer_id,
                            packet_type: PacketType::RpcReq,
                            packet: p,
                        },
                    ],
                    None => Seq::empty(),
                })
            },
        RpcActionView::BroadcastRouteUpdate { group_key, exclude_peer_id } => broadcasts(
            before,
            after,
            sockets,
            group_key,
            exclude_peer_id,
            now_ms,
            sent,
        ),
        RpcActionView::Nothing => after == before && sent.len() == 0,
    }
}

/// Whether carrying out `action` can fail for want of random bytes: a route update for one peer, or
/// a broadcast that someone hears.
pub open spec fn can_fail(sockets: Seq<Option<WsAttachment>>, action: RpcActionView) -> bool {
    match action {
        RpcActionView::PushRouteUpdate { peer_id: _, group_key: _ } => true,
        RpcActionView::BroadcastRouteUpdate { group_key, exclude_peer_id } => someone_hears(
            sockets,
            group_key,
            exclude_peer_id,
        ),
        _ => false,
    }
}

/// Carries out what is left to do after a call over the socket with the attachment `att`. An answer
/// never fails; a broadcast that nobody hears does not either. What fails changes nothing.
pub fn perform(
    peer_manager: &mut PeerManager,
    sockets: &Vec<Option<WsAttachment>>,
    att: &WsAttachment,
    action: RpcAction,
    now_ms: u64,
) -> (r: Result<Vec<Delivery>, RandomUnavailable>)
    ensures
        match r {
            Ok(list) => carries_out(
                old(peer_manager).route_state@,
                final(peer_manager).route_state@,
                sockets@,
                *att,
                action@,
                now_ms,
                deliveries_of(list@),
            ),
            Err(_) => {
                &&& can_fail(sockets@, action@)
                &&& final(peer_manager).route_state@ == old(peer_manager).route_state@
            },
        },
{
    let ghost before = peer_manager.route_state@;
    let mut list: Vec<Delivery> = Vec::new();
    match action {
        RpcAction::SendTo { peer_id: _, packet } => {
            let ghost view = packet@;
            list.push(
                Delivery {
                    recipient: Recipient::Sender,
                    to_peer: att.peer_id,
                    packet_type: PacketType::RpcResp,
                    packet,
                },
            );
            assert(deliveries_of(list@) =~= seq![
                DeliveryView {
                    recipient: Recipient::Sender,
                    to_peer: att.peer_id,
                    packet_type: PacketType::RpcResp,
                    packet: view,
                },
            ]);
            Ok(list)
        },
        RpcAction::PushRouteUpdate { peer_id, group_key: _ } => {
            match full_update(peer_manager, att, peer_id, now_ms) {
                Ok(Some(packet)) => {
                    let ghost view = packet@;
                    list.push(
                        Delivery {
                            recipient: Recipient::Sender,
                            to_peer: peer_id,
                            packet_type: PacketType::RpcReq,
                            packet,
                        },
                    );
                    assert(updates_socket(
                        before,
                        peer_manager.route_state@,
                        *att,
                        peer_id,
                        now_ms,
                        Some(view),
                    ));
                    assert(deliveries_of(list@) =~= seq![
                        DeliveryView {
                            recipient: Recipient::Sender,
                            to_peer: peer_id,
                            packet_type: PacketType::RpcReq,
                            packet: view,
                        },
                    ]);
                    Ok(list)
                },
                Ok(None) => {
                    assert(updates_socket(
                        before,
                        peer_manager.route_state@,
                        *att,
                        peer_id,
                        now_ms,
                        None,
                    ));
                    assert(deliveries_of(list@) =~= Seq::empty());
                    Ok(list)
                },
                Err(e) => Err(e),
            }
        },
        RpcAction::BroadcastRouteUpdate { group_key, exclude_peer_id } => broadcast_route_update(
            peer_manager,
            sockets,
            group_key.as_str(),
            exclude_peer_id,
            now_ms,
        ),
        RpcAction::Nothing => Ok(list),
    }
}

/// Whether carrying out `actions` one after the other took the groups from `before` to `after` and
/// called for the deliveries `sent`.
pub open spec fn carries_out_all(
    before: Map<Seq<char>, GroupView>,
    after: Map<Seq<char>, GroupView>,
    sockets: Seq<Option<WsAttachment>>,
    att: WsAttachment,
    actions: Seq<RpcActionView>,
    now_ms: u64,
    sent: Seq<DeliveryView>,
) -> bool
    decreases actions.len(),
{
    if actions.len() == 0 {
        after == before && sent.len() == 0
    } else {
        exists|mid: Map<Seq<char>, GroupView>, early: Seq<DeliveryView>, late: Seq<DeliveryView>|
            {
                &&& carries_out_all(
                    before,
                    mid,
                    sockets,
                    att,
                    actions.drop_last(),
                    now_ms,
                    early,
                )
                &&& #[trigger] carries_out(mid, after, sockets, att, actions.last(), now_ms, late)
                &&& sent == #[trigger] (early + late)
            }
    }
}

/// Whether carrying out `actions` broke off at one of them, and took the groups from `before` to
/// `after`: the actions before one that can fail were carried out, and nothing more.
pub open spec fn breaks_off_among(
    before: Map<Seq<char>, GroupView>,
    after: Map<Seq<char>, GroupView>,
    sockets: Seq<Option<WsAttachment>>,
    att: WsAttachment,
    actions: Seq<RpcActionView>,
    now_ms: u64,
) -> bool {
    exists|i: int, sent: Seq<DeliveryView>|
        {
            &&& 0 <= i < actions.len()
            &&& #[trigger] carries_out_all(
                before,
                after,
                sockets,
                att,
                actions.take(i),
                now_ms,
                sent,
            )
            &&& can_fail(sockets, actions[i])
        }
}

/// Carries out what is left to do after a call over the socket with the attachment `att`, in order.
/// Answers alone never fail.
pub fn perform_all(
    peer_manager: &mut PeerManager,
    sockets: &Vec<Option<WsAttachment>>,
    att: &WsAttachment,
    actions: Vec<RpcAction>,
    now_ms: u64,
) -> (r: Result<Vec<Delivery>, RandomUnavailable>)
    ensures
        match r {
            Ok(list) => carries_out_all(
                old(peer_manager).route_state@,
                final(peer_manager).route_state@,
                sockets@,
                *att,
                crate::rpc_handler::actions_of(actions@),
                now_ms,
                deliveries_of(list@),
            ),
            Err(_) => breaks_off_among(
                old(peer_manager).route_state@,
                final(peer_manager).route_state@,
                sockets@,
                *att,
                crate::rpc_handler::actions_of(actions@),
                now_ms,
            ),
        },
{
    let ghost before = peer_manager.route_state@;
    let ghost all = crate::rpc_handler::actions_of(actions@);
    let ghost given = actions@;
    let mut list: Vec<Delivery> = Vec::new();
    let mut rest = actions;
    let mut i: usize = 0;
    let n: usize = rest.len();
    proof {
        assert(all.take(0) =~= Seq::empty());
        assert(deliveries_of(list@) =~= Seq::empty());
    }
    while i < n
        invariant
            i <= n,
            given == actions@,
            n == given.len(),
            n == all.len(),
            rest@ == given.skip(i as int),
            all == crate::rpc_handler::actions_of(given),
            before == old(peer_manager).route_state@,
            carries_out_all(
                before,
                peer_manager.route_state@,
                sockets@,
                *att,
                all.take(i as int),
                now_ms,
                deliveries_of(list@),
            ),
        decreases n - i,
    {
        let ghost mid = peer_manager.route_state@;
        let ghost early = deliveries_of(list@);
        let ghost reached = all.take(i + 1);
        assert(reached.drop_last() =~= all.take(i as int));
        assert(rest@[0] == given[i as int]);
        let action = rest.remove(0);
        assert(rest@ =~= given.skip(i + 1));
        assert(reached.last() == action@);
        match perform(peer_manager, sockets, att, action, now_ms) {
            Ok(mut next) => {
                let ghost late = deliveries_of(next@);
                list.append(&mut next);
                assert(deliveries_of(list@) =~= early + late);
                assert(carries_out(
                    mid,
                    peer_manager.route_state@,
                    sockets@,
                    *att,
                    reached.last(),
                    now_ms,
                    late,
                ));
            },
            Err(e) => {
                assert(can_fail(sockets@, all[i as int]));
                return Err(e);
            },
        }
        i = i + 1;
    }
    assert(all.take(all.len() as int) =~= all);
    Ok(list)
}

/// The actions after a handshake: the others of the group are told, then the newcomer is brought up
/// to date.
pub open spec fn announcement(att: WsAttachment) -> Seq<RpcActionView> {
    seq![
        RpcActionView::BroadcastRouteUpdate {
            group_key: att.group_key@,
            exclude_peer_id: att.peer_id,
        },
        RpcActionView::PushRouteUpdate { peer_id: att.peer_id, group_key: att.group_key@ },
    ]
}

/// Tells the others of the group about the peer of the socket with the attachment `att`, which just
/// had its handshake, and brings it up to date. `sockets` holds that attachment too.
pub fn announce_newcomer(
    peer_manager: &mut PeerManager,
    sockets: &Vec<Option<WsAttachment>>,
    att: &WsAttachment,
    now_ms: u64,
) -> (r: Result<Vec<Delivery>, RandomUnavailable>)
    ensures
        match r {
            Ok(list) => carries_out_all(
                old(peer_manager).route_state@,
                final(peer_manager).route_state@,
                sockets@,
                *att,
                announcement(*att),
                now_ms,
                deliveries_of(list@),
            ),
            Err(_) => breaks_off_among(
                old(peer_manager).route_state@,
                final(peer_manager).route_state@,
                sockets@,
                *att,
                announcement(*att),
                now_ms,
            ),
        },
{
    let mut actions: Vec<RpcAction> = Vec::new();
    actions.push(
        RpcAction::BroadcastRouteUpdate {
            group_key: att.group_key.clone(),
            exclude_peer_id: att.peer_id,
        },
    );
    actions.push(
        RpcAction::PushRouteUpdate { peer_id: att.peer_id, group_key: att.group_key.clone() },
    );
    assert(crate::rpc_handler::actions_of(actions@) =~= announcement(*att));
    perform_all(peer_manager, sockets, att, actions, now_ms)
}

/// Whether dropping the stale connections of the groups in `keys`, one after the other, took the
/// groups from `before` to `after`.
pub open spec fn cleans_all(
    before: Map<Seq<char>, GroupView>,
    after: Map<Seq<char>, GroupView>,
    keys: Seq<String>,
    now_ms: u64,
) -> bool
    decreases keys.len(),
{
    if keys.len() == 0 {
        after == before
    } else {
        exists|mid: Map<Seq<char>, GroupView>|
            cleans_all(before, mid, keys.drop_last(), now_ms) && #[trigger] cleans_one(
                mid,
                after,
                keys.last()@,
                now_ms,
            )
    }
}

/// Whether dropping the stale connections of the group `key` took the groups from `before` to
/// `after`.
pub open spec fn cleans_one(
    before: Map<Seq<char>, GroupView>,
    after: Map<Seq<char>, GroupView>,
    key: Seq<char>,
    now_ms: u64,
) -> bool {
    crate::route_model::changes_group(
        before,
        after,
        key,
        |g: GroupView| g.cleaned(now_ms, STALE_P2P_THRESHOLD_MS),
    )
}

/// Drops the connections of and to peers that left too long ago, in each of the groups in `keys`.
/// Stops only at a group that has to be set up, where the system gives no random bytes.
pub fn clean_groups(peer_manager: &mut PeerManager, keys: &Vec<String>, now_ms: u64) -> (r: Result<
    (),
    RandomUnavailable,
>)
    ensures
        match r {
            Ok(()) => cleans_all(
                old(peer_manager).route_state@,
                final(peer_manager).route_state@,
                keys@,
                now_ms,
            ),
            Err(_) => exists|i: int|
                {
                    &&& 0 <= i < keys@.len()
                    &&& cleans_all(
                        old(peer_manager).route_state@,
                        final(peer_manager).route_state@,
                        #[trigger] keys@.take(i),
                        now_ms,
                    )
                    &&& !final(peer_manager).route_state@.contains_key(keys@[i]@)
                },
        },
{
    let ghost before = peer_manager.route_state@;
    let mut i: usize = 0;
    assert(keys@.take(0) =~= Seq::empty());
    while i < keys.len()
        invariant
            i <= keys@.len(),
            before == old(peer_manager).route_state@,
            cleans_all(before, peer_manager.route_state@, keys@.take(i as int), now_ms),
        decreases keys@.len() - i,
    {
        let ghost mid = peer_manager.route_state@;
        let ghost reached = keys@.take(i + 1);
        assert(reached.drop_last() =~= keys@.take(i as int));
        if let Err(e) = peer_manager.cleanup_stale_peer_connections(
            keys[i].as_str(),
            STALE_P2P_THRESHOLD_MS,
            now_ms,
        ) {
            return Err(e);
        }
        assert(cleans_one(mid, peer_manager.route_state@, reached.last()@, now_ms));
        i = i + 1;
    }
    assert(keys@.take(keys@.len() as int) =~= keys@);
    Ok(())
}

} // verus!
