//! Remote procedure calls that are addressed to the relay.
//!
//! The host decodes messages and runs the peer centre; the rules here say what to decode, which
//! service a call is for, how the groups change and what to send.

use vstd::prelude::*;

use crate::compress::gunzip_maybe;
use crate::constants::MY_PEER_ID;
use crate::crypto::random_u64_string;
use crate::peer_manager::{PeerManager, WsPeerContext};
use crate::proto::{
    Payload, PayloadView, RpcBody, RpcBodyView, RpcCompressionInfo, RpcDescriptorView, RpcPacket,
    RpcPacketView, RpcResponse, RpcResponseView, SyncRouteInfoRequest, SyncRouteInfoResponse,
};
use crate::random::RandomUnavailable;
use crate::route_model::{GroupSeed, GroupView};
use crate::text::{is_blank, same_text};

verus! {

/// Action to take after processing an RPC request/response.
#[derive(Debug)]
pub enum RpcAction {
    /// Send a packet to a specific peer.
    SendTo { peer_id: u32, packet: RpcPacket },
    /// Push a full route update to a specific peer (after handling SyncRouteInfo).
    PushRouteUpdate { peer_id: u32, group_key: String },
    /// Broadcast route update to all peers in the group (except excluded).
    BroadcastRouteUpdate { group_key: String, exclude_peer_id: u32 },
    /// No action needed.
    Nothing,
}

/// `RpcAction` over sequences.
#[verifier::ext_equal]
pub enum RpcActionView {
    SendTo { peer_id: u32, packet: RpcPacketView },
    PushRouteUpdate { peer_id: u32, group_key: Seq<char> },
    BroadcastRouteUpdate { group_key: Seq<char>, exclude_peer_id: u32 },
    Nothing,
}

impl View for RpcAction {
    type V = RpcActionView;

    open spec fn view(&self) -> RpcActionView {
        match self {
            RpcAction::SendTo { peer_id, packet } => RpcActionView::SendTo {
                peer_id: *peer_id,
                packet: packet@,
            },
            RpcAction::PushRouteUpdate { peer_id, group_key } => RpcActionView::PushRouteUpdate {
                peer_id: *peer_id,
                group_key: group_key@,
            },
            RpcAction::BroadcastRouteUpdate { group_key, exclude_peer_id } => {
                RpcActionView::BroadcastRouteUpdate {
                    group_key: group_key@,
                    exclude_peer_id: *exclude_peer_id,
                }
            },
            RpcAction::Nothing => RpcActionView::Nothing,
        }
    }
}

/// The views of a list of actions.
pub open spec fn actions_of(actions: Seq<RpcAction>) -> Seq<RpcActionView> {
    actions.map_values(|a: RpcAction| a@)
}

/// What a call to the relay asks for.
#[derive(Debug, Clone, Copy, PartialEq, Eq, Structural)]
pub enum RpcCall {
    /// The peer centre takes a report of a peer's connections.
    ReportPeers,
    /// The peer centre gives out the connections of all peers.
    GetGlobalPeerMap,
    /// Route information is exchanged.
    SyncRouteInfo,
    /// Nothing that the relay offers.
    Unhandled,
}

/// The name of the service that a call is for; empty where the call has no descriptor.
pub open spec fn service_of(descriptor: Option<RpcDescriptorView>) -> Seq<char> {
    match descriptor {
        Some(d) => d.service_name,
        None => ""@,
    }
}

/// Whether a name is that of the peer centre.
pub open spec fn names_peer_center(service: Seq<char>) -> bool {
    service == "peer_rpc.PeerCenterRpc"@ || service == "PeerCenterRpc"@
}

/// Whether a name is that of the route service.
pub open spec fn names_route_service(service: Seq<char>) -> bool {
    service == "peer_rpc.OspfRouteRpc"@ || service == "OspfRouteRpc"@
}

/// What a call with this descriptor asks for.
pub open spec fn call_of(descriptor: Option<RpcDescriptorView>) -> RpcCall {
    let service = service_of(descriptor);
    let method: u32 = match descriptor {
        Some(d) => d.method_index,
        None => 0,
    };
    if names_peer_center(service) {
        if method == 0 {
            RpcCall::ReportPeers
        } else if method == 1 {
            RpcCall::GetGlobalPeerMap
        } else {
            RpcCall::Unhandled
        }
    } else if names_route_service(service) && (method == 0 || method == 1) {
        RpcCall::SyncRouteInfo
    } else {
        RpcCall::Unhandled
    }
}

/// Whether a call is for the peer centre, whatever it asks of it.
pub fn is_for_peer_center(packet: &RpcPacket) -> (r: bool)
    ensures
        r == names_peer_center(service_of(packet@.descriptor)),
{
    let service = match &packet.descriptor {
        Some(d) => d.service_name.as_str(),
        None => "",
    };
    same_text(service, "peer_rpc.PeerCenterRpc") || same_text(service, "PeerCenterRpc")
}

fn is_for_route_service(packet: &RpcPacket) -> (r: bool)
    ensures
        r == names_route_service(service_of(packet@.descriptor)),
{
    let service = match &packet.descriptor {
        Some(d) => d.service_name.as_str(),
        None => "",
    };
    same_text(service, "peer_rpc.OspfRouteRpc") || same_text(service, "OspfRouteRpc")
}

/// What a call asks for.
pub fn rpc_call(packet: &RpcPacket) -> (r: RpcCall)
    ensures
        r == call_of(packet@.descriptor),
{
    proof {
        reveal_strlit("");
        reveal_strlit("peer_rpc.PeerCenterRpc");
        reveal_strlit("PeerCenterRpc");
        reveal_strlit("peer_rpc.OspfRouteRpc");
        reveal_strlit("OspfRouteRpc");
    }
    let method: u32 = match &packet.descriptor {
        Some(d) => d.method_index,
        None => 0,
    };
    if is_for_peer_center(packet) {
        if method == 0 {
            RpcCall::ReportPeers
        } else if method == 1 {
            RpcCall::GetGlobalPeerMap
        } else {
            RpcCall::Unhandled
        }
    } else if is_for_route_service(packet) && (method == 0 || method == 1) {
        RpcCall::SyncRouteInfo
    } else {
        RpcCall::Unhandled
    }
}

/// The body of a call as it was before compression.
pub open spec fn plain_body(compression_info: Option<RpcCompressionInfo>, body: Seq<u8>) -> Seq<u8> {
    match compression_info {
        Some(c) if c.algo > 1 => crate::compress::or_unchanged(
            crate::compress::gunzipped(body),
            body,
        ),
        _ => body,
    }
}

/// Decompresses the body of a call if it says that it is compressed.
pub fn rpc_body(compression_info: &Option<RpcCompressionInfo>, body: &[u8]) -> (r: Vec<u8>)
    ensures
        r@ == plain_body(*compression_info, body@),
{
    match compression_info {
        Some(c) => {
            if c.algo > 1 {
                gunzip_maybe(body)
            } else {
                crate::bytes::copy_bytes(body)
            }
        },
        None => crate::bytes::copy_bytes(body),
    }
}

/// The message inside the body of a packet: what the body wraps, where the packet is of the kind
/// `wraps` and its body could be decoded, else the body itself.
pub open spec fn inner_message(
    wraps: bool,
    body: Seq<u8>,
    decoded: Option<Vec<u8>>,
) -> Seq<u8> {
    match decoded {
        Some(inner) if wraps => inner@,
        _ => body,
    }
}

/// The service's request inside a packet. `decoded` is the request inside the body, if the body
/// could be decoded as an RPC request.
pub fn inner_request_body(packet: &RpcPacket, body: Vec<u8>, decoded: Option<Vec<u8>>) -> (r: Vec<
    u8,
>)
    ensures
        r@ == inner_message(packet.is_request, body@, decoded),
{
    match decoded {
        Some(inner) => if packet.is_request {
            inner
        } else {
            body
        },
        None => body,
    }
}

/// The service's response inside a packet. `decoded` is the response inside the body, if the body
/// could be decoded as an RPC response.
pub fn service_response_body(
    packet: &RpcPacket,
    body: Vec<u8>,
    decoded: Option<Vec<u8>>,
) -> (r: Vec<u8>)
    ensures
        r@ == inner_message(!packet.is_request, body@, decoded),
{
    match decoded {
        Some(inner) => if !packet.is_request {
            inner
        } else {
            body
        },
        None => body,
    }
}

/// The packet that carries `response` as the answer to the call `req` back to `to_peer_id`.
pub open spec fn rpc_response(
    req: RpcPacketView,
    response: PayloadView,
    to_peer_id: u32,
) -> RpcPacketView {
    RpcPacketView {
        from_peer: MY_PEER_ID,
        to_peer: to_peer_id,
        transaction_id: req.transaction_id,
        descriptor: req.descriptor,
        body: RpcBodyView::Response(RpcResponseView { response, error: None, runtime_us: 0 }),
        is_request: false,
        total_pieces: 1,
        piece_idx: 0,
        trace_id: req.trace_id,
        compression_info: Some(RpcCompressionInfo { algo: 1, accepted_algo: 1 }),
    }
}

/// Build a full RPC response packet (without outer packet header wrapping).
pub fn build_rpc_response_bytes(
    req_rpc_packet: &RpcPacket,
    response_body: Payload,
    to_peer_id: u32,
) -> (r: RpcPacket)
    ensures
        r@ == rpc_response(req_rpc_packet@, response_body@, to_peer_id),
{
    let descriptor = match &req_rpc_packet.descriptor {
        Some(d) => Some(d.clone()),
        None => None,
    };
    RpcPacket {
        from_peer: MY_PEER_ID,
        to_peer: to_peer_id,
        transaction_id: req_rpc_packet.transaction_id,
        descriptor,
        body: RpcBody::Response(RpcResponse { response: response_body, error: None, runtime_us: 0 }),
        is_request: false,
        total_pieces: 1,
        piece_idx: 0,
        trace_id: req_rpc_packet.trace_id,
        compression_info: Some(RpcCompressionInfo { algo: 1, accepted_algo: 1 }),
    }
}

/// What is done after a SyncRouteInfo call of `peer_id` was dealt with: it is answered, then
/// brought up to date, and the others are told if there is news for them.
pub open spec fn sync_actions(
    req: RpcPacketView,
    response: SyncRouteInfoResponse,
    peer_id: u32,
    group_key: Seq<char>,
    news: bool,
) -> Seq<RpcActionView> {
    let answered = seq![
        RpcActionView::SendTo {
            peer_id,
            packet: rpc_response(req, PayloadView::SyncRouteInfoResponse(response), peer_id),
        },
        RpcActionView::PushRouteUpdate { peer_id, group_key },
    ];
    if news {
        answered.push(RpcActionView::BroadcastRouteUpdate { group_key, exclude_peer_id: peer_id })
    } else {
        answered
    }
}

/// Whether dealing with a SyncRouteInfo call took the groups from `before` to `after` and called
/// for `actions`.
pub open spec fn syncs(
    before: Map<Seq<char>, GroupView>,
    after: Map<Seq<char>, GroupView>,
    packet: RpcPacketView,
    peer_id: u32,
    group_key: Seq<char>,
    req: crate::proto::SyncRequestView,
    now_ms: u64,
    actions: Seq<RpcActionView>,
) -> bool {
    exists|seed: GroupSeed|
        {
            let g = #[trigger] crate::route_model::group_at(before, group_key, seed);
            &&& after == before.insert(group_key, g.synced(peer_id, req, now_ms))
            &&& actions == sync_actions(
                packet,
                g.before_answer(peer_id, req, now_ms).response(peer_id, req),
                peer_id,
                group_key,
                g.sync_brings_news(peer_id, req, now_ms),
            )
        }
}

/// Whether the context `after` is `before` but for the session and the role: the session was drawn
/// if there was none, and the role is the other one than that of a request that was decoded.
pub open spec fn context_after_sync(
    before: WsPeerContext,
    after: WsPeerContext,
    request: Result<SyncRouteInfoRequest, String>,
) -> bool {
    &&& after.peer_id == before.peer_id
    &&& after.group_key == before.group_key
    &&& after.domain_name == before.domain_name
    &&& if before.server_session_id@.len() == 0 {
        exists|n: u64| after.server_session_id@ == #[trigger] crate::text::decimal(n as nat)
    } else {
        after.server_session_id == before.server_session_id
    }
    &&& after.we_are_initiator == (match request {
        Ok(req) => !req.is_initiator,
        Err(_) => before.we_are_initiator,
    })
}

/// Handle SyncRouteInfo RPC: update peer info, generate response, and push route update.
/// A request that could not be decoded changes no group and gets no answer.
fn handle_sync_route_info(
    ctx: &mut WsPeerContext,
    peer_manager: &mut PeerManager,
    rpc_packet: &RpcPacket,
    request: &Result<SyncRouteInfoRequest, String>,
    group_key: &str,
    now_ms: u64,
) -> (r: Result<Vec<RpcAction>, RandomUnavailable>)
    ensures
        match r {
            Ok(actions) => {
                &&& context_after_sync(*old(ctx), *final(ctx), *request)
                &&& match request {
                    Ok(req) => syncs(
                        old(peer_manager).route_state@,
                        final(peer_manager).route_state@,
                        rpc_packet@,
                        old(ctx).peer_id,
                        group_key@,
                        req@,
                        now_ms,
                        actions_of(actions@),
                    ),
                    Err(_) => actions@.len() == 0 && final(peer_manager).route_state@ == old(
                        peer_manager,
                    ).route_state@,
                }
            },
            Err(_) => {
                &&& old(ctx).server_session_id@.len() == 0 || (request is Ok && !old(
                    peer_manager,
                ).route_state@.contains_key(group_key@))
                &&& final(peer_manager).route_state@ == old(peer_manager).route_state@
                &&& *final(ctx) == *old(ctx)
            },
        },
{
    let ghost before = peer_manager.route_state@;
    let ghost peer_id = ctx.peer_id;
    let session = if is_blank(ctx.server_session_id.as_str()) {
        match random_u64_string() {
            Ok(session) => session,
            Err(e) => {
                return Err(e);
            },
        }
    } else {
        ctx.server_session_id.clone()
    };
    let req = match request {
        Ok(req) => req,
        Err(_) => {
            ctx.server_session_id = session;
            return Ok(Vec::new());
        },
    };
    if let Err(e) = peer_manager.on_route_session_ack(
        group_key,
        ctx.peer_id,
        req.my_session_id,
        !req.is_initiator,
        now_ms,
    ) {
        return Err(e);
    }
    ctx.server_session_id = session;
    ctx.we_are_initiator = !req.is_initiator;
    let ghost acked = peer_manager.route_state@;
    let ghost seed = choose|seed: GroupSeed|
        acked == before.insert(
            group_key@,
            (#[trigger] crate::route_model::group_at(before, group_key@, seed)).with_ack(
                peer_id,
                req.my_session_id,
                !req.is_initiator,
                now_ms,
            ),
        );
    let ghost g = crate::route_model::group_at(before, group_key@, seed);
    let ghost g1 = g.with_ack(peer_id, req.my_session_id, !req.is_initiator, now_ms);
    let ghost infos = GroupView::infos_in(req@);
    let ghost g2 = g1.with_infos(infos);
    let ghost g3 = g2.with_report(peer_id, req@.conn_info);
    assert(acked == before.insert(group_key@, g1));
    let infos_bring_news = match peer_manager.take_peer_infos_of(group_key, req) {
        Ok(news) => news.discovered || news.newer,
        Err(_) => false,
    };
    assert(peer_manager.route_state@ =~= before.insert(group_key@, g2));
    let links_changed = match peer_manager.process_incoming_conn_info(
        group_key,
        ctx.peer_id,
        request,
    ) {
        Ok(changed) => changed,
        Err(e) => {
            return Err(e);
        },
    };
    assert(peer_manager.route_state@ =~= before.insert(group_key@, g3));
    let response = match peer_manager.handle_sync_route_info(
        group_key,
        ctx.peer_id,
        request,
        now_ms,
    ) {
        Ok(Some(response)) => response,
        Ok(None) => {
            return Ok(Vec::new());
        },
        Err(e) => {
            return Err(e);
        },
    };
    assert(peer_manager.route_state@ =~= before.insert(
        group_key@,
        g.synced(peer_id, req@, now_ms),
    ));
    let mut actions: Vec<RpcAction> = Vec::new();
    actions.push(
        RpcAction::SendTo {
            peer_id: ctx.peer_id,
            packet: build_rpc_response_bytes(
                rpc_packet,
                Payload::SyncRouteInfoResponse(response),
                ctx.peer_id,
            ),
        },
    );
    actions.push(
        RpcAction::PushRouteUpdate { peer_id: ctx.peer_id, group_key: group_key.to_owned() },
    );
    if infos_bring_news || links_changed {
        actions.push(
            RpcAction::BroadcastRouteUpdate {
                group_key: group_key.to_owned(),
                exclude_peer_id: ctx.peer_id,
            },
        );
    }
    assert(actions_of(actions@) =~= sync_actions(
        rpc_packet@,
        g.before_answer(peer_id, req@, now_ms).response(peer_id, req@),
        peer_id,
        group_key@,
        g.sync_brings_news(peer_id, req@, now_ms),
    ));
    Ok(actions)
}

/// Handle an incoming RPC request.
/// Routes to PeerCenterRpc or OspfRouteRpc based on the descriptor.
/// Returns a list of actions to take (may be empty).
///
/// `packet` is the decoded packet. `peer_center` is the peer centre's reply to a call that is for
/// it, `sync_request` the decoded request of a call that is for the route service; where the call
/// is for another service they are not looked at.
pub fn handle_rpc_req(
    ctx: &mut WsPeerContext,
    peer_manager: &mut PeerManager,
    packet: &Result<RpcPacket, String>,
    peer_center: Result<Vec<u8>, String>,
    sync_request: &Result<SyncRouteInfoRequest, String>,
    now_ms: u64,
) -> (r: Result<Vec<RpcAction>, RandomUnavailable>)
    ensures
        ({
            let before = old(peer_manager).route_state@;
            let after = final(peer_manager).route_state@;
            let unchanged = after == before && *final(ctx) == *old(ctx);
            match packet {
                Err(_) => r matches Ok(actions) && actions@.len() == 0 && unchanged,
                Ok(p) => match call_of(p@.descriptor) {
                    RpcCall::ReportPeers | RpcCall::GetGlobalPeerMap => {
                        &&& unchanged
                        &&& r matches Ok(actions)
                        &&& actions_of(actions@) == center_actions(
                            p@,
                            peer_center,
                            old(ctx).peer_id,
                        )
                    },
                    RpcCall::SyncRouteInfo => match r {
                        Ok(actions) => {
                            &&& context_after_sync(*old(ctx), *final(ctx), *sync_request)
                            &&& match sync_request {
                                Ok(req) => syncs(
                                    before,
                                    after,
                                    p@,
                                    old(ctx).peer_id,
                                    old(ctx).group_key@,
                                    req@,
                                    now_ms,
                                    actions_of(actions@),
                                ),
                                Err(_) => actions@.len() == 0 && after == before,
                            }
                        },
                        Err(_) => {
                            &&& unchanged
                            &&& old(ctx).server_session_id@.len() == 0 || (sync_request is Ok
                                && !before.contains_key(old(ctx).group_key@))
                        },
                    },
                    RpcCall::Unhandled => r matches Ok(actions) && actions@.len() == 0 && unchanged,
                },
            }
        }),
{
    let p = match packet {
        Ok(p) => p,
        Err(_) => {
            return Ok(Vec::new());
        },
    };
    match rpc_call(p) {
        RpcCall::ReportPeers => Ok(answer_from_center(p, peer_center, ctx.peer_id)),
        RpcCall::GetGlobalPeerMap => Ok(answer_from_center(p, peer_center, ctx.peer_id)),
        RpcCall::SyncRouteInfo => {
            let group_key = ctx.group_key.clone();
            handle_sync_route_info(ctx, peer_manager, p, sync_request, group_key.as_str(), now_ms)
        },
        RpcCall::Unhandled => Ok(Vec::new()),
    }
}

/// What is done after a call to the peer centre: its reply is sent, if it gave one.
pub open spec fn center_actions(
    req: RpcPacketView,
    reply: Result<Vec<u8>, String>,
    peer_id: u32,
) -> Seq<RpcActionView> {
    match reply {
        Ok(bytes) => seq![
            RpcActionView::SendTo {
                peer_id,
                packet: rpc_response(req, PayloadView::Bytes(bytes@), peer_id),
            },
        ],
        Err(_) => Seq::empty(),
    }
}

fn answer_from_center(packet: &RpcPacket, reply: Result<Vec<u8>, String>, peer_id: u32) -> (r: Vec<
    RpcAction,
>)
    ensures
        actions_of(r@) == center_actions(packet@, reply, peer_id),
{
    let mut actions: Vec<RpcAction> = Vec::new();
    let ghost given = reply;
    if let Ok(bytes) = reply {
        actions.push(
            RpcAction::SendTo {
                peer_id,
                packet: build_rpc_response_bytes(packet, Payload::Bytes(bytes), peer_id),
            },
        );
    }
    assert(actions_of(actions@) =~= center_actions(packet@, given, peer_id));
    actions
}

/// Whether a response acknowledges a route session: it is for the route service, could be decoded
/// and names a session.
pub open spec fn acknowledges(
    packet: Result<RpcPacket, String>,
    response: Result<SyncRouteInfoResponse, String>,
) -> bool {
    &&& packet matches Ok(p) && names_route_service(service_of(p@.descriptor))
    &&& response matches Ok(resp) && resp.session_id != 0
}

/// Handle an incoming RPC response.
///
/// `packet` is the decoded packet, `response` the decoded response in it. Only the answer to a
/// route update changes anything: it acknowledges the peer's session. No response calls for an
/// action.
pub fn handle_rpc_resp(
    ctx: &WsPeerContext,
    peer_manager: &mut PeerManager,
    header_from_peer_id: u32,
    packet: &Result<RpcPacket, String>,
    response: &Result<SyncRouteInfoResponse, String>,
    now_ms: u64,
) -> (r: Result<Option<RpcAction>, RandomUnavailable>)
    ensures
        ({
            let before = old(peer_manager).route_state@;
            let after = final(peer_manager).route_state@;
            if acknowledges(*packet, *response) {
                match r {
                    Ok(action) => action is None && crate::route_model::changes_group(
                        before,
                        after,
                        ctx.group_key@,
                        |g: GroupView|
                            g.with_ack(
                                header_from_peer_id,
                                response->Ok_0.session_id,
                                ctx.we_are_initiator,
                                now_ms,
                            ),
                    ),
                    Err(_) => !before.contains_key(ctx.group_key@) && after == before,
                }
            } else {
                r matches Ok(action) && action is None && after == before
            }
        }),
{
    let p = match packet {
        Ok(p) => p,
        Err(_) => {
            return Ok(None);
        },
    };
    if is_for_route_service(p) {
        if let Ok(resp) = response {
            if resp.session_id != 0 {
                if let Err(e) = peer_manager.on_route_session_ack(
                    ctx.group_key.as_str(),
                    header_from_peer_id,
                    resp.session_id,
                    ctx.we_are_initiator,
                    now_ms,
                ) {
                    return Err(e);
                }
            }
        }
    }
    Ok(None)
}

/// An answer goes back under the transaction, the descriptor and the trace of its call, and is
/// marked as an answer.
pub proof fn answers_match_their_calls(req: RpcPacketView, response: PayloadView, to_peer_id: u32)
    ensures
        ({
            let answer = rpc_response(req, response, to_peer_id);
            &&& answer.transaction_id == req.transaction_id
            &&& answer.descriptor == req.descriptor
            &&& answer.trace_id == req.trace_id
            &&& answer.to_peer == to_peer_id
            &&& answer.from_peer == MY_PEER_ID
            &&& !answer.is_request
        }),
{
}

/// A later version of an info that is known, such as that of a peer that came back, is news: the
/// other peers are told.
pub proof fn later_infos_are_passed_on(
    g: GroupView,
    from: u32,
    req: crate::proto::SyncRequestView,
    now_ms: u64,
    i: int,
)
    requires
        0 <= i < GroupView::infos_in(req).len(),
        g.peer_infos.contains_key(GroupView::infos_in(req)[i].peer_id),
        GroupView::infos_in(req)[i].version > g.peer_infos[GroupView::infos_in(
            req,
        )[i].peer_id].version,
    ensures
        g.sync_brings_news(from, req, now_ms),
{
    let infos = GroupView::infos_in(req);
    let acked = g.with_ack(from, req.my_session_id, !req.is_initiator, now_ms);
    infos_stay_or_are_newer(acked, infos, infos[i].peer_id, i);
    if !acked.brings_newer(infos) {
        assert(acked.newer_at(infos, i));
    }
}

proof fn infos_stay_or_are_newer(
    g: GroupView,
    infos: Seq<crate::proto::RoutePeerInfoView>,
    id: u32,
    k: int,
)
    requires
        0 <= k <= infos.len(),
        g.peer_infos.contains_key(id),
    ensures
        g.with_infos(infos.take(k)).peer_infos.contains_key(id),
        g.brings_newer(infos) || g.with_infos(infos.take(k)).peer_infos[id] == g.peer_infos[id],
    decreases k,
{
    if k > 0 {
        infos_stay_or_are_newer(g, infos, id, k - 1);
        assert(infos.take(k).drop_last() =~= infos.take(k - 1));
        assert(g.newer_at(infos, k - 1) ==> g.brings_newer(infos));
    } else {
        assert(infos.take(0) =~= Seq::empty());
    }
}

/// Dealing with a SyncRouteInfo call leaves the session of the calling peer acknowledged, and
/// keeps the group consistent.
pub proof fn syncing_acknowledges_the_session(
    g: GroupView,
    from: u32,
    req: crate::proto::SyncRequestView,
    now_ms: u64,
)
    requires
        g.consistent(),
    ensures
        g.synced(from, req, now_ms).session(from).dst_session_id == Some(req.my_session_id),
        g.synced(from, req, now_ms).consistent(),
{
    let g1 = g.with_ack(from, req.my_session_id, !req.is_initiator, now_ms);
    crate::route_laws::groups_stay_consistent(
        g,
        crate::route_laws::GroupEvent::Acknowledged {
            id: from,
            sid: req.my_session_id,
            we_are_initiator: !req.is_initiator,
            now_ms,
        },
    );
    infos_stay_consistent(g1, GroupView::infos_in(req));
    let g2 = g1.with_infos(GroupView::infos_in(req));
    crate::route_laws::groups_stay_consistent(
        g2,
        crate::route_laws::GroupEvent::Reported { from, conn_info: req.conn_info },
    );
    crate::route_laws::groups_stay_consistent(
        g.before_answer(from, req, now_ms),
        crate::route_laws::GroupEvent::Requested { from, req, now_ms },
    );
}

proof fn infos_stay_consistent(g: GroupView, infos: Seq<crate::proto::RoutePeerInfoView>)
    requires
        g.consistent(),
    ensures
        g.with_infos(infos).consistent(),
    decreases infos.len(),
{
    if infos.len() > 0 {
        infos_stay_consistent(g, infos.drop_last());
        crate::route_laws::groups_stay_consistent(
            g.with_infos(infos.drop_last()),
            crate::route_laws::GroupEvent::Described {
                id: infos.last().peer_id,
                info: infos.last(),
            },
        );
    }
}

} // verus!
