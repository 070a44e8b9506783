//! Which calls are answered, and with what.

use vstd::prelude::*;

use crate::constants::MY_PEER_ID;
use crate::peer_manager::WsPeerContext;
use crate::proto::{
    PayloadView, RpcBodyView, RpcCompressionInfo, RpcDescriptorView, RpcPacket, RpcPacketView,
    RpcResponseView, SyncRouteInfoRequest, SyncRouteInfoResponse,
};
use crate::rpc_handler::{RpcAction, RpcActionView, RpcCall};

verus! {

/// Whether a descriptor names a service of this name, with or without its package, and a method.
pub open spec fn is_for(
    descriptor: Option<RpcDescriptorView>,
    plain: Seq<char>,
    packaged: Seq<char>,
    method: u32,
) -> bool {
    &&& descriptor is Some
    &&& descriptor->0.service_name == plain || descriptor->0.service_name == packaged
    &&& descriptor->0.method_index == method
}

/// What a call asks for: methods 0 and 1 of the peer centre are reports and the global map, methods 0
/// and 1 of the route service both exchange routes, and nothing else is offered.
pub proof fn calls_are_named_by_service_and_method(descriptor: Option<RpcDescriptorView>)
    ensures
        ({
            let call = crate::rpc_handler::call_of(descriptor);
            let center = |method: u32|
                is_for(descriptor, "PeerCenterRpc"@, "peer_rpc.PeerCenterRpc"@, method);
            let routes = |method: u32|
                is_for(descriptor, "OspfRouteRpc"@, "peer_rpc.OspfRouteRpc"@, method);
            &&& call == RpcCall::ReportPeers <==> center(0)
            &&& call == RpcCall::GetGlobalPeerMap <==> center(1)
            &&& call == RpcCall::SyncRouteInfo <==> routes(0) || routes(1)
        }),
{
    reveal_strlit("");
    reveal_strlit("PeerCenterRpc");
    reveal_strlit("peer_rpc.PeerCenterRpc");
    reveal_strlit("OspfRouteRpc");
    reveal_strlit("peer_rpc.OspfRouteRpc");
    assert("PeerCenterRpc"@.len() == 13 && "OspfRouteRpc"@.len() == 12);
    assert("peer_rpc.PeerCenterRpc"@.len() == 22 && "peer_rpc.OspfRouteRpc"@.len() == 21);
    assert(""@.len() == 0);
}

/// The two names of each service, and that a call without a descriptor is for neither.
pub proof fn services_have_two_names(descriptor: Option<RpcDescriptorView>, name: Seq<char>)
    ensures
        descriptor matches Some(d) ==> crate::rpc_handler::service_of(descriptor) == d.service_name,
        descriptor is None ==> crate::rpc_handler::service_of(descriptor).len() == 0,
        crate::rpc_handler::names_peer_center(name) <==> name == "PeerCenterRpc"@ || name
            == "peer_rpc.PeerCenterRpc"@,
        crate::rpc_handler::names_route_service(name) <==> name == "OspfRouteRpc"@ || name
            == "peer_rpc.OspfRouteRpc"@,
{
    reveal_strlit("");
}

/// A body is decompressed exactly if it says that it is compressed by an algorithm above 1; where
/// that fails, and for all other bodies, it is taken as it is.
pub proof fn bodies_are_decompressed_as_they_say(
    info: Option<RpcCompressionInfo>,
    body: Seq<u8>,
)
    ensures
        info is None ==> crate::rpc_handler::plain_body(info, body) == body,
        info matches Some(c) ==> c.algo <= 1 ==> crate::rpc_handler::plain_body(info, body) == body,
        info matches Some(c) ==> c.algo > 1 ==> crate::rpc_handler::plain_body(info, body) == (
        match crate::compress::gunzipped(body) {
            Some(plain) => plain,
            None => body,
        }),
{
}

/// What a packet of the right kind wraps is taken where its body could be decoded; else the body.
pub proof fn wrapped_messages_are_unwrapped(wraps: bool, body: Seq<u8>, decoded: Option<Vec<u8>>)
    ensures
        decoded matches Some(inner) ==> wraps ==> crate::rpc_handler::inner_message(
            wraps,
            body,
            decoded,
        ) == inner@,
        decoded is None || !wraps ==> crate::rpc_handler::inner_message(wraps, body, decoded)
            == body,
{
}

/// An answer goes from the relay to the peer, under the transaction, the descriptor and the trace of
/// the call, in one piece, marked as an answer without an error and as not compressed, and carries
/// just what it was given.
pub proof fn answers_carry_what_they_were_given(
    req: RpcPacketView,
    response: PayloadView,
    to: u32,
)
    ensures
        crate::rpc_handler::rpc_response(req, response, to) == (RpcPacketView {
            from_peer: MY_PEER_ID,
            to_peer: to,
            transaction_id: req.transaction_id,
            descriptor: req.descriptor,
            body: RpcBodyView::Response(RpcResponseView { response, error: None, runtime_us: 0 }),
            is_request: false,
            total_pieces: 1,
            piece_idx: 0,
            trace_id: req.trace_id,
            compression_info: Some(RpcCompressionInfo { algo: 1, accepted_algo: 1 }),
        }),
{
}

/// A call to the peer centre is answered, to the caller alone, with exactly the bytes that the peer
/// centre gave; where it gave none, nothing is sent.
pub proof fn peer_center_replies_go_to_their_caller(
    req: RpcPacketView,
    reply: Result<Vec<u8>, String>,
    peer_id: u32,
)
    ensures
        ({
            let actions = crate::rpc_handler::center_actions(req, reply, peer_id);
            &&& reply is Err ==> actions.len() == 0
            &&& reply matches Ok(bytes) ==> {
                &&& actions.len() == 1
                &&& actions[0] is SendTo
                &&& actions[0]->SendTo_peer_id == peer_id
                &&& actions[0]->packet.to_peer == peer_id
                &&& actions[0]->packet.from_peer == MY_PEER_ID
                &&& actions[0]->packet.transaction_id == req.transaction_id
                &&& actions[0]->packet.descriptor == req.descriptor
                &&& actions[0]->packet.trace_id == req.trace_id
                &&& !actions[0]->packet.is_request
                &&& actions[0]->packet.body is Response
                &&& actions[0]->packet.body->Response_0.response == PayloadView::Bytes(bytes@)
                &&& actions[0]->packet.body->Response_0.error is None
            }
        }),
{
}

/// A response acknowledges a session exactly if it could be decoded as an answer of the route service
/// that names a session other than 0.
pub proof fn only_named_sessions_are_acknowledged(
    packet: Result<RpcPacket, String>,
    response: Result<SyncRouteInfoResponse, String>,
)
    ensures
        crate::rpc_handler::acknowledges(packet, response) <==> {
            &&& packet is Ok
            &&& packet->Ok_0@.descriptor is Some
            &&& packet->Ok_0@.descriptor->0.service_name == "OspfRouteRpc"@
                || packet->Ok_0@.descriptor->0.service_name == "peer_rpc.OspfRouteRpc"@
            &&& response is Ok
            &&& response->Ok_0.session_id != 0
        },
{
    reveal_strlit("");
    reveal_strlit("OspfRouteRpc");
    reveal_strlit("peer_rpc.OspfRouteRpc");
    assert("OspfRouteRpc"@.len() == 12);
    assert("peer_rpc.OspfRouteRpc"@.len() == 21);
}

/// What a call changes of its connection's context: a session that is missing becomes some number,
/// and a request that was decoded gives the relay the other role. All else stays.
pub proof fn contexts_change_just_session_and_role(
    before: WsPeerContext,
    after: WsPeerContext,
    request: Result<SyncRouteInfoRequest, String>,
)
    requires
        crate::rpc_handler::context_after_sync(before, after, request),
    ensures
        after.peer_id == before.peer_id,
        after.group_key@ == before.group_key@,
        after.domain_name@ == before.domain_name@,
        before.server_session_id@.len() > 0 ==> after.server_session_id@
            == before.server_session_id@,
        before.server_session_id@.len() == 0 ==> exists|n: u64|
            after.server_session_id@ == #[trigger] crate::text::decimal(n as nat),
        request matches Ok(req) ==> after.we_are_initiator == !req.is_initiator,
        request is Err ==> after.we_are_initiator == before.we_are_initiator,
{
}

/// Actions are spoken of one by one, with all that they hold.
pub proof fn actions_are_seen_whole(actions: Seq<RpcAction>, i: int)
    requires
        0 <= i < actions.len(),
    ensures
        ({
            let seen = crate::rpc_handler::actions_of(actions);
            &&& seen.len() == actions.len()
            &&& actions[i] matches RpcAction::SendTo { peer_id, packet } ==> seen[i]
                == (RpcActionView::SendTo { peer_id, packet: packet@ })
            &&& actions[i] matches RpcAction::PushRouteUpdate { peer_id, group_key } ==> seen[i]
                == (RpcActionView::PushRouteUpdate { peer_id, group_key: group_key@ })
            &&& actions[i] matches RpcAction::BroadcastRouteUpdate { group_key, exclude_peer_id }
                ==> seen[i] == (RpcActionView::BroadcastRouteUpdate {
                group_key: group_key@,
                exclude_peer_id,
            })
            &&& actions[i] is Nothing ==> seen[i] is Nothing
        }),
{
}

} // verus!
