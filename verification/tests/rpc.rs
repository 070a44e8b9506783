use wsrelay::compress::gzip_maybe;
use wsrelay::constants::MY_PEER_ID;
use wsrelay::peer_manager::{transaction_id_from, PeerManager, WsPeerContext};
use wsrelay::proto::{
    ConnInfo, Payload, PeerConnInfo, PeerIdVersion, RouteConnPeerList, RoutePeerInfo,
    RoutePeerInfos, RpcBody, RpcCompressionInfo, RpcDescriptor, RpcPacket, SyncRouteInfoRequest,
    SyncRouteInfoResponse,
};
use wsrelay::route_state::RouteError;
use wsrelay::rpc_handler::{
    build_rpc_response_bytes, handle_rpc_req, handle_rpc_resp, inner_request_body, is_for_peer_center,
    rpc_body, rpc_call, service_response_body, RpcAction, RpcCall,
};

const KEY: &str = "net:00";

fn context(session: &str) -> WsPeerContext {
    let mut ctx = WsPeerContext::with_session(session.to_string());
    ctx.peer_id = 7;
    ctx.group_key = KEY.to_string();
    ctx
}

fn packet(service: &str, method_index: u32) -> RpcPacket {
    RpcPacket {
        from_peer: 7,
        to_peer: MY_PEER_ID,
        transaction_id: -12,
        descriptor: Some(RpcDescriptor {
            domain_name: "net".to_string(),
            proto_name: "p".to_string(),
            service_name: service.to_string(),
            method_index,
        }),
        body: RpcBody::Bytes(vec![1, 2]),
        is_request: true,
        total_pieces: 1,
        piece_idx: 0,
        trace_id: 3,
        compression_info: None,
    }
}

fn request(sid: u64) -> SyncRouteInfoRequest {
    SyncRouteInfoRequest {
        my_peer_id: 7,
        my_session_id: sid,
        is_initiator: true,
        peer_infos: None,
        conn_info: None,
        foreign_network_infos: None,
    }
}

fn unused() -> Result<Vec<u8>, String> {
    Err("unused".to_string())
}

fn no_request() -> Result<SyncRouteInfoRequest, String> {
    Err("none".to_string())
}

#[test]
fn calls_are_told_apart_by_service_and_method() {
    for prefix in ["", "peer_rpc."] {
        let center = format!("{}PeerCenterRpc", prefix);
        let ospf = format!("{}OspfRouteRpc", prefix);
        assert_eq!(rpc_call(&packet(&center, 0)), RpcCall::ReportPeers);
        assert_eq!(rpc_call(&packet(&center, 1)), RpcCall::GetGlobalPeerMap);
        assert_eq!(rpc_call(&packet(&center, 2)), RpcCall::Unhandled);
        assert_eq!(rpc_call(&packet(&ospf, 0)), RpcCall::SyncRouteInfo);
        assert_eq!(rpc_call(&packet(&ospf, 1)), RpcCall::SyncRouteInfo);
        assert_eq!(rpc_call(&packet(&ospf, 2)), RpcCall::Unhandled);
        assert!(is_for_peer_center(&packet(&center, 2)));
        assert!(!is_for_peer_center(&packet(&ospf, 0)));
    }
    assert_eq!(rpc_call(&packet("Other", 0)), RpcCall::Unhandled);
    let mut bare = packet("x", 0);
    bare.descriptor = None;
    assert_eq!(rpc_call(&bare), RpcCall::Unhandled);
}

#[test]
fn bodies_are_decompressed_when_they_say_so() {
    let data = vec![5u8; 300];
    let packed = gzip_maybe(&data);
    let info = |algo: i32| Some(RpcCompressionInfo { algo, accepted_algo: 1 });
    assert_eq!(rpc_body(&info(2), &packed), data);
    assert_eq!(rpc_body(&info(1), &packed), packed);
    assert_eq!(rpc_body(&None, &packed), packed);
    assert_eq!(rpc_body(&info(2), &data), data);
}

#[test]
fn inner_messages_are_unwrapped() {
    let mut p = packet("x", 0);
    assert_eq!(inner_request_body(&p, vec![1], Some(vec![2])), vec![2]);
    assert_eq!(inner_request_body(&p, vec![1], None), vec![1]);
    assert_eq!(service_response_body(&p, vec![1], Some(vec![2])), vec![1]);
    p.is_request = false;
    assert_eq!(inner_request_body(&p, vec![1], Some(vec![2])), vec![1]);
    assert_eq!(service_response_body(&p, vec![1], Some(vec![2])), vec![2]);
    assert_eq!(service_response_body(&p, vec![1], None), vec![1]);
}

#[test]
fn answers_match_their_calls() {
    let call = packet("PeerCenterRpc", 0);
    let answer = build_rpc_response_bytes(&call, Payload::Bytes(vec![9]), 7);
    assert_eq!(answer.from_peer, MY_PEER_ID);
    assert_eq!(answer.to_peer, 7);
    assert_eq!(answer.transaction_id, -12);
    assert_eq!(answer.trace_id, 3);
    assert!(!answer.is_request);
    assert_eq!((answer.total_pieces, answer.piece_idx), (1, 0));
    assert_eq!(answer.compression_info, Some(RpcCompressionInfo { algo: 1, accepted_algo: 1 }));
    assert_eq!(answer.descriptor.unwrap().service_name, "PeerCenterRpc");
    match answer.body {
        RpcBody::Response(r) => {
            assert!(matches!(r.response, Payload::Bytes(b) if b == vec![9]));
            assert!(r.error.is_none());
            assert_eq!(r.runtime_us, 0);
        }
        _ => panic!("no response"),
    }
}

#[test]
fn peer_center_replies_are_sent_back() {
    let mut ctx = context("42");
    let mut pm = PeerManager::new();
    let call = Ok(packet("PeerCenterRpc", 1));
    let actions = handle_rpc_req(&mut ctx, &mut pm, &call, Ok(vec![4]), &no_request(), 0).unwrap();
    assert_eq!(actions.len(), 1);
    match &actions[0] {
        RpcAction::SendTo { peer_id, packet } => {
            assert_eq!(*peer_id, 7);
            assert_eq!(packet.to_peer, 7);
        }
        _ => panic!("not sent"),
    }
    let none = handle_rpc_req(&mut ctx, &mut pm, &call, unused(), &no_request(), 0).unwrap();
    assert_eq!(none.len(), 0);
}

#[test]
fn unknown_calls_are_ignored() {
    let mut ctx = context("42");
    let mut pm = PeerManager::new();
    for call in [Ok(packet("Other", 0)), Err("bad".to_string())] {
        let sync = Ok(request(50));
        let actions = handle_rpc_req(&mut ctx, &mut pm, &call, Ok(vec![1]), &sync, 0).unwrap();
        assert_eq!(actions.len(), 0);
    }
    assert_eq!(pm.route_state.get_peer_conn_version(KEY, MY_PEER_ID), 1);
    assert!(!ctx.we_are_initiator);
}

#[test]
fn syncs_are_answered_and_followed_by_an_update() {
    let mut ctx = context("42");
    let mut pm = PeerManager::new();
    pm.add_peer(KEY, 7).unwrap();
    let call = Ok(packet("OspfRouteRpc", 1));
    let actions =
        handle_rpc_req(&mut ctx, &mut pm, &call, unused(), &Ok(request(50)), 1_000).unwrap();
    assert_eq!(actions.len(), 2);
    match &actions[0] {
        RpcAction::SendTo { peer_id, packet } => {
            assert_eq!(*peer_id, 7);
            match &packet.body {
                RpcBody::Response(r) => match &r.response {
                    Payload::SyncRouteInfoResponse(s) => assert_eq!(
                        *s,
                        SyncRouteInfoResponse { is_initiator: false, session_id: 1, error: None }
                    ),
                    _ => panic!("no answer"),
                },
                _ => panic!("no response"),
            }
        }
        _ => panic!("not sent"),
    }
    match &actions[1] {
        RpcAction::PushRouteUpdate { peer_id, group_key } => {
            assert_eq!((*peer_id, group_key.as_str()), (7, KEY))
        }
        _ => panic!("no update"),
    }
    assert!(!ctx.we_are_initiator);
    assert_eq!(ctx.server_session_id, "42");
}

#[test]
fn news_is_broadcast() {
    let mut ctx = context("");
    let mut pm = PeerManager::new();
    pm.add_peer(KEY, 7).unwrap();
    pm.add_peer(KEY, 9).unwrap();
    let call = Ok(packet("peer_rpc.OspfRouteRpc", 0));
    let mut linked = request(50);
    linked.is_initiator = false;
    linked.conn_info = Some(ConnInfo::ConnPeerList(RouteConnPeerList {
        peer_conn_infos: vec![PeerConnInfo {
            peer_id: Some(PeerIdVersion { peer_id: 7, version: 1 }),
            connected_peer_ids: vec![9],
        }],
    }));
    let sync = Ok(linked);
    let actions = handle_rpc_req(&mut ctx, &mut pm, &call, unused(), &sync, 1).unwrap();
    assert_eq!(actions.len(), 3);
    match &actions[2] {
        RpcAction::BroadcastRouteUpdate { group_key, exclude_peer_id } => {
            assert_eq!((group_key.as_str(), *exclude_peer_id), (KEY, 7))
        }
        _ => panic!("no broadcast"),
    }
    assert!(ctx.we_are_initiator);
    assert!(ctx.server_session_id.parse::<u64>().is_ok());
    let again = handle_rpc_req(&mut ctx, &mut pm, &call, unused(), &sync, 2).unwrap();
    assert_eq!(again.len(), 2);
    let mut strange = request(50);
    strange.peer_infos = Some(RoutePeerInfos {
        items: vec![RoutePeerInfo { peer_id: 30, version: 1, ..RoutePeerInfo::default() }],
    });
    let actions = handle_rpc_req(&mut ctx, &mut pm, &call, unused(), &Ok(strange), 3).unwrap();
    assert_eq!(actions.len(), 3);
}

#[test]
fn later_infos_are_passed_on() {
    let mut ctx = context("42");
    let mut pm = PeerManager::new();
    pm.add_peer(KEY, 7).unwrap();
    let describes = |versions: &[u32]| -> Result<SyncRouteInfoRequest, String> {
        let mut r = request(50);
        r.peer_infos = Some(RoutePeerInfos {
            items: versions
                .iter()
                .map(|v| RoutePeerInfo { peer_id: 7, version: *v, ..RoutePeerInfo::default() })
                .collect(),
        });
        Ok(r)
    };
    pm.process_incoming_peer_infos(KEY, 7, &describes(&[1])).unwrap();
    let call = Ok(packet("OspfRouteRpc", 1));
    let mut actions_for = |versions: &[u32]| {
        handle_rpc_req(&mut ctx, &mut pm, &call, unused(), &describes(versions), 1_000).unwrap()
    };
    let actions = actions_for(&[2]);
    assert_eq!(actions.len(), 3);
    match &actions[2] {
        RpcAction::BroadcastRouteUpdate { group_key, exclude_peer_id } => {
            assert_eq!((group_key.as_str(), *exclude_peer_id), (KEY, 7))
        }
        _ => panic!("no broadcast"),
    }
    assert_eq!(actions_for(&[2]).len(), 2);
    assert_eq!(actions_for(&[1]).len(), 2);
    assert_eq!(actions_for(&[1, 2]).len(), 3);
}

#[test]
fn infos_are_told_apart_by_what_is_new() {
    let mut pm = PeerManager::new();
    pm.add_peer(KEY, 7).unwrap();
    let item = |peer_id: u32, version: u32| RoutePeerInfo {
        peer_id,
        version,
        ..RoutePeerInfo::default()
    };
    let mut news = |items: Vec<RoutePeerInfo>| {
        let n = pm.take_peer_infos(KEY, &items).unwrap();
        (n.discovered, n.newer)
    };
    assert_eq!(news(vec![]), (false, false));
    assert_eq!(news(vec![item(7, 1)]), (false, false));
    assert_eq!(news(vec![item(7, 1)]), (false, false));
    assert_eq!(news(vec![item(7, 2)]), (false, true));
    assert_eq!(news(vec![item(30, 1)]), (true, false));
    assert_eq!(news(vec![item(30, 1), item(30, 2)]), (true, true));
}

#[test]
fn undecodable_syncs_get_no_answer() {
    let mut ctx = context("");
    let mut pm = PeerManager::new();
    let call = Ok(packet("OspfRouteRpc", 1));
    let actions = handle_rpc_req(&mut ctx, &mut pm, &call, unused(), &no_request(), 1).unwrap();
    assert_eq!(actions.len(), 0);
    assert_eq!(pm.route_state.get_peer_conn_version(KEY, MY_PEER_ID), 1);
    assert!(!ctx.server_session_id.is_empty());
}

#[test]
fn responses_acknowledge_sessions() {
    let ctx = context("42");
    let mut pm = PeerManager::new();
    pm.add_peer(KEY, 7).unwrap();
    let resp = |sid: u64| -> Result<SyncRouteInfoResponse, String> {
        Ok(SyncRouteInfoResponse { is_initiator: true, session_id: sid, error: None })
    };
    let items = |pm: &mut PeerManager, ctx: &WsPeerContext| -> bool {
        let p = pm.build_route_update(ctx, 7, false, 9).unwrap().unwrap();
        match p.body {
            RpcBody::Request(r) => match r.request {
                Payload::SyncRouteInfoRequest(s) => s.peer_infos.is_some(),
                _ => panic!("no request"),
            },
            _ => panic!("no request"),
        }
    };
    assert!(items(&mut pm, &ctx));
    let ospf = Ok(packet("OspfRouteRpc", 1));
    assert!(handle_rpc_resp(&ctx, &mut pm, 7, &ospf, &resp(0), 1).unwrap().is_none());
    assert!(handle_rpc_resp(&ctx, &mut pm, 7, &Ok(packet("X", 1)), &resp(5), 1).unwrap().is_none());
    assert!(handle_rpc_resp(&ctx, &mut pm, 7, &Err("bad".to_string()), &resp(5), 1)
        .unwrap()
        .is_none());
    assert!(handle_rpc_resp(&ctx, &mut pm, 7, &ospf, &Err("bad".to_string()), 1).unwrap().is_none());
    assert!(items(&mut pm, &ctx));
    assert!(handle_rpc_resp(&ctx, &mut pm, 7, &ospf, &resp(5), 1).unwrap().is_none());
    assert!(items(&mut pm, &ctx));
    assert!(!items(&mut pm, &ctx));
}

#[test]
fn route_updates_are_packed_as_calls() {
    let mut pm = PeerManager::new();
    let mut ctx = context("123");
    ctx.domain_name = "net".to_string();
    ctx.we_are_initiator = true;
    let p = pm.build_route_update_with(&ctx, 9, true, u32::MAX, 1).unwrap().unwrap();
    assert_eq!((p.from_peer, p.to_peer), (MY_PEER_ID, 9));
    assert_eq!(p.transaction_id, 4_294_967_295);
    let d = p.descriptor.unwrap();
    assert_eq!(d.domain_name, "net");
    assert_eq!((d.proto_name.as_str(), d.service_name.as_str()), ("OspfRouteRpc", "OspfRouteRpc"));
    assert_eq!(d.method_index, 1);
    assert!(p.is_request);
    assert_eq!((p.total_pieces, p.piece_idx, p.trace_id), (1, 0, 0));
    assert_eq!(p.compression_info, Some(RpcCompressionInfo { algo: 1, accepted_algo: 1 }));
    match p.body {
        RpcBody::Request(r) => {
            assert!(r.descriptor.is_none());
            assert_eq!(r.timeout_ms, 5000);
            match r.request {
                Payload::SyncRouteInfoRequest(s) => {
                    assert_eq!(s.my_session_id, 123);
                    assert!(s.is_initiator);
                }
                _ => panic!("no request"),
            }
        }
        _ => panic!("no request"),
    }
}

#[test]
fn sessions_that_are_no_numbers_count_as_zero() {
    let mut pm = PeerManager::new();
    let p = pm.build_route_update_with(&context("x"), 9, true, 0, 1).unwrap().unwrap();
    match p.body {
        RpcBody::Request(r) => match r.request {
            Payload::SyncRouteInfoRequest(s) => assert_eq!(s.my_session_id, 0),
            _ => panic!("no request"),
        },
        _ => panic!("no request"),
    }
}

#[test]
fn transaction_ids_are_the_low_half_of_a_number() {
    assert_eq!(transaction_id_from("4294967301"), 5);
    assert_eq!(transaction_id_from("7"), 7);
    assert_eq!(transaction_id_from("x"), 0);
    assert_eq!(transaction_id_from("18446744073709551615"), u32::MAX);
}

#[test]
fn peer_managers_keep_track_of_peers() {
    let mut pm = PeerManager::new();
    pm.add_peer(KEY, 9).unwrap();
    pm.add_peer(KEY, 7).unwrap();
    assert_eq!(pm.list_peer_ids_in_group(KEY), vec![7, 9]);
    assert_eq!(pm.remove_peer(&context("1"), 5), Ok(true));
    assert_eq!(pm.list_peer_ids_in_group(KEY), vec![9]);
    let mut stranger = context("1");
    stranger.peer_id = 0;
    assert_eq!(pm.remove_peer(&stranger, 5), Ok(false));
    let info = RoutePeerInfo { peer_id: 9, version: 2, ..RoutePeerInfo::default() };
    pm.update_peer_info(KEY, 9, Ok(info)).unwrap();
    pm.update_peer_info(KEY, 9, Err("bad".to_string())).unwrap();
    pm.on_route_session_ack(KEY, 9, 4, true, 6).unwrap();
    pm.cleanup_stale_peer_connections(KEY, 0, 100).unwrap();
    let fresh = WsPeerContext::fresh().unwrap();
    assert_eq!(fresh.domain_name, "public_server");
    assert_eq!(fresh.peer_id, 0);
    assert!(fresh.server_session_id.parse::<u64>().is_ok());
    let copy = fresh.clone();
    assert_eq!(copy.server_session_id, fresh.server_session_id);
    assert_eq!(copy.domain_name, fresh.domain_name);
}

#[test]
fn incoming_infos_discover_peers() {
    let mut pm = PeerManager::new();
    let with = |ids: &[u32]| -> Result<SyncRouteInfoRequest, String> {
        let mut r = request(1);
        r.peer_infos = Some(RoutePeerInfos {
            items: ids
                .iter()
                .map(|id| RoutePeerInfo { peer_id: *id, version: 1, ..RoutePeerInfo::default() })
                .collect(),
        });
        Ok(r)
    };
    assert!(!pm.process_incoming_peer_infos(KEY, 7, &Ok(request(1))).unwrap());
    assert!(!pm.process_incoming_peer_infos(KEY, 7, &with(&[])).unwrap());
    assert_eq!(pm.route_state.get_peer_conn_version(KEY, MY_PEER_ID), 1);
    pm.add_peer(KEY, 7).unwrap();
    assert!(!pm.process_incoming_peer_infos(KEY, 7, &with(&[7, MY_PEER_ID])).unwrap());
    assert!(pm.process_incoming_peer_infos(KEY, 7, &with(&[7, 30])).unwrap());
    assert!(pm.process_incoming_peer_infos(KEY, 7, &with(&[30])).unwrap());
    match pm.process_incoming_peer_infos(KEY, 7, &Err("bad".to_string())) {
        Err(RouteError::Undecodable(t)) => assert_eq!(t, "decode SyncRouteInfoRequest: bad"),
        _ => panic!("decoded"),
    }
    assert_eq!(pm.process_incoming_conn_info(KEY, 7, &Ok(request(1))), Ok(false));
    let answer = pm.handle_sync_route_info(KEY, 7, &Ok(request(1)), 3).unwrap().unwrap();
    assert_eq!(answer, SyncRouteInfoResponse { is_initiator: false, session_id: 1, error: None });
    assert_eq!(pm.handle_sync_route_info(KEY, 7, &Err("bad".to_string()), 3), Ok(None));
}
