use wsrelay::constants::{PacketType, MAGIC, MY_PEER_ID, VERSION};
use wsrelay::gateway::{asks_for_websocket, room_of, route, ws_path, Route};
use wsrelay::global_state::{global_state, GlobalState};
use wsrelay::handlers::{handle_handshake, HandshakeOutcome};
use wsrelay::name_map::NameMap;
use wsrelay::packet::frame_packet;
use wsrelay::peer_manager::PeerManager;
use wsrelay::proto::{HandshakeRequest, Payload, RpcBody, RpcPacket};
use wsrelay::relay_room::{
    accept_handshake, alarm_steps, alarm_time, announce_newcomer, attachment_to_ctx,
    attachment_to_ctx_with, broadcast_route_update, broadcast_route_update_with, classify,
    clean_groups, forward_target, full_update, full_update_with, identify, leave_room,
    new_attachment, note_message, perform, perform_all, refresh_group, restore_peers, sweep, AlarmStep, Inbound, Recipient, Sweep, UpdateDraw,
    WsAttachment,
};
use wsrelay::rpc_handler::RpcAction;

fn handshake(name: &str, digest: Vec<u8>) -> Result<HandshakeRequest, String> {
    Ok(HandshakeRequest {
        magic: MAGIC,
        my_peer_id: 7,
        version: 1,
        features: Vec::new(),
        network_name: name.to_string(),
        network_secret_digest: digest,
    })
}

fn socket(peer_id: u32, group_key: &str) -> Option<WsAttachment> {
    Some(WsAttachment {
        peer_id,
        group_key: group_key.to_string(),
        domain_name: String::new(),
        server_session_id: "42".to_string(),
        we_are_initiator: false,
        last_seen_ms: 1,
    })
}

fn session_of(p: &RpcPacket) -> u64 {
    match &p.body {
        RpcBody::Request(r) => match &r.request {
            Payload::SyncRouteInfoRequest(s) => s.my_session_id,
            _ => panic!("no request"),
        },
        _ => panic!("no request"),
    }
}

#[test]
fn handshakes_register_their_network() {
    let mut registry: NameMap<String> = NameMap::new();
    let o = handle_handshake(&handshake("net", vec![0xab, 0x01]), &mut registry).unwrap();
    assert_eq!(o.peer_id, 7);
    assert_eq!(o.group_key, "net:ab01");
    assert_eq!(o.domain_name, "net");
    assert_eq!(o.response.magic, MAGIC);
    assert_eq!(o.response.my_peer_id, MY_PEER_ID);
    assert_eq!(o.response.version, VERSION);
    assert_eq!(o.response.features, vec!["node-server-v1".to_string()]);
    assert_eq!(o.response.network_name, "public_server");
    assert_eq!(o.response.network_secret_digest, vec![0u8; 32]);
    assert_eq!(registry.get("net"), Some(&"ab01".to_string()));
    let again = handle_handshake(&handshake("net", vec![0xab, 0x01]), &mut registry).unwrap();
    assert_eq!(again.group_key, "net:ab01");
    let other = handle_handshake(&handshake("two", vec![]), &mut registry).unwrap();
    assert_eq!(other.group_key, "two:");
}

#[test]
fn handshakes_can_be_refused() {
    let mut registry: NameMap<String> = NameMap::new();
    handle_handshake(&handshake("net", vec![1]), &mut registry).unwrap();
    assert!(handle_handshake(&handshake("net", vec![2]), &mut registry).is_none());
    assert_eq!(registry.get("net"), Some(&"01".to_string()));
    assert!(handle_handshake(&Err("bad".to_string()), &mut registry).is_none());
    let mut wrong = handshake("new", vec![1]).unwrap();
    wrong.magic = 1;
    assert!(handle_handshake(&Ok(wrong), &mut registry).is_none());
    assert!(!registry.contains_key("new"));
}

#[test]
fn accepted_handshakes_connect_the_peer() {
    let mut registry: NameMap<String> = NameMap::new();
    let outcome: HandshakeOutcome =
        handle_handshake(&handshake("net", vec![1]), &mut registry).unwrap();
    let mut pm = PeerManager::new();
    let mut att = new_attachment("42".to_string(), 5_000);
    att.we_are_initiator = true;
    identify(&mut att, &outcome);
    accept_handshake(&mut pm, &outcome, 9_000).unwrap();
    assert_eq!(att.peer_id, 7);
    assert_eq!(att.group_key, "net:01");
    assert_eq!(att.domain_name, "net");
    assert_eq!(att.server_session_id, "42");
    assert!(!att.we_are_initiator);
    assert_eq!(att.last_seen_ms, 5_000);
    assert_eq!(pm.list_peer_ids_in_group("net:01"), vec![7]);
    let packet = full_update(&mut pm, &att, 7, 9_000).unwrap().unwrap();
    let items = match packet.body {
        RpcBody::Request(r) => match r.request {
            Payload::SyncRouteInfoRequest(s) => s.peer_infos.unwrap().items,
            _ => panic!("no request"),
        },
        _ => panic!("no request"),
    };
    assert_eq!(items[0].peer_id, 7);
    assert_eq!(items[0].network_length, 24);
    assert_eq!(items[0].easytier_version, "");
    assert_eq!(items[0].last_update.unwrap().seconds, 9);
    assert_eq!(items[1].peer_id, MY_PEER_ID);
    assert_eq!(items[1].version, 3);
}

#[test]
fn contexts_come_from_attachments() {
    let att = new_attachment(String::new(), 0);
    let ctx = attachment_to_ctx(&att).unwrap();
    assert_eq!(ctx.domain_name, "public_server");
    assert!(ctx.server_session_id.parse::<u64>().is_ok());
    let ctx = attachment_to_ctx_with(&att, "9".to_string());
    assert_eq!(ctx.server_session_id, "9");
    let mut att = socket(7, "g").unwrap();
    att.domain_name = "net".to_string();
    let ctx = attachment_to_ctx(&att).unwrap();
    assert_eq!(ctx.peer_id, 7);
    assert_eq!(ctx.group_key, "g");
    assert_eq!(ctx.domain_name, "net");
    assert_eq!(ctx.server_session_id, "42");
}

#[test]
fn messages_are_sorted_by_their_header() {
    let msg = |to: u32, t: PacketType| frame_packet(7, to, t, b"x");
    assert_eq!(classify(&[0u8; 15]), Inbound::TooShort);
    assert_eq!(classify(&msg(99, PacketType::HandShake)), Inbound::HandShake);
    assert_eq!(classify(&msg(99, PacketType::Ping)), Inbound::Ping { from: 7 });
    assert_eq!(classify(&msg(0, PacketType::RpcReq)), Inbound::RpcReq);
    assert_eq!(classify(&msg(MY_PEER_ID, PacketType::RpcReq)), Inbound::RpcReq);
    assert_eq!(classify(&msg(9, PacketType::RpcReq)), Inbound::Forward { to: 9 });
    assert_eq!(classify(&msg(0, PacketType::RpcResp)), Inbound::RpcResp { from: 7 });
    assert_eq!(classify(&msg(9, PacketType::RpcResp)), Inbound::Forward { to: 9 });
    assert_eq!(classify(&msg(9, PacketType::Data)), Inbound::Forward { to: 9 });
    assert_eq!(classify(&msg(MY_PEER_ID, PacketType::Data)), Inbound::Forward { to: MY_PEER_ID });
    assert_eq!(classify(&msg(3, PacketType::Pong)), Inbound::Forward { to: 3 });
    let mut odd = msg(3, PacketType::Data);
    odd[8] = 200;
    assert_eq!(classify(&odd), Inbound::Forward { to: 3 });
}

#[test]
fn packets_are_forwarded_inside_their_group() {
    let sockets = vec![None, socket(7, "g"), socket(9, "g"), socket(9, "h"), socket(5, "")];
    let source = socket(7, "g");
    assert_eq!(forward_target(&sockets, &source, 9), Some(2));
    assert_eq!(forward_target(&sockets, &socket(1, "h"), 9), None);
    assert_eq!(forward_target(&sockets, &socket(1, ""), 9), Some(2));
    assert_eq!(forward_target(&sockets, &None, 9), Some(2));
    assert_eq!(forward_target(&sockets, &source, 5), Some(4));
    assert_eq!(forward_target(&sockets, &source, 8), None);
}

#[test]
fn broadcasts_reach_the_group() {
    let mut pm = PeerManager::new();
    let sockets = vec![socket(7, "g"), None, socket(9, "g"), socket(8, "h"), socket(5, "g")];
    restore_peers(&mut pm, &sockets).unwrap();
    let list = broadcast_route_update(&mut pm, &sockets, "g", 9, 1_000).unwrap();
    let got: Vec<(Recipient, u32, PacketType)> =
        list.iter().map(|d| (d.recipient, d.to_peer, d.packet_type)).collect();
    assert_eq!(
        got,
        vec![
            (Recipient::Socket(0), 7, PacketType::RpcReq),
            (Recipient::Socket(4), 5, PacketType::RpcReq),
        ]
    );
    assert_eq!(list[0].packet.to_peer, 7);
    assert_eq!(session_of(&list[0].packet), 42);
}

#[test]
fn broadcasts_use_what_was_drawn() {
    let mut pm = PeerManager::new();
    let mut bare = socket(5, "g").unwrap();
    bare.server_session_id = String::new();
    let sockets = vec![socket(7, "g"), None, Some(bare)];
    restore_peers(&mut pm, &sockets).unwrap();
    let draws: Vec<UpdateDraw> = (0..3)
        .map(|i| UpdateDraw { session: format!("{}", 100 + i), transaction_id: 200 + i })
        .collect();
    let list = broadcast_route_update_with(&mut pm, &sockets, &draws, "g", 0, 1_000).unwrap();
    let got: Vec<(Recipient, i64, u64)> = list
        .iter()
        .map(|d| (d.recipient, d.packet.transaction_id, session_of(&d.packet)))
        .collect();
    assert_eq!(got, vec![(Recipient::Socket(0), 200, 42), (Recipient::Socket(2), 202, 102)]);
}

#[test]
fn broadcasts_that_nobody_hears_set_no_group_up() {
    let mut pm = PeerManager::new();
    let sockets = vec![socket(7, "g"), None];
    let list = broadcast_route_update(&mut pm, &sockets, "h", 0, 1_000).unwrap();
    assert_eq!(list.len(), 0);
    assert_eq!(pm.route_state.get_peer_conn_version("h", MY_PEER_ID), 1);
}

#[test]
fn refreshes_reach_every_peer_of_the_group() {
    let mut pm = PeerManager::new();
    let sockets = vec![socket(7, "g"), socket(0, "g"), socket(8, "h"), None, socket(9, "g")];
    restore_peers(&mut pm, &sockets).unwrap();
    let list = refresh_group(&mut pm, &sockets, "g", 1_000).unwrap();
    let got: Vec<(Recipient, u32)> = list.iter().map(|d| (d.recipient, d.to_peer)).collect();
    assert_eq!(got, vec![(Recipient::Socket(0), 7), (Recipient::Socket(4), 9)]);
}

#[test]
fn messages_are_noted_on_the_attachment() {
    let mut att = socket(7, "g").unwrap();
    note_message(&mut att, 9_000);
    assert_eq!(att.last_seen_ms, 9_000);
    assert_eq!((att.peer_id, att.group_key.as_str()), (7, "g"));
    assert_eq!(att.server_session_id, "42");
}

#[test]
fn the_global_state_is_set_up_once() {
    let mut slot: Option<GlobalState<u8>> = None;
    let state = global_state(&mut slot);
    assert_eq!(state.peer_manager.list_peer_ids_in_group("g"), Vec::<u32>::new());
    assert!(!state.network_digest_registry.contains_key("net"));
    assert!(!state.peer_center_map.contains_key("g"));
    state.peer_manager.add_peer("g", 7).unwrap();
    state.peer_center_map.insert("g".to_string(), 1);
    handle_handshake(&handshake("net", vec![1]), &mut state.network_digest_registry).unwrap();
    let again = global_state(&mut slot);
    assert_eq!(again.peer_manager.list_peer_ids_in_group("g"), vec![7]);
    assert_eq!(again.peer_center_map.get("g"), Some(&1));
    assert!(again.network_digest_registry.contains_key("net"));
}

#[test]
fn restarts_restore_all_peers() {
    let mut pm = PeerManager::new();
    let sockets = vec![socket(7, "g"), socket(0, "g"), None, socket(9, "h")];
    restore_peers(&mut pm, &sockets).unwrap();
    assert_eq!(pm.list_peer_ids_in_group("g"), vec![7]);
    assert_eq!(pm.list_peer_ids_in_group("h"), vec![9]);
    let before = pm.route_state.get_peer_conn_version("g", 7);
    restore_peers(&mut pm, &sockets).unwrap();
    assert_eq!(pm.route_state.get_peer_conn_version("g", 7), before);
    assert_eq!(pm.list_peer_ids_in_group("g"), vec![7]);
}

#[test]
fn closed_sockets_leave_their_group() {
    let mut pm = PeerManager::new();
    let sockets = vec![socket(7, "g"), socket(9, "g")];
    restore_peers(&mut pm, &sockets).unwrap();
    let r = leave_room(&mut pm, &socket(7, "g"), 100).unwrap();
    assert_eq!(r, Some(("g".to_string(), 7)));
    assert_eq!(pm.list_peer_ids_in_group("g"), vec![9]);
    assert_eq!(leave_room(&mut pm, &socket(0, "g"), 100), Ok(None));
    assert_eq!(leave_room(&mut pm, &None, 100), Ok(None));
    clean_groups(&mut pm, &vec!["g".to_string()], 1_000_000).unwrap();
    assert_eq!(pm.list_peer_ids_in_group("g"), vec![9]);
}

#[test]
fn silent_sockets_are_closed() {
    let at = |ms: i64, key: &str| {
        let mut s = socket(7, key).unwrap();
        s.last_seen_ms = ms;
        Some(s)
    };
    let now: i64 = 1_000_000;
    let sockets = vec![
        at(now - 120_000, "b"),
        at(now - 120_001, "c"),
        None,
        at(0, "d"),
        at(now, "a"),
        at(now + 1, "e"),
        at(now - 5, "b"),
        at(now, ""),
        at(-5, "f"),
    ];
    let r = sweep(&sockets, now);
    assert_eq!(r.close, vec![1, 5]);
    assert_eq!(r.alive, 7);
    assert_eq!(r.group_keys, vec!["a".to_string(), "b".to_string()]);
}

#[test]
fn group_keys_are_in_string_order() {
    let keys = ["b:1", "a:2", "\u{e9}", "a", "z", "a:10", "\u{1f600}", "a"];
    let sockets: Vec<Option<WsAttachment>> = keys.iter().map(|k| socket(1, k)).collect();
    let set: std::collections::BTreeSet<String> = keys.iter().map(|k| k.to_string()).collect();
    let expected: Vec<String> = set.into_iter().collect();
    assert_eq!(sweep(&sockets, 1).group_keys, expected);
}

#[test]
fn alarms_lead_to_steps() {
    let names = |steps: Vec<AlarmStep>| -> Vec<String> {
        steps
            .iter()
            .map(|s| match s {
                AlarmStep::Close(i) => format!("close {}", i),
                AlarmStep::Schedule => "schedule".to_string(),
                AlarmStep::CleanGroups => "clean".to_string(),
                AlarmStep::Refresh(key) => format!("refresh {}", key),
            })
            .collect()
    };
    let found = Sweep {
        close: vec![1, 5],
        alive: 2,
        group_keys: vec!["a".to_string(), "b".to_string()],
    };
    assert_eq!(
        names(alarm_steps(&found)),
        vec!["close 1", "close 5", "schedule", "clean", "refresh a", "refresh b"]
    );
    let empty = Sweep { close: vec![0], alive: 0, group_keys: vec![] };
    assert_eq!(names(alarm_steps(&empty)), vec!["close 0"]);
}

#[test]
fn alarms_are_set_once() {
    assert_eq!(alarm_time(None, 1_000), Some(31_000));
    assert_eq!(alarm_time(Some(5), 1_000), None);
}

#[test]
fn actions_are_carried_out() {
    let mut pm = PeerManager::new();
    let sockets = vec![socket(7, "g"), socket(9, "g")];
    restore_peers(&mut pm, &sockets).unwrap();
    let att = socket(7, "g").unwrap();
    let push = RpcAction::PushRouteUpdate { peer_id: 7, group_key: "g".to_string() };
    let list = perform(&mut pm, &sockets, &att, push, 5).unwrap();
    assert_eq!(list.len(), 1);
    assert_eq!(list[0].recipient, Recipient::Sender);
    assert_eq!(list[0].packet_type, PacketType::RpcReq);
    let packet = full_update(&mut pm, &att, 7, 5).unwrap().unwrap();
    let send = RpcAction::SendTo { peer_id: 7, packet };
    let list = perform(&mut pm, &sockets, &att, send, 5).unwrap();
    assert_eq!((list[0].recipient, list[0].to_peer), (Recipient::Sender, 7));
    assert_eq!(list[0].packet_type, PacketType::RpcResp);
    let all = RpcAction::BroadcastRouteUpdate { group_key: "g".to_string(), exclude_peer_id: 7 };
    let list = perform(&mut pm, &sockets, &att, all, 5).unwrap();
    assert_eq!(list.len(), 1);
    assert_eq!(list[0].recipient, Recipient::Socket(1));
    assert_eq!(perform(&mut pm, &sockets, &att, RpcAction::Nothing, 5).unwrap().len(), 0);
}

#[test]
fn full_updates_use_what_was_drawn() {
    let mut pm = PeerManager::new();
    let att = socket(7, "g").unwrap();
    let p = full_update_with(&mut pm, &att, 9, "5".to_string(), 77, 1).unwrap().unwrap();
    assert_eq!((p.to_peer, p.transaction_id), (9, 77));
    assert_eq!(session_of(&p), 42);
    let bare = new_attachment(String::new(), 1);
    let p = full_update_with(&mut pm, &bare, 9, "5".to_string(), 78, 1).unwrap().unwrap();
    assert_eq!(session_of(&p), 5);
    assert_eq!(p.descriptor.unwrap().domain_name, "public_server");
}

#[test]
fn newcomers_are_announced() {
    let mut pm = PeerManager::new();
    let sockets = vec![socket(7, "g"), socket(9, "g"), socket(8, "h")];
    restore_peers(&mut pm, &sockets).unwrap();
    let list = announce_newcomer(&mut pm, &sockets, &socket(7, "g").unwrap(), 5).unwrap();
    let got: Vec<(Recipient, u32)> = list.iter().map(|d| (d.recipient, d.to_peer)).collect();
    assert_eq!(got, vec![(Recipient::Socket(1), 9), (Recipient::Sender, 7)]);
}

#[test]
fn actions_are_carried_out_in_order() {
    let mut pm = PeerManager::new();
    let sockets = vec![socket(7, "g"), socket(9, "g")];
    restore_peers(&mut pm, &sockets).unwrap();
    let att = socket(7, "g").unwrap();
    let packet = full_update(&mut pm, &att, 7, 5).unwrap().unwrap();
    let actions = vec![
        RpcAction::SendTo { peer_id: 7, packet },
        RpcAction::Nothing,
        RpcAction::PushRouteUpdate { peer_id: 7, group_key: "g".to_string() },
        RpcAction::BroadcastRouteUpdate { group_key: "g".to_string(), exclude_peer_id: 7 },
    ];
    let list = perform_all(&mut pm, &sockets, &att, actions, 6).unwrap();
    let got: Vec<(Recipient, PacketType)> =
        list.iter().map(|d| (d.recipient, d.packet_type)).collect();
    assert_eq!(
        got,
        vec![
            (Recipient::Sender, PacketType::RpcResp),
            (Recipient::Sender, PacketType::RpcReq),
            (Recipient::Socket(1), PacketType::RpcReq),
        ]
    );
}

#[test]
fn requests_lead_to_rooms() {
    let pair = |k: &str, v: &str| (k.to_string(), v.to_string());
    let none: Vec<(String, String)> = Vec::new();
    let ws = Some("websocket");
    assert!(matches!(route("/healthz", None, None, &none), Route::Healthy));
    assert!(matches!(route("/x", None, ws, &none), Route::NotFound));
    assert!(matches!(route("/ws", None, None, &none), Route::ExpectedUpgrade));
    assert!(matches!(route("/ws", None, Some("WebSocket"), &none), Route::ExpectedUpgrade));
    match route("/ws/", None, ws, &none) {
        Route::Room(name) => assert_eq!(name, "default"),
        _ => panic!("no room"),
    }
    let query = vec![pair("x", "1"), pair("room", "blue"), pair("room", "red")];
    match route("/relay", Some("//relay"), ws, &query) {
        Route::Room(name) => assert_eq!(name, "blue"),
        _ => panic!("no room"),
    }
    assert_eq!(room_of(&none), "default");
    assert_eq!(ws_path(None), "/ws");
    assert_eq!(ws_path(Some("//a/b/")), "/a/b/");
    assert_eq!(ws_path(Some("")), "/");
    assert!(asks_for_websocket(ws) && !asks_for_websocket(None));
    assert_eq!(route("/healthz", None, None, &none).status(), Some(200));
    assert_eq!(route("/ws", None, None, &none).status(), Some(400));
    assert_eq!(route("/", None, None, &none).status(), Some(404));
    assert_eq!(route("/ws", None, ws, &none).status(), None);
}
