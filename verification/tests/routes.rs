use wsrelay::conn_bitmap::get_connected_peers_from_bitmap;
use wsrelay::constants::MY_PEER_ID;
use wsrelay::proto::{
    ConnInfo, PeerConnInfo, PeerIdVersion, RouteConnBitmap, RouteConnPeerList, RoutePeerInfo,
    RoutePeerInfos, SyncRouteInfoRequest, SyncRouteInfoResponse, Timestamp, Uuid,
};
use wsrelay::route_group::RouteGroupData;
use wsrelay::route_model::GroupSeed;
use wsrelay::route_state::{seed_from, RouteError, RouteState, SeedBytes};

const KEY: &str = "net:00";

fn seed() -> GroupSeed {
    GroupSeed {
        inst_id: Uuid { part1: 1, part2: 2, part3: 3, part4: 4 },
        peer_route_id: 5,
    }
}

fn group() -> RouteGroupData {
    RouteGroupData::fresh(seed())
}

fn info(peer_id: u32, version: u32) -> RoutePeerInfo {
    RoutePeerInfo { peer_id, version, ..RoutePeerInfo::default() }
}

fn request(sid: u64, is_initiator: bool) -> SyncRouteInfoRequest {
    SyncRouteInfoRequest {
        my_peer_id: 1,
        my_session_id: sid,
        is_initiator,
        peer_infos: None,
        conn_info: None,
        foreign_network_infos: None,
    }
}

fn list_of(entries: Vec<(u32, Vec<u32>)>) -> Option<ConnInfo> {
    let peer_conn_infos = entries
        .into_iter()
        .map(|(id, connected_peer_ids)| PeerConnInfo {
            peer_id: Some(PeerIdVersion { peer_id: id, version: 1 }),
            connected_peer_ids,
        })
        .collect();
    Some(ConnInfo::ConnPeerList(RouteConnPeerList { peer_conn_infos }))
}

fn links(g: &RouteGroupData, id: u32) -> Option<Vec<u32>> {
    g.peer_connections.get(&id).map(|s| s.iter().copied().collect())
}

fn version(g: &RouteGroupData, id: u32) -> Option<u32> {
    g.peer_conn_versions.get(&id).copied()
}

#[test]
fn a_new_group_describes_the_relay() {
    let g = group();
    assert_eq!(g.my_info.peer_id, MY_PEER_ID);
    assert_eq!(g.my_info.inst_id, Some(seed().inst_id));
    assert_eq!(g.my_info.cost, 1);
    assert_eq!(g.my_info.version, 1);
    assert_eq!(g.my_info.network_length, 24);
    assert_eq!(g.my_info.easytier_version, "cf-easytier-wsrelay");
    assert_eq!(g.my_info.hostname.as_deref(), Some("cf-easytier-wsrelay"));
    assert_eq!(g.my_info.peer_route_id, 5);
    let f = g.my_info.feature_flag.unwrap();
    assert!(f.is_public_server && f.avoid_relay_data && f.need_p2p);
    assert!(!f.kcp_input && !f.no_relay_kcp && !f.support_conn_list_sync && !f.quic_input);
    assert!(!f.no_relay_quic && !f.is_credential_peer && !f.disable_p2p);
    assert!(!f.ipv6_public_addr_provider);
    assert_eq!(g.my_info_version, 1);
    assert!(g.peers.is_empty());
}

#[test]
fn joining_raises_all_versions_once() {
    let mut g = group();
    g.add_peer(7);
    assert_eq!(version(&g, 7), Some(2));
    assert_eq!(version(&g, MY_PEER_ID), Some(2));
    g.add_peer(9);
    assert_eq!(version(&g, 7), Some(3));
    assert_eq!(version(&g, 9), Some(2));
    assert_eq!(version(&g, MY_PEER_ID), Some(3));
    g.add_peer(9);
    assert_eq!(version(&g, 9), Some(2));
}

#[test]
fn leaving_forgets_the_peer_but_not_its_links() {
    let mut g = group();
    g.add_peer(7);
    g.add_peer(9);
    g.update_peer_info(7, info(7, 4));
    g.on_route_session_ack(7, 1, false, 10);
    assert!(g.update_peer_connections(7, &list_of(vec![(7, vec![9])])));
    g.remove_peer(7, 1000);
    assert!(!g.peers.contains(&7));
    assert!(!g.peer_infos.contains_key(&7));
    assert!(!g.sessions.contains_key(&7));
    assert_eq!(version(&g, 7), Some(5));
    assert_eq!(links(&g, 7), Some(vec![9]));
    assert_eq!(g.peer_removed_at.get(&7), Some(&1000));
    g.add_peer(7);
    assert_eq!(version(&g, 7), Some(6));
    assert_eq!(links(&g, 7), Some(vec![9]));
    assert_eq!(g.peer_removed_at.get(&7), None);
}

#[test]
fn versions_grow_over_a_reconnect() {
    let mut g = group();
    g.add_peer(7);
    g.add_peer(9);
    assert_eq!(version(&g, 7), Some(3));
    g.remove_peer(7, 10);
    assert_eq!(version(&g, 7), Some(3));
    assert_eq!(version(&g, 9), Some(3));
    g.add_peer(7);
    assert_eq!(version(&g, 7), Some(4));
    assert_eq!(version(&g, 9), Some(4));
}

#[test]
fn infos_of_the_relay_raise_its_version_twice() {
    let mut g = group();
    assert!(g.update_peer_info(MY_PEER_ID, info(MY_PEER_ID, 1)));
    assert_eq!(version(&g, MY_PEER_ID), Some(3));
}

#[test]
fn only_newer_infos_are_taken() {
    let mut g = group();
    assert!(g.update_peer_info(7, info(7, 3)));
    let v = version(&g, 7);
    assert!(!g.update_peer_info(7, info(7, 3)));
    assert!(!g.update_peer_info(7, info(7, 2)));
    assert_eq!(g.peer_infos[&7].version, 3);
    assert!(g.update_peer_info(7, info(7, 4)));
    assert_eq!(g.peer_infos[&7].version, 4);
    assert_eq!(version(&g, 7), v);
}

#[test]
fn a_new_session_starts_over() {
    let mut g = group();
    g.add_peer(7);
    g.on_route_session_ack(7, 50, true, 1);
    g.build_sync_route_info_request(7, 8, true, false, 2).unwrap();
    assert!(!g.sessions[&7].peer_info_ver_map.is_empty());
    g.on_route_session_ack(7, 50, false, 3);
    assert!(!g.sessions[&7].peer_info_ver_map.is_empty());
    assert!(g.sessions[&7].last_conn_bitmap_sig.is_some());
    assert_eq!(g.sessions[&7].foreign_net_ver, 1);
    assert!(!g.sessions[&7].we_are_initiator);
    g.on_route_session_ack(7, 51, true, 4);
    let s = &g.sessions[&7];
    assert!(s.peer_info_ver_map.is_empty());
    assert!(s.conn_bitmap_ver_map.is_empty());
    assert_eq!(s.foreign_net_ver, 0);
    assert_eq!(s.last_conn_bitmap_sig, None);
    assert_eq!(s.dst_session_id, Some(51));
    assert_eq!(s.last_touch_ms, 4);
    assert!(s.we_are_initiator);
}

#[test]
fn own_info_fields_are_set() {
    let mut g = group();
    assert_eq!(g.set_my_info_field("hostname", "relay"), Ok(()));
    assert_eq!(g.my_info.hostname.as_deref(), Some("relay"));
    assert_eq!(g.my_info.version, 2);
    assert_eq!(g.set_my_info_field("network_length", "16"), Ok(()));
    assert_eq!(g.my_info.network_length, 16);
    assert_eq!(g.set_my_info_field("ipv4_addr", "167772161"), Ok(()));
    assert_eq!(g.my_info.ipv4_addr.unwrap().addr, 167772161);
    assert_eq!(g.my_info.version, 4);
    assert_eq!(g.my_info_version, 4);
    assert_eq!(
        g.set_my_info_field("network_length", "x"),
        Err("invalid network_length".to_string())
    );
    assert_eq!(g.set_my_info_field("ipv4_addr", "10.0.0.1"), Err("invalid ipv4_addr".to_string()));
    assert_eq!(g.set_my_info_field("cost", "1"), Err("unknown field".to_string()));
    assert_eq!(g.my_info_version, 4);
}

#[test]
fn reported_links_are_confined_to_other_connected_peers() {
    let mut g = group();
    g.add_peer(7);
    g.add_peer(9);
    assert!(g.update_peer_connections(7, &list_of(vec![(7, vec![7, 9, 11, MY_PEER_ID])])));
    assert_eq!(links(&g, 7), Some(vec![9]));
    let v = version(&g, 7);
    assert!(!g.update_peer_connections(7, &list_of(vec![(7, vec![9])])));
    assert!(!g.update_peer_connections(7, &None));
    assert_eq!(version(&g, 7), v);
    assert!(g.update_peer_connections(7, &list_of(vec![(9, vec![7])])));
    assert_eq!(links(&g, 7), None);
    assert!(!g.update_peer_connections(7, &list_of(vec![])));
}

#[test]
fn reported_bitmaps_are_read_by_row() {
    let ids = |v: &[u32]| -> Vec<PeerIdVersion> {
        v.iter().map(|id| PeerIdVersion { peer_id: *id, version: 1 }).collect()
    };
    let bitmap = RouteConnBitmap { peer_ids: ids(&[7, 9, 11]), bitmap: vec![0b0101_0110, 0b1] };
    let row = |i: usize| -> Vec<u32> {
        get_connected_peers_from_bitmap(&bitmap, i).into_iter().collect()
    };
    assert_eq!(row(0), vec![9, 11]);
    assert_eq!(row(1), vec![9]);
    assert_eq!(row(2), vec![7, 11]);
    assert_eq!(row(3), Vec::<u32>::new());
    let short = RouteConnBitmap { peer_ids: ids(&[7, 9, 11]), bitmap: vec![0xff] };
    let last: Vec<u32> = get_connected_peers_from_bitmap(&short, 2).into_iter().collect();
    assert_eq!(last, vec![7, 9]);
    let far: Vec<u32> = get_connected_peers_from_bitmap(&short, usize::MAX).into_iter().collect();
    assert_eq!(far, Vec::<u32>::new());

    let mut g = group();
    g.add_peer(7);
    g.add_peer(9);
    g.add_peer(11);
    assert!(g.update_peer_connections(7, &Some(ConnInfo::ConnBitmap(bitmap))));
    assert_eq!(links(&g, 7), Some(vec![9, 11]));
    let without = RouteConnBitmap { peer_ids: ids(&[9]), bitmap: vec![1] };
    assert!(g.update_peer_connections(7, &Some(ConnInfo::ConnBitmap(without))));
    assert_eq!(links(&g, 7), None);
}

#[test]
fn stale_links_are_dropped() {
    let mut g = group();
    for id in [7, 9, 11] {
        g.add_peer(id);
    }
    g.update_peer_connections(7, &list_of(vec![(7, vec![9, 11])]));
    g.update_peer_connections(9, &list_of(vec![(9, vec![7])]));
    g.remove_peer(9, 1000);
    g.cleanup_stale_peer_connections(1600, 600);
    assert_eq!(links(&g, 7), Some(vec![9, 11]));
    assert_eq!(links(&g, 9), Some(vec![7]));
    g.cleanup_stale_peer_connections(500, 0);
    assert_eq!(links(&g, 9), Some(vec![7]));
    g.cleanup_stale_peer_connections(1601, 600);
    assert_eq!(links(&g, 7), Some(vec![11]));
    assert_eq!(links(&g, 9), None);
    assert!(g.peer_removed_at.is_empty());
}

#[test]
fn links_that_were_cleaned_away_count_as_none() {
    let mut g = group();
    g.add_peer(7);
    g.add_peer(8);
    assert!(g.update_peer_connections(7, &list_of(vec![(7, vec![8])])));
    g.remove_peer(8, 1_000);
    g.cleanup_stale_peer_connections(1_601, 600);
    assert_eq!(links(&g, 7), Some(vec![]));
    let v = version(&g, 7);
    assert!(!g.update_peer_connections(7, &list_of(vec![(7, vec![])])));
    assert_eq!(version(&g, 7), v);
    g.add_peer(8);
    assert!(g.update_peer_connections(7, &list_of(vec![(7, vec![8])])));
    assert!(g.update_peer_connections(7, &list_of(vec![(7, vec![])])));
    assert_eq!(links(&g, 7), None);
}

#[test]
fn requests_are_answered() {
    let mut g = group();
    g.add_peer(7);
    let mut req = request(40, true);
    req.peer_infos = Some(RoutePeerInfos { items: vec![info(7, 9), info(8, 1), info(7, 2)] });
    let r = g.handle_sync_route_info_request(7, &req, 5_500);
    assert_eq!(r, SyncRouteInfoResponse { is_initiator: false, session_id: 1, error: None });
    assert_eq!(g.sessions[&7].dst_session_id, Some(40));
    assert_eq!(g.sessions[&7].last_touch_ms, 5_500);
    assert_eq!(g.peer_infos[&7].version, 2);
    assert_eq!(g.peer_infos[&7].last_update, Some(Timestamp { seconds: 5, nanos: 0 }));
    assert!(!g.peer_infos.contains_key(&8));
    assert_eq!(version(&g, 7), Some(3));
    g.build_sync_route_info_request(7, 77, true, true, 6_000).unwrap();
    let r = g.handle_sync_route_info_request(7, &request(40, false), 6_001);
    assert_eq!(r, SyncRouteInfoResponse { is_initiator: true, session_id: 77, error: None });
    assert_eq!(version(&g, 7), Some(3));
}

#[test]
fn updates_speak_of_every_peer() {
    let mut g = group();
    g.add_peer(9);
    g.add_peer(20_000_000);
    g.update_peer_connections(9, &list_of(vec![(9, vec![20_000_000])]));
    let req = g.build_sync_route_info_request(7, 77, true, false, 12_345).unwrap();
    assert_eq!(req.my_peer_id, MY_PEER_ID);
    assert_eq!(req.my_session_id, 77);
    assert!(req.is_initiator);
    let items = req.peer_infos.unwrap().items;
    let ids: Vec<u32> = items.iter().map(|i| i.peer_id).collect();
    assert_eq!(ids, vec![7, 9, MY_PEER_ID, 20_000_000]);
    assert_eq!(items[0].version, 1);
    assert_eq!(items[0].easytier_version, "cf-2.6");
    assert_eq!(items[0].network_length, 24);
    assert_eq!(items[0].cost, 1);
    assert_eq!(items[0].inst_id, Some(Uuid { part1: 0, part2: 0, part3: 0, part4: 0 }));
    assert_eq!(items[0].last_update, Some(Timestamp { seconds: 12, nanos: 0 }));
    assert_eq!(items[0].hostname, None);
    assert_eq!(items[2].hostname.as_deref(), Some("cf-easytier-wsrelay"));
    let bitmap = match req.conn_info {
        Some(ConnInfo::ConnBitmap(b)) => b,
        _ => panic!("no bit map"),
    };
    let versions: Vec<(u32, u32)> =
        bitmap.peer_ids.iter().map(|p| (p.peer_id, p.version)).collect();
    assert_eq!(versions, vec![(7, 1), (9, 4), (MY_PEER_ID, 4), (20_000_000, 3)]);
    // Rows: 7 sees itself and the relay; 9 itself, the relay and the last; the relay all.
    assert_eq!(bitmap.bitmap, vec![0b1110_0101, 0b1110_1111]);
    let foreign = req.foreign_network_infos.unwrap().infos;
    assert_eq!(foreign.len(), 1);
    let key = foreign[0].key.as_ref().unwrap();
    assert_eq!((key.peer_id, key.network_name.as_str()), (MY_PEER_ID, "dev-websocket-relay"));
    let value = foreign[0].value.as_ref().unwrap();
    assert_eq!(value.foreign_peer_ids, vec![7, 9, MY_PEER_ID, 20_000_000]);
    assert_eq!(value.version, 1);
    assert_eq!(value.network_secret_digest, vec![0u8; 32]);
    assert_eq!(value.my_peer_id_for_this_network, MY_PEER_ID);
    assert_eq!(value.last_update, Some(Timestamp { seconds: 12, nanos: 0 }));
    assert_eq!(g.sessions[&7].conn_bitmap_ver_map.get(&7), Some(&4));
    assert_eq!(
        g.sessions[&7].last_conn_bitmap_sig.as_deref(),
        Some("7:1,9:4,10000001:4,20000000:3|e5ef")
    );
}

#[test]
fn updates_are_not_repeated() {
    let mut g = group();
    g.add_peer(7);
    g.on_route_session_ack(7, 50, false, 1);
    let first = g.build_sync_route_info_request(7, 77, false, false, 2).unwrap();
    assert!(first.peer_infos.is_some());
    assert!(first.conn_info.is_some());
    let second = g.build_sync_route_info_request(7, 77, false, false, 3).unwrap();
    assert!(second.peer_infos.is_none());
    assert!(second.conn_info.is_none());
    let foreign = second.foreign_network_infos.unwrap().infos;
    assert_eq!(foreign[0].value.as_ref().unwrap().version, 2);
    g.bump_my_info_version();
    let third = g.build_sync_route_info_request(7, 77, false, false, 4).unwrap();
    let ids: Vec<u32> = third.peer_infos.unwrap().items.iter().map(|i| i.peer_id).collect();
    assert_eq!(ids, vec![MY_PEER_ID]);
    assert!(third.conn_info.is_none());
    let forced = g.build_sync_route_info_request(7, 77, false, true, 5).unwrap();
    assert_eq!(forced.peer_infos.unwrap().items.len(), 2);
    assert!(forced.conn_info.is_none());
    let foreign = forced.foreign_network_infos.unwrap().infos;
    assert_eq!(foreign[0].value.as_ref().unwrap().version, 4);
    g.add_peer(8);
    let fourth = g.build_sync_route_info_request(7, 77, false, false, 6).unwrap();
    assert!(fourth.conn_info.is_some());
}

#[test]
fn changed_bit_maps_are_sent() {
    let mut g = group();
    g.add_peer(7);
    g.add_peer(9);
    g.on_route_session_ack(7, 50, false, 1);
    let sends_map = |g: &mut RouteGroupData, full: bool| {
        g.build_sync_route_info_request(7, 77, false, full, 2).unwrap().conn_info.is_some()
    };
    assert!(sends_map(&mut g, true));
    assert!(!sends_map(&mut g, true));
    g.update_peer_info(7, info(7, 5));
    assert!(!sends_map(&mut g, true));
    g.remove_peer(9, 2);
    assert!(sends_map(&mut g, false));
    g.add_peer(9);
    assert!(sends_map(&mut g, false));
    g.update_peer_connections(7, &list_of(vec![(7, vec![9])]));
    assert!(sends_map(&mut g, false));
    g.on_route_session_ack(7, 51, false, 3);
    assert!(sends_map(&mut g, false));
}

#[test]
fn peers_without_a_session_get_full_updates() {
    let mut g = group();
    g.add_peer(7);
    g.build_sync_route_info_request(7, 1, false, false, 1).unwrap();
    let again = g.build_sync_route_info_request(7, 1, false, false, 2).unwrap();
    assert_eq!(again.peer_infos.unwrap().items.len(), 2);
}

#[test]
fn infos_of_version_zero_are_sent_once() {
    let mut g = group();
    g.add_peer(7);
    g.update_peer_info(7, info(7, 0));
    g.on_route_session_ack(7, 50, false, 1);
    let first = g.build_sync_route_info_request(7, 1, false, false, 1).unwrap();
    assert_eq!(first.peer_infos.unwrap().items.len(), 2);
    assert_eq!(g.sessions[&7].peer_info_ver_map.get(&7), Some(&1));
    let second = g.build_sync_route_info_request(7, 1, false, false, 2).unwrap();
    assert!(second.peer_infos.is_none());
}

#[test]
fn groups_are_set_up_when_they_are_needed() {
    let mut state = RouteState::new();
    assert_eq!(state.get_peer_ids_in_group(KEY), Vec::<u32>::new());
    assert_eq!(state.get_peer_conn_version(KEY, 7), 1);
    state.add_peer(KEY, 9).unwrap();
    state.add_peer(KEY, 7).unwrap();
    state.add_peer("other", 3).unwrap();
    assert_eq!(state.get_peer_ids_in_group(KEY), vec![7, 9]);
    assert_eq!(state.get_peer_ids_in_group("other"), vec![3]);
    assert_eq!(state.get_peer_conn_version(KEY, 9), 3);
    assert_eq!(state.get_peer_conn_version(KEY, 8), 1);
    state.remove_peer(KEY, 9, 5).unwrap();
    assert_eq!(state.get_peer_ids_in_group(KEY), vec![7]);
    assert_eq!(state.get_peer_conn_version(KEY, 9), 3);
    assert_eq!(state.get_peer_ids_in_group("other"), vec![3]);
    assert!(!state.knows_peer_info(KEY, 7));
    assert!(state.update_peer_info(KEY, 7, Ok(info(7, 1))).unwrap());
    assert!(state.knows_peer_info(KEY, 7));
    assert!(!state.knows_peer_info("other", 7));
    assert!(!state.knows_peer_info("none", 7));
}

#[test]
fn group_identities_are_random() {
    let mut state = RouteState::new();
    let mut own = Vec::new();
    for key in ["a", "b"] {
        let req = state.build_sync_route_info_request(key, 7, 1, false, true, 0).unwrap();
        let items = req.peer_infos.unwrap().items;
        let me = items.iter().find(|i| i.peer_id == MY_PEER_ID).unwrap();
        own.push((me.inst_id.unwrap(), me.peer_route_id));
    }
    assert_ne!(own[0].0, own[1].0);
    assert_ne!(own[0].1, own[1].1);
}

#[test]
fn seeds_are_made_from_their_bytes() {
    let eight = |first: u8| -> Vec<u8> { (first..first + 8).collect() };
    let bytes = SeedBytes {
        part1: eight(0x01),
        part2: eight(0x11),
        part3: eight(0x21),
        part4: eight(0x31),
        route: eight(0x41),
    };
    let s = seed_from(&bytes);
    assert_eq!(s.inst_id.part1, 0x0403_0201);
    assert_eq!(s.inst_id.part2, 0x1413_1211);
    assert_eq!(s.inst_id.part3, 0x2423_2221);
    assert_eq!(s.inst_id.part4, 0x3433_3231);
    assert_eq!(s.peer_route_id, 0x4847_4645_4443_4241);
    assert_eq!(RouteState::default().get_peer_ids_in_group(KEY), Vec::<u32>::new());
}

#[test]
fn groups_keep_the_seed_that_they_were_set_up_with() {
    let mut state = RouteState::new();
    state.ensure_group_with(KEY, seed());
    state.ensure_group(KEY).unwrap();
    let req = state.build_sync_route_info_request(KEY, 7, 1, false, true, 0).unwrap();
    let items = req.peer_infos.unwrap().items;
    let me = items.iter().find(|i| i.peer_id == MY_PEER_ID).unwrap();
    assert_eq!(me.inst_id, Some(seed().inst_id));
    assert_eq!(me.peer_route_id, 5);
}

#[test]
fn undecodable_messages_change_nothing() {
    let mut state = RouteState::new();
    let e = state.update_peer_info(KEY, 7, Err("bad".to_string())).unwrap_err();
    assert_eq!(e.message(), "decode RoutePeerInfo failed: bad");
    let bad: Result<SyncRouteInfoRequest, String> = Err("bad".to_string());
    assert_eq!(state.update_peer_connections_from_conn_info(KEY, 7, &bad), Ok(false));
    let e = state.handle_sync_route_info_request(KEY, 7, &bad, 0).unwrap_err();
    assert_eq!(e.message(), "decode SyncRouteInfoRequest failed: bad");
    assert_eq!(state.get_peer_conn_version(KEY, MY_PEER_ID), 1);
}

#[test]
fn refused_fields_are_reported() {
    let mut state = RouteState::new();
    state.set_my_info_field(KEY, "hostname", "h").unwrap();
    match state.set_my_info_field(KEY, "nothing", "h") {
        Err(RouteError::Refused(text)) => assert_eq!(text, "unknown field"),
        _ => panic!("accepted"),
    }
    assert_eq!(RouteError::RandomUnavailable.message(), "getrandom failed");
    assert_eq!(RouteError::TooManyPeers.message(), "too many peers");
}

#[test]
fn state_operations_reach_their_group() {
    let mut state = RouteState::new();
    state.add_peer(KEY, 7).unwrap();
    state.add_peer(KEY, 9).unwrap();
    assert!(state.update_peer_info(KEY, 7, Ok(info(7, 2))).unwrap());
    assert!(!state.update_peer_info(KEY, 7, Ok(info(7, 2))).unwrap());
    state.on_route_session_ack(KEY, 7, 50, true, 1).unwrap();
    state.bump_my_info_version(KEY).unwrap();
    let mut req = request(50, false);
    req.conn_info = list_of(vec![(7, vec![9])]);
    let req: Result<SyncRouteInfoRequest, String> = Ok(req);
    assert_eq!(state.update_peer_connections_from_conn_info(KEY, 7, &req), Ok(true));
    let r = state.handle_sync_route_info_request(KEY, 7, &req, 2).unwrap();
    assert_eq!(r, SyncRouteInfoResponse { is_initiator: true, session_id: 1, error: None });
    state.remove_peer(KEY, 9, 100).unwrap();
    state.cleanup_stale_peer_connections(KEY, 50, 151).unwrap();
    assert_eq!(state.update_peer_connections_from_conn_info(KEY, 7, &req), Ok(false));
    state.add_peer(KEY, 9).unwrap();
    assert_eq!(state.update_peer_connections_from_conn_info(KEY, 7, &req), Ok(true));
}

#[test]
fn versions_wrap_around() {
    let mut g = group();
    g.add_peer(7);
    g.peer_conn_versions.insert(7, u32::MAX);
    RouteState::bump_all_conn_versions(&mut g);
    assert_eq!(version(&g, 7), Some(0));
    g.my_info_version = u32::MAX;
    g.bump_my_info_version();
    assert_eq!(g.my_info.version, 0);
}
