//! What each event does to a network group, field by field.

use vstd::prelude::*;

use crate::constants::MY_PEER_ID;
use crate::proto::{ConnInfoView, PeerFeatureFlag, RoutePeerInfoView};
use crate::route_model::{GroupSeed, GroupView, SessionView};

verus! {

/// Whether the connection versions went from `before` to `after` by raising those of all peers that
/// are connected or described, and then the relay's own, by one each. A version that is missing
/// counts as 1.
pub open spec fn all_raised(
    peers: Set<u32>,
    infos: Map<u32, RoutePeerInfoView>,
    before: Map<u32, u32>,
    after: Map<u32, u32>,
) -> bool {
    forall|id: u32|
        {
            let seen = peers.contains(id) || infos.contains_key(id);
            let v: u32 = if before.contains_key(id) {
                before[id]
            } else {
                1
            };
            let once = if seen {
                v.wrapping_add(1)
            } else {
                v
            };
            &&& #[trigger] after.contains_key(id) <==> before.contains_key(id) || seen || id
                == MY_PEER_ID
            &&& after.contains_key(id) ==> after[id] == (if id == MY_PEER_ID {
                once.wrapping_add(1)
            } else {
                once
            })
        }
}

/// The session on record for `id`; a session that knows nothing where there is none.
pub open spec fn session_on_record(sessions: Map<u32, SessionView>, id: u32) -> SessionView {
    if sessions.contains_key(id) {
        sessions[id]
    } else {
        SessionView {
            my_session_id: None,
            dst_session_id: None,
            we_are_initiator: false,
            peer_info_ver_map: Map::empty(),
            conn_bitmap_ver_map: Map::empty(),
            foreign_net_ver: 0,
            last_touch_ms: 0,
            last_conn_bitmap_sig: None,
        }
    }
}

/// The connections on record for `id`; none where nothing is on record.
pub open spec fn links_on_record(connections: Map<u32, Set<u32>>, id: u32) -> Set<u32> {
    if connections.contains_key(id) {
        connections[id]
    } else {
        Set::empty()
    }
}

/// A group that is set up has no peers and knows nothing; the relay describes itself in version 1.
pub proof fn new_groups_know_only_the_relay(seed: GroupSeed)
    ensures
        ({
            let g = GroupView::fresh(seed);
            &&& g.peers == Set::<u32>::empty()
            &&& g.peer_infos == Map::<u32, RoutePeerInfoView>::empty()
            &&& g.sessions == Map::<u32, SessionView>::empty()
            &&& g.peer_conn_versions == Map::<u32, u32>::empty()
            &&& g.peer_connections == Map::<u32, Set<u32>>::empty()
            &&& g.peer_removed_at == Map::<u32, u64>::empty()
            &&& g.my_info_version == 1
            &&& g.my_info.peer_id == 10000001
            &&& g.my_info.inst_id == Some(seed.inst_id)
            &&& g.my_info.cost == 1
            &&& g.my_info.version == 1
            &&& g.my_info.network_length == 24
            &&& g.my_info.easytier_version == "cf-easytier-wsrelay"@
            &&& g.my_info.hostname == Some("cf-easytier-wsrelay"@)
            &&& g.my_info.peer_route_id == seed.peer_route_id
            &&& g.my_info.ipv4_addr is None
            &&& g.my_info.last_update is None
            &&& g.my_info.others.len() == 0
            &&& g.my_info.feature_flag == Some(
                PeerFeatureFlag {
                    is_public_server: true,
                    avoid_relay_data: true,
                    kcp_input: false,
                    no_relay_kcp: false,
                    support_conn_list_sync: false,
                    quic_input: false,
                    no_relay_quic: false,
                    is_credential_peer: false,
                    need_p2p: true,
                    disable_p2p: false,
                    ipv6_public_addr_provider: false,
                },
            )
        }),
{
}

/// A peer that connects is among the connected peers and no longer counts as gone. If it was not
/// connected before, all connection versions are raised. Nothing else changes.
pub proof fn joining_adds_just_the_peer(g: GroupView, id: u32)
    ensures
        ({
            let after = g.with_peer(id);
            &&& after.peers == g.peers.insert(id)
            &&& after.peer_removed_at == g.peer_removed_at.remove(id)
            &&& if g.peers.contains(id) {
                after.peer_conn_versions == g.peer_conn_versions
            } else {
                all_raised(
                    g.peers.insert(id),
                    g.peer_infos,
                    g.peer_conn_versions,
                    after.peer_conn_versions,
                )
            }
            &&& after.peer_infos == g.peer_infos
            &&& after.sessions == g.sessions
            &&& after.my_info == g.my_info
            &&& after.my_info_version == g.my_info_version
            &&& after.peer_connections == g.peer_connections
        }),
{
}

/// A peer that leaves is no longer connected, described or in a session, and the time is noted. If
/// it was connected, the versions of the peers that are left are raised. Nothing else changes.
pub proof fn leaving_takes_just_the_peer(g: GroupView, id: u32, now_ms: u64)
    ensures
        ({
            let after = g.without_peer(id, now_ms);
            &&& after.peers == g.peers.remove(id)
            &&& after.peer_infos == g.peer_infos.remove(id)
            &&& after.sessions == g.sessions.remove(id)
            &&& after.peer_removed_at == g.peer_removed_at.insert(id, now_ms)
            &&& if g.peers.contains(id) {
                all_raised(
                    g.peers.remove(id),
                    g.peer_infos.remove(id),
                    g.peer_conn_versions,
                    after.peer_conn_versions,
                )
            } else {
                after.peer_conn_versions == g.peer_conn_versions
            }
            &&& after.my_info == g.my_info
            &&& after.my_info_version == g.my_info_version
            &&& after.peer_connections == g.peer_connections
        }),
{
}

/// An info is taken over, as it is, exactly when none or one of a lower version is known of the
/// peer; versions are raised exactly when none is known. Nothing else changes.
pub proof fn describing_records_just_the_info(g: GroupView, id: u32, info: RoutePeerInfoView)
    ensures
        ({
            let after = g.with_info(id, info);
            let known = g.peer_infos.contains_key(id);
            let newer = !known || g.peer_infos[id].version < info.version;
            &&& g.is_news(id, info) == newer
            &&& after.peer_infos == (if newer {
                g.peer_infos.insert(id, info)
            } else {
                g.peer_infos
            })
            &&& if known {
                after.peer_conn_versions == g.peer_conn_versions
            } else {
                all_raised(
                    g.peers,
                    g.peer_infos.insert(id, info),
                    g.peer_conn_versions,
                    after.peer_conn_versions,
                )
            }
            &&& after.peers == g.peers
            &&& after.sessions == g.sessions
            &&& after.my_info == g.my_info
            &&& after.my_info_version == g.my_info_version
            &&& after.peer_connections == g.peer_connections
            &&& after.peer_removed_at == g.peer_removed_at
        }),
{
}

/// The relay's own info is taken over as it is but for its version, which is the next one. Nothing
/// else changes.
pub proof fn self_description_gets_the_next_version(g: GroupView, info: RoutePeerInfoView)
    ensures
        ({
            let after = g.with_my_info(info);
            let next = g.my_info_version.wrapping_add(1);
            &&& after.my_info_version == next
            &&& after.my_info == (RoutePeerInfoView { version: next, ..info })
            &&& after.peers == g.peers
            &&& after.peer_infos == g.peer_infos
            &&& after.sessions == g.sessions
            &&& after.peer_conn_versions == g.peer_conn_versions
            &&& after.peer_connections == g.peer_connections
            &&& after.peer_removed_at == g.peer_removed_at
        }),
{
}

/// Whether the session went from `before` to `after` by the peer naming its session `sid`: what it
/// was sent is forgotten exactly if it named another one before, or none.
pub open spec fn names_session(before: SessionView, after: SessionView, sid: u64) -> bool {
    &&& after.dst_session_id == Some(sid)
    &&& after.my_session_id == before.my_session_id
    &&& if before.dst_session_id == Some(sid) {
        &&& after.peer_info_ver_map == before.peer_info_ver_map
        &&& after.conn_bitmap_ver_map == before.conn_bitmap_ver_map
        &&& after.foreign_net_ver == before.foreign_net_ver
        &&& after.last_conn_bitmap_sig == before.last_conn_bitmap_sig
    } else {
        &&& after.peer_info_ver_map == Map::<u32, u32>::empty()
        &&& after.conn_bitmap_ver_map == Map::<u32, u32>::empty()
        &&& after.foreign_net_ver == 0
        &&& after.last_conn_bitmap_sig is None
    }
}

/// An acknowledgement takes over the peer's session and the role, and notes the time, in the session
/// with that peer. Nothing else changes.
pub proof fn acknowledging_touches_just_the_session(
    g: GroupView,
    id: u32,
    sid: u64,
    we_are_initiator: bool,
    now_ms: u64,
)
    ensures
        ({
            let after = g.with_ack(id, sid, we_are_initiator, now_ms);
            let s = after.sessions[id];
            &&& after.sessions == g.sessions.insert(id, s)
            &&& names_session(session_on_record(g.sessions, id), s, sid)
            &&& s.we_are_initiator == we_are_initiator
            &&& s.last_touch_ms == now_ms
            &&& after.peers == g.peers
            &&& after.peer_infos == g.peer_infos
            &&& after.peer_conn_versions == g.peer_conn_versions
            &&& after.my_info == g.my_info
            &&& after.my_info_version == g.my_info_version
            &&& after.peer_connections == g.peer_connections
            &&& after.peer_removed_at == g.peer_removed_at
        }),
{
}

/// Whether bit `k` of a bit map is set, counting from the least significant bit of the first byte.
pub open spec fn has_bit(bitmap: Seq<u8>, k: int) -> bool {
    0 <= k && k / 8 < bitmap.len() && (bitmap[k / 8] >> ((k % 8) as u8)) & 1u8 == 1u8
}

/// Whether the peer `from` reports a connection to `p`: the first row of the bit map that is about
/// `from` marks a column about `p`, or the first entry of the list that is about `from` holds `p`.
pub open spec fn says(conn_info: ConnInfoView, from: u32, p: u32) -> bool {
    match conn_info {
        ConnInfoView::ConnBitmap(b) => exists|row: int, col: int|
            {
                &&& 0 <= row < b.peer_ids.len()
                &&& 0 <= col < b.peer_ids.len()
                &&& (#[trigger] b.peer_ids[row]).peer_id == from
                &&& forall|j: int| 0 <= j < row ==> b.peer_ids[j].peer_id != from
                &&& (#[trigger] b.peer_ids[col]).peer_id == p
                &&& has_bit(b.bitmap, row * b.peer_ids.len() + col)
            },
        ConnInfoView::ConnPeerList(l) => exists|i: int|
            {
                &&& 0 <= i < l.len()
                &&& (#[trigger] l[i]).peer_id is Some
                &&& l[i].peer_id->0.peer_id == from
                &&& forall|j: int|
                    0 <= j < i ==> l[j].peer_id is None || l[j].peer_id->0.peer_id != from
                &&& l[i].connected_peer_ids.contains(p)
            },
    }
}

proof fn saying_is_reporting(conn_info: ConnInfoView, from: u32, p: u32)
    ensures
        crate::route_model::reported_peers(conn_info, from).contains(p) == says(conn_info, from, p),
{
    match conn_info {
        ConnInfoView::ConnBitmap(b) => {
            let n = b.peer_ids.len() as int;
            if says(conn_info, from, p) {
                let (row, col) = choose|row: int, col: int|
                    {
                        &&& 0 <= row < b.peer_ids.len()
                        &&& 0 <= col < b.peer_ids.len()
                        &&& (#[trigger] b.peer_ids[row]).peer_id == from
                        &&& forall|j: int| 0 <= j < row ==> b.peer_ids[j].peer_id != from
                        &&& (#[trigger] b.peer_ids[col]).peer_id == p
                        &&& has_bit(b.bitmap, row * b.peer_ids.len() + col)
                    };
                assert(crate::route_model::first_in_bitmap(b.peer_ids, from, row));
                let found = crate::route_model::row_of(b.peer_ids, from);
                assert(crate::route_model::first_in_bitmap(b.peer_ids, from, found));
                assert(b.peer_ids[found].peer_id == from && b.peer_ids[row].peer_id == from);
                assert(found == row);
                assert(b.peer_ids[col].peer_id == p);
                assert(crate::conn_bitmap::cell(b.bitmap, n, row, col));
            }
            if crate::route_model::reported_peers(conn_info, from).contains(p) {
                let row = crate::route_model::row_of(b.peer_ids, from);
                assert(crate::route_model::first_in_bitmap(b.peer_ids, from, row));
                let col = choose|col: int|
                    0 <= col < b.peer_ids.len() && (#[trigger] b.peer_ids[col]).peer_id == p
                        && crate::conn_bitmap::cell(b.bitmap, n, row, col);
                assert(b.peer_ids[row].peer_id == from && b.peer_ids[col].peer_id == p);
                assert(has_bit(b.bitmap, row * b.peer_ids.len() + col));
            }
        },
        ConnInfoView::ConnPeerList(l) => {
            if says(conn_info, from, p) {
                let i = choose|i: int|
                    {
                        &&& 0 <= i < l.len()
                        &&& (#[trigger] l[i]).peer_id is Some
                        &&& l[i].peer_id->0.peer_id == from
                        &&& forall|j: int|
                            0 <= j < i ==> l[j].peer_id is None || l[j].peer_id->0.peer_id != from
                        &&& l[i].connected_peer_ids.contains(p)
                    };
                assert(crate::route_model::first_in_list(l, from, i));
                let found = crate::route_model::entry_of(l, from);
                assert(crate::route_model::first_in_list(l, from, found));
                assert(crate::route_model::entry_is_about(l[found], from));
                assert(crate::route_model::entry_is_about(l[i], from));
                assert(found == i);
                assert(l[i].connected_peer_ids.to_set().contains(p));
            }
            if crate::route_model::reported_peers(conn_info, from).contains(p) {
                let i = crate::route_model::entry_of(l, from);
                assert(crate::route_model::first_in_list(l, from, i));
                assert(l[i].connected_peer_ids.to_set().contains(p));
                assert forall|j: int| 0 <= j < i implies l[j].peer_id is None
                    || l[j].peer_id->0.peer_id != from by {
                    assert(!crate::route_model::entry_is_about(l[j], from));
                }
                assert(l[i].peer_id is Some);
            }
        },
    }
}

/// A report replaces the connections on record for its peer, and only those, by the connections to
/// other connected peers that it names, in either form. Versions are raised exactly when that is a
/// change. A report without connections changes nothing.
pub proof fn reports_replace_just_the_links(
    g: GroupView,
    from: u32,
    conn_info: Option<ConnInfoView>,
)
    ensures
        ({
            let after = g.with_report(from, conn_info);
            let links = links_on_record(after.peer_connections, from);
            let changed = links_on_record(g.peer_connections, from) != links;
            &&& conn_info is None ==> after == g
            &&& conn_info matches Some(c) ==> {
                &&& forall|p: u32| #[trigger]
                    links.contains(p) <==> says(c, from, p) && p != MY_PEER_ID && p != from
                        && g.peers.contains(p)
                &&& forall|other: u32|
                    other != from ==> (#[trigger] after.peer_connections.contains_key(other)
                        <==> g.peer_connections.contains_key(other)) && (
                    g.peer_connections.contains_key(other) ==> after.peer_connections[other]
                        == g.peer_connections[other])
            }
            &&& g.report_changes(from, conn_info) == changed
            &&& if changed {
                all_raised(
                    g.peers,
                    g.peer_infos,
                    g.peer_conn_versions,
                    after.peer_conn_versions,
                )
            } else {
                after.peer_conn_versions == g.peer_conn_versions
            }
            &&& after.peers == g.peers
            &&& after.peer_infos == g.peer_infos
            &&& after.sessions == g.sessions
            &&& after.my_info == g.my_info
            &&& after.my_info_version == g.my_info_version
            &&& after.peer_removed_at == g.peer_removed_at
        }),
{
    if let Some(c) = conn_info {
        let links = g.accepted_links(from, c);
        assert forall|p: u32| #[trigger] links.contains(p) == (says(c, from, p) && p != MY_PEER_ID
            && p != from && g.peers.contains(p)) by {
            saying_is_reporting(c, from, p);
        }
        let after = g.with_report(from, conn_info);
        assert(links_on_record(after.peer_connections, from) =~= links);
    }
}

/// Clean-up takes the connections of and to every peer that left more than `threshold_ms` ago, and
/// the note that it left. Nothing else changes: no other connection goes, and no version is raised.
pub proof fn clean_up_takes_just_what_is_stale(g: GroupView, now_ms: u64, threshold_ms: u64)
    ensures
        ({
            let after = g.cleaned(now_ms, threshold_ms);
            let stale = |id: u32|
                g.peer_removed_at.contains_key(id) && now_ms as int - g.peer_removed_at[id] as int
                    > threshold_ms;
            &&& forall|a: u32, b: u32|
                #![trigger links_on_record(after.peer_connections, a).contains(b)]
                links_on_record(after.peer_connections, a).contains(b) <==> links_on_record(
                    g.peer_connections,
                    a,
                ).contains(b) && !stale(a) && !stale(b)
            &&& forall|id: u32| #[trigger]
                after.peer_removed_at.contains_key(id) <==> g.peer_removed_at.contains_key(id)
                    && !stale(id)
            &&& forall|id: u32| #[trigger]
                after.peer_removed_at.contains_key(id) ==> after.peer_removed_at[id]
                    == g.peer_removed_at[id]
            &&& after.peers == g.peers
            &&& after.peer_infos == g.peer_infos
            &&& after.sessions == g.sessions
            &&& after.peer_conn_versions == g.peer_conn_versions
            &&& after.my_info == g.my_info
            &&& after.my_info_version == g.my_info_version
        }),
{
}

/// A change of a group is a change of the group of that name as it was, or as it is set up where
/// there was none, and of no other group.
pub proof fn changes_start_from_the_group_on_record(
    before: Map<Seq<char>, GroupView>,
    after: Map<Seq<char>, GroupView>,
    key: Seq<char>,
    change: spec_fn(GroupView) -> GroupView,
)
    ensures
        crate::route_model::changes_group(before, after, key, change) <==> if before.contains_key(
            key,
        ) {
            after == before.insert(key, change(before[key]))
        } else {
            exists|seed: GroupSeed|
                after == before.insert(key, change(#[trigger] GroupView::fresh(seed)))
        },
{
    if before.contains_key(key) {
        let seed: GroupSeed = arbitrary();
        assert(crate::route_model::group_at(before, key, seed) == before[key]);
    } else {
        assert forall|seed: GroupSeed|
            #[trigger] crate::route_model::group_at(before, key, seed) == #[trigger] GroupView::fresh(
            seed,
        ) by {}
        if exists|seed: GroupSeed|
            after == before.insert(key, change(#[trigger] GroupView::fresh(seed))) {
            let seed = choose|seed: GroupSeed|
                after == before.insert(key, change(#[trigger] GroupView::fresh(seed)));
            assert(crate::route_model::group_at(before, key, seed) == GroupView::fresh(seed));
        }
    }
}

} // verus!
