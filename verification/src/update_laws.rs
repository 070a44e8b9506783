//! What a route update tells its peer, in terms of what is on record.

use vstd::prelude::*;

use crate::constants::MY_PEER_ID;
use crate::peer_manager::WsPeerContext;
use crate::proto::{
    ConnInfoView, ForeignEntryView, ForeignInfoView, ForeignKeyView, PayloadView, PeerIdVersion,
    RoutePeerInfoView, RpcBodyView, RpcCompressionInfo, RpcDescriptorView, RpcPacketView,
    RpcRequestView, SyncRequestView, Timestamp, Uuid,
};
use crate::route_model::{GroupSeed, GroupView};

verus! {

/// A list of ids is a listing of a set exactly if it holds all of its members, no others, and each
/// id is smaller than the next.
pub proof fn listings_are_complete_and_increasing(ids: Seq<u32>, s: Set<u32>)
    ensures
        crate::route_model::lists(ids, s) <==> {
            &&& forall|id: u32| #[trigger] s.contains(id) <==> exists|i: int|
                0 <= i < ids.len() && ids[i] == id
            &&& forall|i: int, j: int| 0 <= i < j < ids.len() ==> ids[i] < ids[j]
        },
{
    if crate::route_model::lists(ids, s) {
        assert forall|id: u32| #[trigger] s.contains(id) == (exists|i: int|
            0 <= i < ids.len() && ids[i] == id) by {
            assert(ids.to_set().contains(id) == ids.contains(id));
        }
    }
    if forall|id: u32| #[trigger] s.contains(id) <==> exists|i: int|
        0 <= i < ids.len() && ids[i] == id {
        assert(ids.to_set() =~= s);
    }
}

/// The peers that an update for `target` speaks of: all connected peers, the relay and `target`,
/// each once, the smaller ids first.
pub proof fn updates_list_their_peers(g: GroupView, target: u32, id: u32, i: int, j: int)
    requires
        g.lists_relevant(target),
    ensures
        (exists|k: int| 0 <= k < g.relevant(target).len() && g.relevant(target)[k] == id)
            <==> g.peers.contains(id) || id == MY_PEER_ID || id == target,
        0 <= i < j < g.relevant(target).len() ==> g.relevant(target)[i] < g.relevant(target)[j],
        g.relevant(target).len() > 0,
{
    let ids = g.relevant(target);
    let all = g.peers.insert(MY_PEER_ID).insert(target);
    assert(ids.to_set().contains(id) == all.contains(id));
    assert(ids.to_set().contains(target));
}

/// An update leaves what is on record of every described peer as it is, in every field. Only peers
/// that the update speaks of and that have no info get one: a stub.
pub proof fn updates_keep_what_is_on_record(
    g: GroupView,
    target: u32,
    sid: u64,
    force_full: bool,
    now_ms: u64,
    id: u32,
)
    requires
        g.lists_relevant(target),
    ensures
        ({
            let after = g.after_update(target, sid, force_full, now_ms).peer_infos;
            let named = g.peers.contains(id) || id == target;
            &&& g.peer_infos.contains_key(id) ==> after.contains_key(id) && after[id]
                == g.peer_infos[id]
            &&& !g.peer_infos.contains_key(id) ==> {
                &&& after.contains_key(id) <==> named && id != MY_PEER_ID
                &&& named && id != MY_PEER_ID ==> after[id] == RoutePeerInfoView {
                    peer_id: id,
                    inst_id: Some(Uuid { part1: 0, part2: 0, part3: 0, part4: 0 }),
                    cost: 1,
                    ipv4_addr: None,
                    hostname: None,
                    last_update: Some(Timestamp { seconds: (now_ms / 1000) as i64, nanos: 0 }),
                    version: 1,
                    easytier_version: "cf-2.6"@,
                    feature_flag: None,
                    peer_route_id: 0,
                    network_length: if g.my_info.network_length == 0 {
                        1
                    } else {
                        g.my_info.network_length
                    },
                    others: Seq::empty(),
                }
            }
        }),
{
    updates_list_their_peers(g, target, id, 0, 0);
    let ids = g.relevant(target);
    assert(ids.contains(id) == (exists|k: int| 0 <= k < ids.len() && ids[k] == id));
}

/// The version under which an info is sent: its own, but 1 for an info of version 0.
pub open spec fn version_sent(info: RoutePeerInfoView) -> u32 {
    if info.version == 0 {
        1
    } else {
        info.version
    }
}

/// Whether an update for `target` has to hold everything: where that is asked for, or `target` has
/// not named its session.
pub open spec fn holds_everything(g: GroupView, target: u32, force_full: bool) -> bool {
    force_full || !g.sessions.contains_key(target) || g.sessions[target].dst_session_id is None
}

/// Whether the peer `target` was not sent `info` of the peer `id`, nor a later version of it.
pub open spec fn unknown_to(g: GroupView, target: u32, id: u32, info: RoutePeerInfoView) -> bool {
    let known = crate::group_laws::session_on_record(g.sessions, target).peer_info_ver_map;
    !known.contains_key(id) || known[id] < version_sent(info)
}

/// The infos that an update carries are those on record, in every field and in the order of the
/// peers: of the relay what it says of itself, of every other peer what is on record of it once stubs
/// were put where nothing was. A full update carries them all; any other just those that its peer was
/// not sent yet.
pub proof fn updates_carry_what_is_on_record(
    g: GroupView,
    target: u32,
    sid: u64,
    we_are_initiator: bool,
    force_full: bool,
    now_ms: u64,
)
    requires
        g.lists_relevant(target),
    ensures
        ({
            let ids = g.relevant(target);
            let record = g.after_update(target, sid, force_full, now_ms).peer_infos;
            let info = |id: u32|
                if id == MY_PEER_ID {
                    g.my_info
                } else {
                    record[id]
                };
            let update = g.update(target, sid, we_are_initiator, force_full, now_ms);
            let infos = match update.peer_infos {
                Some(infos) => infos,
                None => Seq::empty(),
            };
            &&& update.peer_infos is None <==> infos.len() == 0
            &&& holds_everything(g, target, force_full) ==> infos == ids.map_values(info)
            &&& !holds_everything(g, target, force_full) ==> infos == ids.filter(
                |id: u32| unknown_to(g, target, id, info(id)),
            ).map_values(info)
        }),
{
    let ids = g.relevant(target);
    let record = g.after_update(target, sid, force_full, now_ms).peer_infos;
    let info = |id: u32|
        if id == MY_PEER_ID {
            g.my_info
        } else {
            record[id]
        };
    let described = g.with_open_session(target, sid, now_ms).with_stubs(ids, now_ms);
    assert(described.peer_infos == record);
    let known = described.session(target).peer_info_ver_map;
    assert forall|id: u32| #[trigger] described.info_of(id) == info(id) by {}
    let full = g.sends_all(target, force_full);
    assert(full == holds_everything(g, target, force_full));
    let infos = g.update_infos(target, sid, force_full, now_ms);
    if full {
        crate::route_laws::full_updates_hold_every_info(g, target, sid, force_full, now_ms);
        assert(ids.map_values(|id: u32| described.info_of(id)) =~= ids.map_values(info));
    } else {
        let due = |id: u32| described.is_due(known, full, id);
        let wanted = |id: u32| unknown_to(g, target, id, info(id));
        assert forall|id: u32| #[trigger] due(id) == wanted(id) by {}
        assert(due =~= wanted);
        assert(infos =~= ids.filter(wanted).map_values(info));
    }
    let update = g.update(target, sid, we_are_initiator, force_full, now_ms);
    if infos.len() == 0 {
        assert(infos =~= Seq::empty());
    }
}

/// Of every peer other than the relay of which an info is on record, an update that has to hold
/// everything carries just that info, at the place of the peer among the peers it speaks of.
pub proof fn full_updates_carry_each_known_info(
    g: GroupView,
    target: u32,
    sid: u64,
    we_are_initiator: bool,
    force_full: bool,
    now_ms: u64,
    i: int,
)
    requires
        g.lists_relevant(target),
        holds_everything(g, target, force_full),
        0 <= i < g.relevant(target).len(),
    ensures
        ({
            let id = g.relevant(target)[i];
            let update = g.update(target, sid, we_are_initiator, force_full, now_ms);
            &&& update.peer_infos is Some
            &&& update.peer_infos->0.len() == g.relevant(target).len()
            &&& id == MY_PEER_ID ==> update.peer_infos->0[i] == g.my_info
            &&& id != MY_PEER_ID && g.peer_infos.contains_key(id) ==> update.peer_infos->0[i]
                == g.peer_infos[id]
        }),
{
    updates_carry_what_is_on_record(g, target, sid, we_are_initiator, force_full, now_ms);
    updates_keep_what_is_on_record(
        g,
        target,
        sid,
        force_full,
        now_ms,
        g.relevant(target)[i],
    );
}

/// The bit map of a list of peers: the peers in their order with their connection versions, 1 where
/// there is none; a bit for each pair of places and none behind; and a pair is marked exactly if the
/// places are the same, one of the peers is the relay, or one of them reported a connection to the
/// other.
pub proof fn bit_maps_mark_the_connections(g: GroupView, ids: Seq<u32>, row: int, col: int)
    requires
        ids.contains(MY_PEER_ID),
        0 <= row < ids.len(),
        0 <= col < ids.len(),
    ensures
        ({
            let b = g.bitmap(ids);
            let n = ids.len() as int;
            &&& b.peer_ids.len() == n
            &&& b.peer_ids[row] == PeerIdVersion {
                peer_id: ids[row],
                version: if g.peer_conn_versions.contains_key(ids[row]) {
                    g.peer_conn_versions[ids[row]]
                } else {
                    1
                },
            }
            &&& b.bitmap.len() == (n * n + 7) / 8
            &&& crate::group_laws::has_bit(b.bitmap, row * n + col) <==> {
                ||| row == col
                ||| ids[row] == MY_PEER_ID
                ||| ids[col] == MY_PEER_ID
                ||| crate::group_laws::links_on_record(g.peer_connections, ids[row]).contains(
                    ids[col],
                )
                ||| crate::group_laws::links_on_record(g.peer_connections, ids[col]).contains(
                    ids[row],
                )
            }
            &&& forall|k: int| n * n <= k ==> !#[trigger] crate::group_laws::has_bit(b.bitmap, k)
        }),
{
    let n = ids.len() as int;
    let links = g.peer_connections;
    let relation = |r: int, c: int| crate::conn_bitmap::edge(ids, links, r, c);
    let b = g.bitmap(ids);
    crate::conn_bitmap::grid_cells(n, relation, row, col);
    assert(crate::conn_bitmap::cell(b.bitmap, n, row, col) == crate::group_laws::has_bit(
        b.bitmap,
        row * n + col,
    ));
    assert(n * n >= 0) by (nonlinear_arith)
        requires
            n >= 0,
    ;
    assert forall|k: int| n * n <= k implies !#[trigger] crate::group_laws::has_bit(b.bitmap, k) by {
        crate::conn_bitmap::grid_bits(n, relation, k);
        assert(crate::conn_bitmap::bit(b.bitmap, k) == crate::group_laws::has_bit(b.bitmap, k));
    }
}

/// In the bit map of a list of peers without the relay every pair is marked.
pub proof fn bit_maps_without_the_relay_mark_all(g: GroupView, ids: Seq<u32>, row: int, col: int)
    requires
        !ids.contains(MY_PEER_ID),
        0 <= row < ids.len(),
        0 <= col < ids.len(),
    ensures
        crate::group_laws::has_bit(g.bitmap(ids).bitmap, row * ids.len() + col),
{
    let n = ids.len() as int;
    let links = g.peer_connections;
    let relation = |r: int, c: int| crate::conn_bitmap::edge(ids, links, r, c);
    crate::conn_bitmap::grid_cells(n, relation, row, col);
    assert(crate::conn_bitmap::cell(g.bitmap(ids).bitmap, n, row, col));
}

/// What a row of a reported bit map says: the peers of the columns whose bits in that row are set.
pub proof fn rows_name_the_peers_of_their_bits(
    peer_ids: Seq<PeerIdVersion>,
    bitmap: Seq<u8>,
    row: int,
    p: u32,
)
    ensures
        crate::conn_bitmap::row_peers(peer_ids, bitmap, row).contains(p) <==> exists|col: int|
            {
                &&& 0 <= col < peer_ids.len()
                &&& (#[trigger] peer_ids[col]).peer_id == p
                &&& crate::group_laws::has_bit(bitmap, row * peer_ids.len() + col)
            },
{
    assert forall|col: int| crate::group_laws::has_bit(bitmap, row * peer_ids.len() + col)
        == #[trigger] crate::conn_bitmap::cell(bitmap, peer_ids.len() as int, row, col) by {}
    if crate::conn_bitmap::row_peers(peer_ids, bitmap, row).contains(p) {
        let col = choose|col: int|
            0 <= col < peer_ids.len() && (#[trigger] peer_ids[col]).peer_id == p
                && crate::conn_bitmap::cell(bitmap, peer_ids.len() as int, row, col);
        assert(peer_ids[col].peer_id == p);
    }
    if exists|col: int|
        {
            &&& 0 <= col < peer_ids.len()
            &&& (#[trigger] peer_ids[col]).peer_id == p
            &&& crate::group_laws::has_bit(bitmap, row * peer_ids.len() + col)
        } {
        let col = choose|col: int|
            {
                &&& 0 <= col < peer_ids.len()
                &&& (#[trigger] peer_ids[col]).peer_id == p
                &&& crate::group_laws::has_bit(bitmap, row * peer_ids.len() + col)
            };
        assert(crate::conn_bitmap::cell(bitmap, peer_ids.len() as int, row, col));
    }
}

/// The bit map in an update is that of all peers that the update speaks of.
pub proof fn updates_carry_the_bit_map_of_all_peers(
    g: GroupView,
    target: u32,
    sid: u64,
    we_are_initiator: bool,
    force_full: bool,
    now_ms: u64,
)
    ensures
        ({
            let update = g.update(target, sid, we_are_initiator, force_full, now_ms);
            update.conn_info is Some ==> update.conn_info == Some(
                ConnInfoView::ConnBitmap(g.bitmap(g.relevant(target))),
            )
        }),
{
    let ids = g.relevant(target);
    let g2 = g.after_infos(target, sid, force_full, now_ms);
    assert(g2.versions(ids) =~= g.versions(ids));
}

/// A peer that was never sent a bit map, or that started over, is sent one.
pub proof fn peers_without_a_bit_map_get_one(
    g: GroupView,
    target: u32,
    sid: u64,
    we_are_initiator: bool,
    force_full: bool,
    now_ms: u64,
)
    requires
        g.lists_relevant(target),
        g.sessions.contains_key(target) ==> g.sessions[target].last_conn_bitmap_sig is None,
    ensures
        g.update(target, sid, we_are_initiator, force_full, now_ms).conn_info is Some,
{
    updates_list_their_peers(g, target, target, 0, 0);
}

/// Who an update is from and under which session and role, and what it says of the relayed network:
/// one network of the relay, with all peers that the update speaks of, under the version after the
/// last one, as of now, with a digest of zeros.
pub proof fn updates_name_the_relay_and_its_network(
    g: GroupView,
    target: u32,
    sid: u64,
    we_are_initiator: bool,
    force_full: bool,
    now_ms: u64,
)
    ensures
        ({
            let update = g.update(target, sid, we_are_initiator, force_full, now_ms);
            &&& update.my_peer_id == MY_PEER_ID
            &&& update.my_session_id == sid
            &&& update.is_initiator == we_are_initiator
            &&& update.foreign_network_infos is Some
            &&& update.foreign_network_infos->0.len() == 1
            &&& update.foreign_network_infos->0[0] == ForeignInfoView {
                key: Some(
                    ForeignKeyView { peer_id: MY_PEER_ID, network_name: "dev-websocket-relay"@ },
                ),
                value: Some(
                    ForeignEntryView {
                        foreign_peer_ids: g.relevant(target),
                        last_update: Some(
                            Timestamp { seconds: (now_ms / 1000) as i64, nanos: 0 },
                        ),
                        version: crate::group_laws::session_on_record(
                            g.sessions,
                            target,
                        ).foreign_net_ver.wrapping_add(1),
                        network_secret_digest: seq![
                            0u8, 0u8, 0u8, 0u8, 0u8, 0u8, 0u8, 0u8, 0u8, 0u8, 0u8, 0u8, 0u8, 0u8,
                            0u8, 0u8, 0u8, 0u8, 0u8, 0u8, 0u8, 0u8, 0u8, 0u8, 0u8, 0u8, 0u8, 0u8,
                            0u8, 0u8, 0u8, 0u8,
                        ],
                        my_peer_id_for_this_network: MY_PEER_ID,
                    },
                ),
            }
        }),
{
    let zeros: Seq<u8> = seq![
        0u8, 0u8, 0u8, 0u8, 0u8, 0u8, 0u8, 0u8, 0u8, 0u8, 0u8, 0u8, 0u8, 0u8, 0u8, 0u8, 0u8, 0u8,
        0u8, 0u8, 0u8, 0u8, 0u8, 0u8, 0u8, 0u8, 0u8, 0u8, 0u8, 0u8, 0u8, 0u8,
    ];
    assert(zeros =~= Seq::new(32, |i: int| 0u8));
}

/// What an update records in the session with its peer: the relay's session and the time, the
/// version of each info that was sent, and that the relayed network was described once more. What
/// the peer has named, and the role, stay; so do all other sessions, the peers, their connections
/// and versions, and what the relay says of itself.
pub proof fn updates_record_what_was_sent(
    g: GroupView,
    target: u32,
    sid: u64,
    force_full: bool,
    now_ms: u64,
    id: u32,
)
    requires
        g.lists_relevant(target),
    ensures
        ({
            let after = g.after_update(target, sid, force_full, now_ms);
            let old_session = crate::group_laws::session_on_record(g.sessions, target);
            let s = after.sessions[target];
            let info = if id == MY_PEER_ID {
                g.my_info
            } else {
                after.peer_infos[id]
            };
            let sent = (g.peers.contains(id) || id == MY_PEER_ID || id == target) && (
            holds_everything(g, target, force_full) || unknown_to(g, target, id, info));
            &&& after.sessions == g.sessions.insert(target, s)
            &&& s.my_session_id == Some(sid)
            &&& s.dst_session_id == old_session.dst_session_id
            &&& s.we_are_initiator == old_session.we_are_initiator
            &&& s.last_touch_ms == now_ms
            &&& s.foreign_net_ver == old_session.foreign_net_ver.wrapping_add(1)
            &&& s.peer_info_ver_map.contains_key(id) <==> sent
                || old_session.peer_info_ver_map.contains_key(id)
            &&& sent ==> s.peer_info_ver_map[id] == version_sent(info)
            &&& !sent && old_session.peer_info_ver_map.contains_key(id) ==> s.peer_info_ver_map[id]
                == old_session.peer_info_ver_map[id]
            &&& after.peers == g.peers
            &&& after.peer_conn_versions == g.peer_conn_versions
            &&& after.my_info == g.my_info
            &&& after.my_info_version == g.my_info_version
            &&& after.peer_connections == g.peer_connections
            &&& after.peer_removed_at == g.peer_removed_at
        }),
{
    updates_list_their_peers(g, target, id, 0, 0);
    let ids = g.relevant(target);
    assert(ids.contains(id) == (exists|k: int| 0 <= k < ids.len() && ids[k] == id));
    let after = g.after_update(target, sid, force_full, now_ms);
    assert(after.sessions =~= g.sessions.insert(target, after.sessions[target]));
    let described = g.with_open_session(target, sid, now_ms).with_stubs(ids, now_ms);
    assert(described.peer_infos == after.peer_infos);
    let full = g.sends_all(target, force_full);
    let known = described.session(target).peer_info_ver_map;
    assert(after.sessions[target].peer_info_ver_map == described.known_after(ids, known, full));
    assert(described.is_due(known, full, id) == (full || unknown_to(
        g,
        target,
        id,
        described.info_of(id),
    )));
}

/// What an update records of the bit map: where it carries one, that one's text and, if no version
/// was noted for the peer, the highest version of a connection in it; else nothing.
pub proof fn updates_record_the_bit_map_that_was_sent(
    g: GroupView,
    target: u32,
    sid: u64,
    we_are_initiator: bool,
    force_full: bool,
    now_ms: u64,
)
    requires
        g.lists_relevant(target),
    ensures
        ({
            let old_session = crate::group_laws::session_on_record(g.sessions, target);
            let s = g.after_update(target, sid, force_full, now_ms).sessions[target];
            let update = g.update(target, sid, we_are_initiator, force_full, now_ms);
            let b = g.bitmap(g.relevant(target));
            let noted = old_session.conn_bitmap_ver_map;
            &&& s.last_conn_bitmap_sig == Some(
                crate::conn_bitmap::signature(b.peer_ids, b.bitmap),
            )
            &&& update.conn_info is None ==> {
                &&& s.conn_bitmap_ver_map == noted
                &&& s.last_conn_bitmap_sig == old_session.last_conn_bitmap_sig
            }
            &&& update.conn_info is Some ==> {
                let v = s.conn_bitmap_ver_map[target];
                &&& s.conn_bitmap_ver_map == noted.insert(target, v)
                &&& noted.contains_key(target) && noted[target] != 0 ==> v == noted[target]
                &&& !noted.contains_key(target) || noted[target] == 0 ==> {
                    &&& forall|i: int|
                        0 <= i < b.peer_ids.len() ==> (#[trigger] b.peer_ids[i]).version <= v
                    &&& exists|i: int|
                        0 <= i < b.peer_ids.len() && (#[trigger] b.peer_ids[i]).version == v
                }
            }
        }),
{
    let ids = g.relevant(target);
    updates_list_their_peers(g, target, target, 0, 0);
    let g2 = g.after_infos(target, sid, force_full, now_ms);
    assert(g2.versions(ids) =~= g.versions(ids));
    largest_is_largest(g.versions(ids));
}

proof fn largest_is_largest(ps: Seq<PeerIdVersion>)
    ensures
        forall|i: int|
            0 <= i < ps.len() ==> (#[trigger] ps[i]).version <= crate::route_model::largest_version(
                ps,
            ),
        ps.len() > 0 ==> exists|i: int|
            0 <= i < ps.len() && (#[trigger] ps[i]).version == crate::route_model::largest_version(
                ps,
            ),
    decreases ps.len(),
{
    if ps.len() > 0 {
        let rest = ps.drop_last();
        largest_is_largest(rest);
        assert forall|i: int| 0 <= i < ps.len() implies (#[trigger] ps[i]).version
            <= crate::route_model::largest_version(ps) by {
            if i < rest.len() {
                assert(rest[i] == ps[i]);
            }
        }
        assert(ps[ps.len() - 1] == ps.last());
        if crate::route_model::largest_version(ps) != ps.last().version {
            if rest.len() > 0 {
                let i = choose|i: int|
                    0 <= i < rest.len() && (#[trigger] rest[i]).version
                        == crate::route_model::largest_version(rest);
                assert(ps[i] == rest[i]);
            }
        }
    }
}

/// An update is drawn up exactly where the bits of a map of its peers can be counted.
pub proof fn updates_fit_where_their_bits_can_be_counted(g: GroupView, target: u32)
    ensures
        g.update_fits(target) <==> g.relevant(target).len() * g.relevant(target).len() + 7
            <= usize::MAX,
{
}

/// A route update goes out as a call of the route service that the relay makes of its peer, under
/// the given transaction, with the update of the peer's group under the session that the connection
/// has, or 0 where that is no number. Only that group changes.
pub proof fn updates_go_out_as_calls(
    before: Map<Seq<char>, GroupView>,
    after: Map<Seq<char>, GroupView>,
    ctx: WsPeerContext,
    target: u32,
    force_full: bool,
    now_ms: u64,
    transaction_id: u32,
    packet: RpcPacketView,
) -> (g: GroupView)
    requires
        crate::peer_manager::sends_update(
            before,
            after,
            ctx,
            target,
            force_full,
            now_ms,
            transaction_id,
            packet,
        ),
    ensures
        crate::sync_laws::starts_from(before, ctx.group_key@, g),
        g.lists_relevant(target),
        ({
            let sid: u64 = match crate::text::parsed(
                ctx.server_session_id@,
                0xffff_ffff_ffff_ffff,
            ) {
                Some(n) => n as u64,
                None => 0,
            };
            &&& after == before.insert(
                ctx.group_key@,
                g.after_update(target, sid, force_full, now_ms),
            )
            &&& packet == RpcPacketView {
                from_peer: MY_PEER_ID,
                to_peer: target,
                transaction_id: transaction_id as i64,
                descriptor: Some(
                    RpcDescriptorView {
                        domain_name: ctx.domain_name@,
                        proto_name: "OspfRouteRpc"@,
                        service_name: "OspfRouteRpc"@,
                        method_index: 1,
                    },
                ),
                body: RpcBodyView::Request(
                    RpcRequestView {
                        descriptor: None,
                        request: PayloadView::SyncRouteInfoRequest(
                            g.update(target, sid, ctx.we_are_initiator, force_full, now_ms),
                        ),
                        timeout_ms: 5000,
                    },
                ),
                is_request: true,
                total_pieces: 1,
                piece_idx: 0,
                trace_id: 0,
                compression_info: Some(RpcCompressionInfo { algo: 1, accepted_algo: 1 }),
            }
        }),
{
    let sid = ctx.session_number();
    let seed = choose|seed: GroupSeed|
        {
            let g = #[trigger] crate::route_model::group_at(before, ctx.group_key@, seed);
            &&& g.lists_relevant(target)
            &&& g.update_fits(target)
            &&& after == before.insert(
                ctx.group_key@,
                g.after_update(target, sid, force_full, now_ms),
            )
            &&& packet == crate::peer_manager::route_update(
                ctx,
                target,
                transaction_id,
                g.update(target, sid, ctx.we_are_initiator, force_full, now_ms),
            )
        };
    let g = crate::route_model::group_at(before, ctx.group_key@, seed);
    if !before.contains_key(ctx.group_key@) {
        assert(g == GroupView::fresh(seed));
    }
    g
}

/// Where no update can be drawn up, the group has more peers than the bits of a map of them can be
/// counted for, and nothing changes but that the group is set up if there was none.
pub proof fn only_too_many_peers_prevent_an_update(
    before: Map<Seq<char>, GroupView>,
    after: Map<Seq<char>, GroupView>,
    ctx: WsPeerContext,
    target: u32,
) -> (g: GroupView)
    requires
        crate::peer_manager::cannot_update(before, after, ctx, target),
    ensures
        crate::sync_laws::starts_from(before, ctx.group_key@, g),
        g.lists_relevant(target),
        g.relevant(target).len() * g.relevant(target).len() + 7 > usize::MAX,
        after == before.insert(ctx.group_key@, g),
{
    let seed = choose|seed: GroupSeed|
        {
            let g = #[trigger] crate::route_model::group_at(before, ctx.group_key@, seed);
            &&& g.lists_relevant(target)
            &&& !g.update_fits(target)
            &&& after == before.insert(ctx.group_key@, g)
        };
    let g = crate::route_model::group_at(before, ctx.group_key@, seed);
    if !before.contains_key(ctx.group_key@) {
        assert(g == GroupView::fresh(seed));
    }
    g
}

} // verus!
