//! What holds of a network group whatever happens to it.

use vstd::prelude::*;

use crate::constants::MY_PEER_ID;
use crate::proto::{ConnInfoView, RoutePeerInfoView, SyncRequestView, SyncRouteInfoResponse};
use crate::route_model::{GroupSeed, GroupView, SessionView};

verus! {

/// Something that happens to a group.
pub enum GroupEvent {
    /// A peer connects.
    Joined { id: u32 },
    /// A peer leaves.
    Left { id: u32, now_ms: u64 },
    /// An info about a peer comes in.
    Described { id: u32, info: RoutePeerInfoView },
    /// A peer acknowledges its session.
    Acknowledged { id: u32, sid: u64, we_are_initiator: bool, now_ms: u64 },
    /// The relay's own info is set anew.
    SelfDescribed { info: RoutePeerInfoView },
    /// A peer reports its connections.
    Reported { from: u32, conn_info: Option<ConnInfoView> },
    /// A peer sends a SyncRouteInfo request.
    Requested { from: u32, req: SyncRequestView, now_ms: u64 },
    /// A SyncRouteInfo request is drawn up for a peer.
    Updated { target: u32, sid: u64, force_full: bool, now_ms: u64 },
    /// Stale connections are dropped.
    Cleaned { now_ms: u64, threshold_ms: u64 },
}

impl GroupView {
    /// The group after `e`.
    pub open spec fn after(self, e: GroupEvent) -> GroupView {
        match e {
            GroupEvent::Joined { id } => self.with_peer(id),
            GroupEvent::Left { id, now_ms } => self.without_peer(id, now_ms),
            GroupEvent::Described { id, info } => self.with_info(id, info),
            GroupEvent::Acknowledged { id, sid, we_are_initiator, now_ms } => self.with_ack(
                id,
                sid,
                we_are_initiator,
                now_ms,
            ),
            GroupEvent::SelfDescribed { info } => self.with_my_info(info),
            GroupEvent::Reported { from, conn_info } => self.with_report(from, conn_info),
            GroupEvent::Requested { from, req, now_ms } => self.with_request(from, req, now_ms),
            GroupEvent::Updated { target, sid, force_full, now_ms } => self.after_update(
                target,
                sid,
                force_full,
                now_ms,
            ),
            GroupEvent::Cleaned { now_ms, threshold_ms } => self.cleaned(now_ms, threshold_ms),
        }
    }

    /// The connection version of `id`.
    pub open spec fn conn_version(self, id: u32) -> u32 {
        crate::route_model::get_or(self.peer_conn_versions, id, 1u32)
    }

    /// Whether the connection version of `id` can be raised once, for the relay twice, before it
    /// wraps around.
    pub open spec fn version_can_grow(self, id: u32) -> bool {
        self.conn_version(id) + (if id == MY_PEER_ID {
            2int
        } else {
            1
        }) <= u32::MAX
    }

    /// What always holds: no connection is on record to the relay or from a peer to itself, a
    /// connected peer does not count as gone, and the relay's own info carries its version.
    pub open spec fn consistent(self) -> bool {
        &&& forall|a: u32, b: u32| #[trigger]
            crate::conn_bitmap::linked(self.peer_connections, a, b) ==> b != MY_PEER_ID && b != a
        &&& forall|id: u32| #[trigger]
            self.peers.contains(id) ==> !self.peer_removed_at.contains_key(id)
        &&& self.my_info.version == self.my_info_version
    }
}

/// A new group is consistent.
pub proof fn new_group_is_consistent(seed: GroupSeed)
    ensures
        GroupView::fresh(seed).consistent(),
{
}

/// Every event keeps a group consistent.
pub proof fn groups_stay_consistent(g: GroupView, e: GroupEvent)
    requires
        g.consistent(),
    ensures
        g.after(e).consistent(),
{
    let after = g.after(e);
    assert forall|a: u32, b: u32| #[trigger]
        crate::conn_bitmap::linked(after.peer_connections, a, b) implies b != MY_PEER_ID && b
        != a by {
        match e {
            GroupEvent::Reported { from, conn_info: Some(c) } => {
                let links = g.accepted_links(from, c);
                if a != from {
                    assert(crate::conn_bitmap::linked(g.peer_connections, a, b));
                }
            },
            _ => {
                assert(crate::conn_bitmap::linked(g.peer_connections, a, b));
            },
        }
    }
}

/// Raising the connection versions raises that of every peer that is connected or has an info,
/// and that of the relay, short of the point where versions wrap around.
pub proof fn raised_versions_grow(g: GroupView, id: u32)
    requires
        g.tracks(id) || id == MY_PEER_ID,
        g.version_can_grow(id),
    ensures
        g.bumped().conn_version(id) > g.conn_version(id),
{
}

/// No event lowers the connection version of a peer, short of the point where versions wrap around.
pub proof fn versions_never_fall(g: GroupView, e: GroupEvent, id: u32)
    requires
        g.version_can_grow(id),
    ensures
        g.after(e).conn_version(id) >= g.conn_version(id),
{
}

/// A peer that connects is among the connected peers; connecting again changes nothing more.
pub proof fn joining_twice_is_joining_once(g: GroupView, id: u32)
    ensures
        g.with_peer(id).peers == g.peers.insert(id),
        g.with_peer(id).with_peer(id) == g.with_peer(id),
{
    let once = g.with_peer(id);
    assert(once.with_peer(id) =~= once);
}

/// A new peer raises the connection versions of all peers of the group.
pub proof fn a_new_peer_is_announced(g: GroupView, id: u32, other: u32)
    requires
        !g.peers.contains(id),
        g.tracks(other) || other == id || other == MY_PEER_ID,
        g.version_can_grow(other),
    ensures
        g.with_peer(id).conn_version(other) > g.conn_version(other),
{
    let joined = GroupView {
        peers: g.peers.insert(id),
        peer_removed_at: g.peer_removed_at.remove(id),
        ..g
    };
    raised_versions_grow(joined, other);
}

/// Nothing is left of a peer that has left but its reported connections and its connection version;
/// the other peers stay.
pub proof fn leaving_forgets_the_peer(g: GroupView, id: u32, now_ms: u64)
    ensures
        ({
            let after = g.without_peer(id, now_ms);
            &&& after.peers == g.peers.remove(id)
            &&& after.peer_infos == g.peer_infos.remove(id)
            &&& after.sessions == g.sessions.remove(id)
            &&& id != MY_PEER_ID ==> after.conn_version(id) == g.conn_version(id)
            &&& after.peer_connections == g.peer_connections
            &&& after.peer_removed_at == g.peer_removed_at.insert(id, now_ms)
        }),
{
}

/// A peer that leaves and comes back has a later connection version than before, short of the point
/// where versions wrap around.
pub proof fn versions_grow_over_a_reconnect(g: GroupView, id: u32, left_ms: u64)
    requires
        g.version_can_grow(id),
        g.without_peer(id, left_ms).version_can_grow(id),
    ensures
        g.without_peer(id, left_ms).with_peer(id).conn_version(id) > g.conn_version(id),
{
}

/// The reported connections survive a short interruption: a peer that leaves and comes back has
/// the connections that it had, and clean-up drops none but those to peers that left themselves.
pub proof fn connections_survive_a_reconnect(
    g: GroupView,
    id: u32,
    left_ms: u64,
    now_ms: u64,
    threshold_ms: u64,
)
    ensures
        ({
            let back = g.without_peer(id, left_ms).with_peer(id);
            &&& back.peer_connections == g.peer_connections
            &&& !back.is_stale(id, now_ms, threshold_ms)
            &&& forall|b: u32|
                !back.is_stale(b, now_ms, threshold_ms) ==> #[trigger] crate::conn_bitmap::linked(
                    back.cleaned(now_ms, threshold_ms).peer_connections,
                    id,
                    b,
                ) == crate::conn_bitmap::linked(g.peer_connections, id, b)
        }),
{
}

/// Clean-up drops exactly the connections of and to peers that left too long ago: those that are
/// left join two peers that did not.
pub proof fn clean_up_drops_stale_connections(
    g: GroupView,
    now_ms: u64,
    threshold_ms: u64,
    a: u32,
    b: u32,
)
    ensures
        crate::conn_bitmap::linked(g.cleaned(now_ms, threshold_ms).peer_connections, a, b) == (
        crate::conn_bitmap::linked(g.peer_connections, a, b) && !g.is_stale(
            a,
            now_ms,
            threshold_ms,
        ) && !g.is_stale(b, now_ms, threshold_ms)),
{
}

/// Clean-up keeps the connections between peers that are connected, and running it again at the
/// same time changes nothing more.
pub proof fn clean_up_keeps_connected_peers(
    g: GroupView,
    now_ms: u64,
    threshold_ms: u64,
    a: u32,
    b: u32,
)
    requires
        g.consistent(),
        g.peers.contains(a),
        g.peers.contains(b),
    ensures
        crate::conn_bitmap::linked(g.cleaned(now_ms, threshold_ms).peer_connections, a, b)
            == crate::conn_bitmap::linked(g.peer_connections, a, b),
        g.cleaned(now_ms, threshold_ms).cleaned(now_ms, threshold_ms) == g.cleaned(
            now_ms,
            threshold_ms,
        ),
{
    let once = g.cleaned(now_ms, threshold_ms);
    let twice = once.cleaned(now_ms, threshold_ms);
    assert forall|id: u32| !once.is_stale(id, now_ms, threshold_ms) by {}
    assert(twice.peer_removed_at =~= once.peer_removed_at);
    assert forall|id: u32| #[trigger] once.peer_connections.dom().contains(
        id,
    ) implies twice.peer_connections.dom().contains(id) && twice.peer_connections[id]
        == once.peer_connections[id] by {
        assert(twice.peer_connections[id] =~= once.peer_connections[id]);
    }
    assert(twice.peer_connections =~= once.peer_connections);
    assert(twice =~= once);
}

/// An info that is not newer than the known one changes nothing, and the known version of an info
/// that comes in this way never falls.
pub proof fn old_infos_are_ignored(g: GroupView, id: u32, info: RoutePeerInfoView)
    ensures
        g.peer_infos.contains_key(id) && info.version <= g.peer_infos[id].version ==> g.with_info(
            id,
            info,
        ) == g,
        g.with_info(id, info).peer_infos.contains_key(id),
        g.with_info(id, info).peer_infos[id].version >= info.version,
        g.peer_infos.contains_key(id) ==> g.with_info(id, info).peer_infos[id].version
            >= g.peer_infos[id].version,
{
}

/// A peer that names a new session was restarted: what it was sent is forgotten. One that names
/// the same session again is sent only what is new.
pub proof fn a_new_session_starts_over(s: SessionView, sid: u64, we_are_initiator: bool, now_ms: u64)
    ensures
        ({
            let after = s.acked(sid, we_are_initiator, now_ms);
            &&& after.dst_session_id == Some(sid)
            &&& s.dst_session_id != Some(sid) ==> {
                &&& after.peer_info_ver_map == Map::<u32, u32>::empty()
                &&& after.conn_bitmap_ver_map == Map::<u32, u32>::empty()
                &&& after.foreign_net_ver == 0
                &&& after.last_conn_bitmap_sig is None
            }
            &&& s.dst_session_id == Some(sid) ==> {
                &&& after.peer_info_ver_map == s.peer_info_ver_map
                &&& after.conn_bitmap_ver_map == s.conn_bitmap_ver_map
                &&& after.foreign_net_ver == s.foreign_net_ver
                &&& after.last_conn_bitmap_sig == s.last_conn_bitmap_sig
            }
        }),
{
}

/// Of the connections that a peer reports only those to other connected peers are taken over.
pub proof fn reports_are_confined(g: GroupView, from: u32, conn_info: ConnInfoView, p: u32)
    requires
        g.accepted_links(from, conn_info).contains(p),
    ensures
        g.peers.contains(p),
        p != MY_PEER_ID,
        p != from,
        crate::route_model::reported_peers(conn_info, from).contains(p),
{
}

/// A connection that one of two peers reports is passed on: the bit map of every list with both
/// peers in it marks them as connected, both ways.
pub proof fn reported_connections_are_passed_on(
    g: GroupView,
    from: u32,
    conn_info: ConnInfoView,
    p: u32,
    ids: Seq<u32>,
    i: int,
    j: int,
)
    requires
        g.accepted_links(from, conn_info).contains(p),
        0 <= i < ids.len(),
        0 <= j < ids.len(),
        ids[i] == from,
        ids[j] == p,
    ensures
        ({
            let map = g.with_report(from, Some(conn_info)).bitmap(ids).bitmap;
            &&& crate::conn_bitmap::cell(map, ids.len() as int, i, j)
            &&& crate::conn_bitmap::cell(map, ids.len() as int, j, i)
        }),
{
    let links = g.with_report(from, Some(conn_info)).peer_connections;
    let relation = |row: int, col: int| crate::conn_bitmap::edge(ids, links, row, col);
    assert(crate::conn_bitmap::linked(links, from, p));
    assert(relation(i, j) && relation(j, i));
    crate::conn_bitmap::grid_cells(ids.len() as int, relation, i, j);
    crate::conn_bitmap::grid_cells(ids.len() as int, relation, j, i);
}

/// Reporting the same connections again changes nothing.
pub proof fn reporting_twice_is_reporting_once(
    g: GroupView,
    from: u32,
    conn_info: Option<ConnInfoView>,
)
    ensures
        !g.with_report(from, conn_info).report_changes(from, conn_info),
        g.with_report(from, conn_info).with_report(from, conn_info) == g.with_report(
            from,
            conn_info,
        ),
{
    if let Some(c) = conn_info {
        let once = g.with_report(from, conn_info);
        assert(once.accepted_links(from, c) =~= g.accepted_links(from, c));
        assert(once.with_report(from, conn_info) =~= once);
    }
}

/// An update speaks of all connected peers, of the relay and of its target, each once and in
/// increasing order, as long as there is an increasing list of them.
pub proof fn updates_speak_of_all_peers(g: GroupView, target: u32, ids: Seq<u32>)
    requires
        crate::route_model::lists(ids, g.peers.insert(MY_PEER_ID).insert(target)),
    ensures
        g.relevant(target) == ids,
        forall|id: u32| #[trigger]
            g.relevant(target).contains(id) <==> g.peers.contains(id) || id == MY_PEER_ID || id
                == target,
{
    let all = g.peers.insert(MY_PEER_ID).insert(target);
    crate::route_model::listing_is_unique(ids, g.relevant(target), all);
    assert forall|id: u32| #[trigger] g.relevant(target).contains(id) == (g.peers.contains(id) || id
        == MY_PEER_ID || id == target) by {
        assert(ids.to_set().contains(id) == all.contains(id));
    }
}

/// A full update holds the info of every peer that it speaks of.
pub proof fn full_updates_hold_every_info(
    g: GroupView,
    target: u32,
    sid: u64,
    force_full: bool,
    now_ms: u64,
)
    requires
        force_full || g.session(target).dst_session_id is None,
    ensures
        ({
            let ids = g.relevant(target);
            let described = g.with_open_session(target, sid, now_ms).with_stubs(ids, now_ms);
            g.update_infos(target, sid, force_full, now_ms) == ids.map_values(
                |id: u32| described.info_of(id),
            )
        }),
{
    let ids = g.relevant(target);
    let described = g.with_open_session(target, sid, now_ms).with_stubs(ids, now_ms);
    let known = described.session(target).peer_info_ver_map;
    all_infos_are_due(described, ids, known);
}

proof fn all_infos_are_due(g: GroupView, ids: Seq<u32>, known: Map<u32, u32>)
    ensures
        g.due_infos(ids, known, true) == ids.map_values(|id: u32| g.info_of(id)),
    decreases ids.len(),
{
    if ids.len() == 0 {
        assert(ids =~= Seq::empty());
        crate::route_model::due_infos_of_none(g, known, true);
        assert(g.due_infos(ids, known, true) =~= ids.map_values(|id: u32| g.info_of(id)));
    } else {
        let n = ids.len() - 1;
        all_infos_are_due(g, ids.drop_last(), known);
        crate::route_model::due_infos_step(g, ids, known, true, n);
        assert(ids.take(n) =~= ids.drop_last());
        assert(ids.take(n + 1) =~= ids);
        assert(g.due_infos(ids, known, true) =~= ids.map_values(|id: u32| g.info_of(id)));
    }
}

proof fn no_info_is_due(g: GroupView, ids: Seq<u32>, known: Map<u32, u32>)
    requires
        forall|id: u32| #[trigger] ids.contains(id) ==> !g.is_due(known, false, id),
    ensures
        g.due_infos(ids, known, false).len() == 0,
    decreases ids.len(),
{
    if ids.len() == 0 {
        assert(ids =~= Seq::empty());
        crate::route_model::due_infos_of_none(g, known, false);
    } else {
        let n = ids.len() - 1;
        assert forall|id: u32| #[trigger] ids.drop_last().contains(id) implies !g.is_due(
            known,
            false,
            id,
        ) by {
            let k = choose|k: int| 0 <= k < n && ids.drop_last()[k] == id;
            assert(ids[k] == id);
            assert(ids.contains(id));
        }
        no_info_is_due(g, ids.drop_last(), known);
        crate::route_model::due_infos_step(g, ids, known, false, n);
        assert(ids.take(n) =~= ids.drop_last());
        assert(ids.take(n + 1) =~= ids);
        assert(ids.contains(ids[n]));
    }
}

/// Peers are sent only what is new: once a peer that has named its session was sent an update, and
/// nothing has happened since, the next update holds no bit map and, unless a full one is asked for,
/// no infos; a full one holds all infos. The relayed network is described each time, under the next
/// version.
pub proof fn updates_are_not_repeated(
    g: GroupView,
    target: u32,
    sid: u64,
    force_full: bool,
    now_ms: u64,
    next_sid: u64,
    we_are_initiator: bool,
    next_full: bool,
    next_ms: u64,
)
    requires
        g.session(target).dst_session_id is Some,
    ensures
        ({
            let sent = g.after_update(target, sid, force_full, now_ms);
            let next = sent.update(target, next_sid, we_are_initiator, next_full, next_ms);
            let ids = g.relevant(target);
            &&& next.conn_info is None
            &&& !next_full ==> next.peer_infos is None
            &&& next_full ==> GroupView::infos_in(next) == ids.map_values(
                |id: u32| sent.info_of(id),
            )
            &&& next.foreign_network_infos == Some(
                seq![
                    GroupView::foreign_info(
                        ids,
                        g.session(target).foreign_net_ver.wrapping_add(1).wrapping_add(1),
                        next_ms,
                    ),
                ],
            )
        }),
{
    let ids = g.relevant(target);
    let full = g.sends_all(target, force_full);
    let g1 = g.with_open_session(target, sid, now_ms).with_stubs(ids, now_ms);
    let known1 = g1.session(target).peer_info_ver_map;
    let g2 = g.after_infos(target, sid, force_full, now_ms);
    let g3 = g.after_update(target, sid, force_full, now_ms);
    assert(g3.relevant(target) == ids);
    let g4 = g3.with_open_session(target, next_sid, next_ms).with_stubs(ids, next_ms);
    assert forall|id: u32| #[trigger] g3.peer_infos.dom().contains(id) == (
    g.peer_infos.contains_key(id) || (ids.contains(id) && id != MY_PEER_ID)) by {}
    assert(g4.peer_infos =~= g3.peer_infos);
    let known4 = g4.session(target).peer_info_ver_map;
    assert(known4 == g1.known_after(ids, known1, full));
    assert forall|id: u32| #[trigger] ids.contains(id) implies !g4.is_due(known4, false, id) by {
        assert(g4.info_of(id) == g1.info_of(id));
        if g1.is_due(known1, full, id) {
            assert(known4.contains_key(id));
        } else {
            assert(g1.sent_version(id) >= 1);
            assert(known1.contains_key(id));
        }
    }
    no_info_is_due(g4, ids, known4);
    if next_full {
        full_updates_hold_every_info(g3, target, next_sid, next_full, next_ms);
        assert(ids.map_values(|id: u32| g4.info_of(id)) =~= ids.map_values(
            |id: u32| g3.info_of(id),
        ));
        let infos = g3.update_infos(target, next_sid, next_full, next_ms);
        if infos.len() == 0 {
            assert(infos =~= Seq::empty());
        }
    }
    let g5 = g3.after_infos(target, next_sid, next_full, next_ms);
    assert(g5.versions(ids) =~= g2.versions(ids));
    assert(g5.peer_connections == g2.peer_connections);
    assert(ids.len() > 0 ==> g5.session(target).last_conn_bitmap_sig == Some(
        g2.bitmap_signature(ids),
    ));
}

/// A bit map is sent exactly when it differs from the one that was sent last: after an update for
/// `target`, whatever happens to the group, the next update holds a bit map, that of the group as it
/// then is, unless the peers, their order and versions and all connections among them are as they
/// were. What was sent last is known as long as the session with `target` stays.
pub proof fn changed_bit_maps_are_sent(
    g: GroupView,
    target: u32,
    sid: u64,
    force_full: bool,
    now_ms: u64,
    later: GroupView,
    next_sid: u64,
    we_are_initiator: bool,
    next_full: bool,
    next_ms: u64,
)
    requires
        g.lists_relevant(target),
        later.lists_relevant(target),
        later.session(target).last_conn_bitmap_sig == g.after_update(
            target,
            sid,
            force_full,
            now_ms,
        ).session(target).last_conn_bitmap_sig,
    ensures
        ({
            let before = g.bitmap(g.relevant(target));
            let current = later.bitmap(later.relevant(target));
            later.update(target, next_sid, we_are_initiator, next_full, next_ms).conn_info == (
            if current == before {
                None
            } else {
                Some(ConnInfoView::ConnBitmap(current))
            })
        }),
{
    let ids = g.relevant(target);
    let next_ids = later.relevant(target);
    assert(ids.to_set().contains(target));
    assert(next_ids.to_set().contains(target));
    let g2 = g.after_infos(target, sid, force_full, now_ms);
    let h2 = later.after_infos(target, next_sid, next_full, next_ms);
    assert(g2.versions(ids) =~= g.versions(ids));
    assert(h2.versions(next_ids) =~= later.versions(next_ids));
    let sent = g.after_update(target, sid, force_full, now_ms);
    assert(sent.session(target).last_conn_bitmap_sig == Some(g.bitmap_signature(ids)));
    assert(h2.session(target).last_conn_bitmap_sig == Some(g.bitmap_signature(ids)));
    if later.bitmap_signature(next_ids) == g.bitmap_signature(ids) {
        crate::conn_bitmap::signature_tells_maps_apart(
            later.versions(next_ids),
            crate::conn_bitmap::connection_map(next_ids, later.peer_connections),
            g.versions(ids),
            crate::conn_bitmap::connection_map(ids, g.peer_connections),
        );
    }
}

/// The answer to a request names the session that the relay has opened with the peer, and claims
/// the other role.
pub proof fn answers_name_the_open_session(
    g: GroupView,
    target: u32,
    sid: u64,
    force_full: bool,
    now_ms: u64,
    req: SyncRequestView,
)
    ensures
        g.after_update(target, sid, force_full, now_ms).response(target, req) == (
        SyncRouteInfoResponse { is_initiator: !req.is_initiator, session_id: sid, error: None }),
{
}

/// A request of a peer leaves the relay knowing the session that the request named, and an info
/// about every connected peer, and about the sender, that the request describes.
pub proof fn requests_describe_their_sender(
    g: GroupView,
    from: u32,
    req: SyncRequestView,
    now_ms: u64,
    infos: Seq<RoutePeerInfoView>,
    i: int,
)
    requires
        req.peer_infos == Some(infos),
        0 <= i < infos.len(),
        g.accepts_info(from, infos[i].peer_id),
    ensures
        g.with_request(from, req, now_ms).session(from).dst_session_id == Some(req.my_session_id),
        g.with_request(from, req, now_ms).peer_infos.contains_key(infos[i].peer_id),
{
    let s = g.with_session(
        from,
        g.session(from).requested(req.my_session_id, req.is_initiator, now_ms),
    );
    accepted_infos_are_kept(s, from, infos, now_ms, i);
}

proof fn accepted_infos_are_kept(
    g: GroupView,
    from: u32,
    infos: Seq<RoutePeerInfoView>,
    now_ms: u64,
    i: int,
)
    requires
        0 <= i < infos.len(),
        g.accepts_info(from, infos[i].peer_id),
    ensures
        g.infos_after(from, infos, now_ms).contains_key(infos[i].peer_id),
    decreases infos.len(),
{
    if i < infos.len() - 1 {
        accepted_infos_are_kept(g, from, infos.drop_last(), now_ms, i);
    }
}

/// What happens to one group leaves all others as they are.
pub proof fn groups_are_independent(
    before: Map<Seq<char>, GroupView>,
    after: Map<Seq<char>, GroupView>,
    key: Seq<char>,
    change: spec_fn(GroupView) -> GroupView,
    other: Seq<char>,
)
    requires
        crate::route_model::changes_group(before, after, key, change),
        other != key,
    ensures
        after.contains_key(other) == before.contains_key(other),
        before.contains_key(other) ==> after[other] == before[other],
{
}

/// Whether every group is consistent.
pub open spec fn all_consistent(groups: Map<Seq<char>, GroupView>) -> bool {
    forall|key: Seq<char>| #[trigger] groups.contains_key(key) ==> groups[key].consistent()
}

/// Whatever happens to a group, and whether or not it has to be set up for that, all groups stay
/// consistent.
pub proof fn route_states_stay_consistent(
    before: Map<Seq<char>, GroupView>,
    after: Map<Seq<char>, GroupView>,
    key: Seq<char>,
    e: GroupEvent,
)
    requires
        all_consistent(before),
        crate::route_model::changes_group(before, after, key, |g: GroupView| g.after(e)),
    ensures
        all_consistent(after),
{
    let change = |g: GroupView| g.after(e);
    let seed = choose|seed: GroupSeed|
        after == before.insert(
            key,
            change(#[trigger] crate::route_model::group_at(before, key, seed)),
        );
    let g = crate::route_model::group_at(before, key, seed);
    new_group_is_consistent(seed);
    groups_stay_consistent(g, e);
    assert forall|k: Seq<char>| #[trigger] after.contains_key(k) implies after[k].consistent() by {
        if k != key {
            assert(before.contains_key(k));
        }
    }
}

} // verus!
