//! The mathematical model of a network group: what the relay knows of its peers, and how every
//! event changes that.

use vstd::prelude::*;

use crate::constants::MY_PEER_ID;
use crate::proto::{
    ConnInfoView, ForeignEntryView, ForeignInfoView, ForeignKeyView, Ipv4Addr, PeerConnInfoView,
    PeerFeatureFlag, PeerIdVersion, RouteConnBitmapView, RoutePeerInfoView, SyncRequestView,
    SyncRouteInfoResponse, Timestamp, Uuid,
};

verus! {

/// The value under `k`, or `d` where there is none.
pub open spec fn get_or<V>(m: Map<u32, V>, k: u32, d: V) -> V {
    if m.contains_key(k) {
        m[k]
    } else {
        d
    }
}

/// What is known of the exchange of route information with one peer.
#[verifier::ext_equal]
pub struct SessionView {
    pub my_session_id: Option<u64>,
    pub dst_session_id: Option<u64>,
    pub we_are_initiator: bool,
    /// The versions of the peer infos that the peer was sent.
    pub peer_info_ver_map: Map<u32, u32>,
    pub conn_bitmap_ver_map: Map<u32, u32>,
    pub foreign_net_ver: u32,
    pub last_touch_ms: u64,
    /// The signature of the bit map that the peer was sent last.
    pub last_conn_bitmap_sig: Option<Seq<char>>,
}

impl SessionView {
    /// The session before anything was exchanged.
    pub open spec fn blank() -> SessionView {
        SessionView {
            my_session_id: None,
            dst_session_id: None,
            we_are_initiator: false,
            peer_info_ver_map: Map::empty(),
            conn_bitmap_ver_map: Map::empty(),
            foreign_net_ver: 0,
            last_touch_ms: 0,
            last_conn_bitmap_sig: None,
        }
    }

    /// The session once the peer has named its session `sid`. A name that differs from the one
    /// before means that the peer has started over: what it was sent is forgotten.
    pub open spec fn with_peer_session(self, sid: u64) -> SessionView {
        if self.dst_session_id == Some(sid) {
            self
        } else {
            SessionView {
                dst_session_id: Some(sid),
                peer_info_ver_map: Map::empty(),
                conn_bitmap_ver_map: Map::empty(),
                foreign_net_ver: 0,
                last_conn_bitmap_sig: None,
                ..self
            }
        }
    }

    /// The session after the peer has acknowledged it.
    pub open spec fn acked(self, sid: u64, we_are_initiator: bool, now_ms: u64) -> SessionView {
        SessionView { we_are_initiator, last_touch_ms: now_ms, ..self.with_peer_session(sid) }
    }

    /// The session after a request of the peer.
    pub open spec fn requested(self, sid: u64, peer_is_initiator: bool, now_ms: u64) -> SessionView {
        let s = self.with_peer_session(sid);
        SessionView {
            last_touch_ms: now_ms,
            we_are_initiator: if peer_is_initiator {
                false
            } else {
                s.we_are_initiator
            },
            ..s
        }
    }

    /// The session once the relay has named its own session `sid`.
    pub open spec fn opened(self, sid: u64, now_ms: u64) -> SessionView {
        SessionView { my_session_id: Some(sid), last_touch_ms: now_ms, ..self }
    }
}

/// What chance decides when a group is set up.
#[derive(Debug, Clone, Copy, PartialEq, Eq, Structural)]
pub struct GroupSeed {
    pub inst_id: Uuid,
    pub peer_route_id: u64,
}

/// What the relay offers and asks for.
pub open spec fn server_features() -> PeerFeatureFlag {
    PeerFeatureFlag {
        is_public_server: true,
        avoid_relay_data: true,
        kcp_input: false,
        no_relay_kcp: false,
        support_conn_list_sync: false,
        quic_input: false,
        no_relay_quic: false,
        is_credential_peer: false,
        need_p2p: true,
        disable_p2p: false,
        ipv6_public_addr_provider: false,
    }
}

/// What stands for a peer that has not described itself.
pub open spec fn stub_info(peer_id: u32, network_length: u32, now_ms: u64) -> RoutePeerInfoView {
    RoutePeerInfoView {
        peer_id,
        version: 1,
        last_update: Some(Timestamp::at(now_ms)),
        inst_id: Some(Uuid { part1: 0, part2: 0, part3: 0, part4: 0 }),
        cost: 1,
        easytier_version: "cf-2.6"@,
        network_length,
        ..RoutePeerInfoView::blank()
    }
}

/// Whether `ids` lists the members of `s` in increasing order.
pub open spec fn lists(ids: Seq<u32>, s: Set<u32>) -> bool {
    &&& ids.to_set() == s
    &&& forall|i: int, j: int| 0 <= i < j < ids.len() ==> ids[i] < ids[j]
}

/// The members of `s` in increasing order.
pub open spec fn sorted(s: Set<u32>) -> Seq<u32> {
    choose|ids: Seq<u32>| lists(ids, s)
}

/// Whether `i` is the first place in a bit map's list at which the peer `id` stands.
pub open spec fn first_in_bitmap(ids: Seq<PeerIdVersion>, id: u32, i: int) -> bool {
    &&& 0 <= i < ids.len()
    &&& ids[i].peer_id == id
    &&& forall|j: int| 0 <= j < i ==> (#[trigger] ids[j]).peer_id != id
}

/// The first place in a bit map's list at which the peer `id` stands.
pub open spec fn row_of(ids: Seq<PeerIdVersion>, id: u32) -> int {
    choose|i: int| first_in_bitmap(ids, id, i)
}

/// Whether an entry of a peer list is about the peer `id`.
pub open spec fn entry_is_about(entry: PeerConnInfoView, id: u32) -> bool {
    entry.peer_id matches Some(p) && p.peer_id == id
}

/// Whether `i` is the first place in a peer list at which an entry about the peer `id` stands.
pub open spec fn first_in_list(entries: Seq<PeerConnInfoView>, id: u32, i: int) -> bool {
    &&& 0 <= i < entries.len()
    &&& entry_is_about(entries[i], id)
    &&& forall|j: int| 0 <= j < i ==> !entry_is_about(#[trigger] entries[j], id)
}

/// The first place in a peer list at which an entry about the peer `id` stands.
pub open spec fn entry_of(entries: Seq<PeerConnInfoView>, id: u32) -> int {
    choose|i: int| first_in_list(entries, id, i)
}

/// The peers that `from` says it is connected to: what the first row, or the first entry, about
/// `from` holds.
pub open spec fn reported_peers(conn_info: ConnInfoView, from: u32) -> Set<u32> {
    match conn_info {
        ConnInfoView::ConnBitmap(b) => if exists|i: int| first_in_bitmap(b.peer_ids, from, i) {
            crate::conn_bitmap::row_peers(b.peer_ids, b.bitmap, row_of(b.peer_ids, from))
        } else {
            Set::empty()
        },
        ConnInfoView::ConnPeerList(l) => if exists|i: int| first_in_list(l, from, i) {
            l[entry_of(l, from)].connected_peer_ids.to_set()
        } else {
            Set::empty()
        },
    }
}

/// The larger of two numbers.
pub open spec fn larger(a: u32, b: u32) -> u32 {
    if a >= b {
        a
    } else {
        b
    }
}

/// The largest version in a list, or 0 if the list is empty.
pub open spec fn largest_version(ps: Seq<PeerIdVersion>) -> u32
    decreases ps.len(),
{
    if ps.len() == 0 {
        0
    } else {
        larger(largest_version(ps.drop_last()), ps.last().version)
    }
}

/// Everything that is known of a network group.
#[verifier::ext_equal]
pub struct GroupView {
    /// The peers that are connected to the relay.
    pub peers: Set<u32>,
    pub peer_infos: Map<u32, RoutePeerInfoView>,
    pub sessions: Map<u32, SessionView>,
    pub peer_conn_versions: Map<u32, u32>,
    /// What the relay says of itself.
    pub my_info: RoutePeerInfoView,
    pub my_info_version: u32,
    /// For each peer the peers that it reported to be connected to, without the relay.
    pub peer_connections: Map<u32, Set<u32>>,
    /// When each peer that left was last removed, in milliseconds.
    pub peer_removed_at: Map<u32, u64>,
}

impl GroupView {
    /// A group as it is set up.
    pub open spec fn fresh(seed: GroupSeed) -> GroupView {
        GroupView {
            peers: Set::empty(),
            peer_infos: Map::empty(),
            sessions: Map::empty(),
            peer_conn_versions: Map::empty(),
            my_info: RoutePeerInfoView {
                peer_id: MY_PEER_ID,
                inst_id: Some(seed.inst_id),
                cost: 1,
                version: 1,
                network_length: 24,
                easytier_version: "cf-easytier-wsrelay"@,
                hostname: Some("cf-easytier-wsrelay"@),
                peer_route_id: seed.peer_route_id,
                feature_flag: Some(server_features()),
                ..RoutePeerInfoView::blank()
            },
            my_info_version: 1,
            peer_connections: Map::empty(),
            peer_removed_at: Map::empty(),
        }
    }

    /// Whether the relay keeps a connection version for `id`: a connected peer, or one with an
    /// info.
    pub open spec fn tracks(self, id: u32) -> bool {
        self.peers.contains(id) || self.peer_infos.contains_key(id)
    }

    /// The connection versions after every tracked peer got the next one; a peer without a
    /// version counts as having version 1.
    pub open spec fn tracked_versions_raised(self) -> Map<u32, u32> {
        Map::new(
            |id: u32| self.peer_conn_versions.contains_key(id) || self.tracks(id),
            |id: u32|
                if self.tracks(id) {
                    get_or(self.peer_conn_versions, id, 1u32).wrapping_add(1)
                } else {
                    self.peer_conn_versions[id]
                },
        )
    }

    /// The group after every connection version, the relay's own last, was raised by one. Versions
    /// wrap around at 2^32.
    pub open spec fn bumped(self) -> GroupView {
        let raised = self.tracked_versions_raised();
        GroupView {
            peer_conn_versions: raised.insert(
                MY_PEER_ID,
                get_or(raised, MY_PEER_ID, 1u32).wrapping_add(1),
            ),
            ..self
        }
    }

    /// `bumped` if `changed` holds, else the group as it is.
    pub open spec fn bumped_if(self, changed: bool) -> GroupView {
        if changed {
            self.bumped()
        } else {
            self
        }
    }

    /// The group after `id` has connected. Versions are raised if it was not connected before.
    pub open spec fn with_peer(self, id: u32) -> GroupView {
        GroupView {
            peers: self.peers.insert(id),
            peer_removed_at: self.peer_removed_at.remove(id),
            ..self
        }.bumped_if(!self.peers.contains(id))
    }

    /// The group after `id` has left. What it reported of its connections is kept for now, and so is
    /// its connection version, which goes on from there when it comes back.
    pub open spec fn without_peer(self, id: u32, now_ms: u64) -> GroupView {
        GroupView {
            peers: self.peers.remove(id),
            peer_infos: self.peer_infos.remove(id),
            sessions: self.sessions.remove(id),
            peer_removed_at: self.peer_removed_at.insert(id, now_ms),
            ..self
        }.bumped_if(self.peers.contains(id))
    }

    /// Whether `info` says more of `id` than what is known: nothing is known yet, or only an
    /// earlier version.
    pub open spec fn is_news(self, id: u32, info: RoutePeerInfoView) -> bool {
        !self.peer_infos.contains_key(id) || info.version > self.peer_infos[id].version
    }

    /// The group after `info` came in for `id`. Versions are raised if nothing was known of `id`.
    pub open spec fn with_info(self, id: u32, info: RoutePeerInfoView) -> GroupView {
        if self.is_news(id, info) {
            GroupView { peer_infos: self.peer_infos.insert(id, info), ..self }.bumped_if(
                !self.peer_infos.contains_key(id),
            )
        } else {
            self
        }
    }

    /// The group after the infos in `infos`, each about the peer that it names, came in one after
    /// the other.
    pub open spec fn with_infos(self, infos: Seq<RoutePeerInfoView>) -> GroupView
        decreases infos.len(),
    {
        if infos.len() == 0 {
            self
        } else {
            self.with_infos(infos.drop_last()).with_info(infos.last().peer_id, infos.last())
        }
    }

    /// Whether one of `infos` is about a peer, other than the relay, that is not connected.
    pub open spec fn brings_strangers(self, infos: Seq<RoutePeerInfoView>) -> bool {
        exists|i: int|
            0 <= i < infos.len() && (#[trigger] infos[i]).peer_id != MY_PEER_ID
                && !self.peers.contains(infos[i].peer_id)
    }

    /// Whether one of `infos`, when its turn comes, is a later version of an info that is known.
    pub open spec fn brings_newer(self, infos: Seq<RoutePeerInfoView>) -> bool {
        exists|i: int| 0 <= i < infos.len() && #[trigger] self.newer_at(infos, i)
    }

    /// Whether the info at `i`, when its turn comes, is a later version of an info that is known.
    pub open spec fn newer_at(self, infos: Seq<RoutePeerInfoView>, i: int) -> bool {
        let known = self.with_infos(infos.take(i)).peer_infos;
        let info = infos[i];
        known.contains_key(info.peer_id) && info.version > known[info.peer_id].version
    }

    /// The session with `id`.
    pub open spec fn session(self, id: u32) -> SessionView {
        get_or(self.sessions, id, SessionView::blank())
    }

    /// The group with `s` as the session with `id`.
    pub open spec fn with_session(self, id: u32, s: SessionView) -> GroupView {
        GroupView { sessions: self.sessions.insert(id, s), ..self }
    }

    /// The group after `id` has acknowledged the session that it calls `sid`.
    pub open spec fn with_ack(
        self,
        id: u32,
        sid: u64,
        we_are_initiator: bool,
        now_ms: u64,
    ) -> GroupView {
        self.with_session(id, self.session(id).acked(sid, we_are_initiator, now_ms))
    }

    /// The group with `info` as the relay's own info, under the next version.
    pub open spec fn with_my_info(self, info: RoutePeerInfoView) -> GroupView {
        let version = self.my_info_version.wrapping_add(1);
        GroupView {
            my_info: RoutePeerInfoView { version, ..info },
            my_info_version: version,
            ..self
        }
    }

    /// The connections that count when `from` reports `conn_info`: those to connected peers other
    /// than the relay and `from` itself.
    pub open spec fn accepted_links(self, from: u32, conn_info: ConnInfoView) -> Set<u32> {
        let reported = reported_peers(conn_info, from);
        Set::new(
            |p: u32|
                reported.contains(p) && p != MY_PEER_ID && p != from && self.peers.contains(p),
        )
    }

    /// Whether `links` differs from the connections that are on record for `from`; where nothing is
    /// on record there are none.
    pub open spec fn links_change(self, from: u32, links: Set<u32>) -> bool {
        get_or(self.peer_connections, from, Set::empty()) != links
    }

    /// The group with `links` on record for `from`. Versions are raised if that is a change.
    pub open spec fn with_links(self, from: u32, links: Set<u32>) -> GroupView {
        GroupView {
            peer_connections: if links == Set::<u32>::empty() {
                self.peer_connections.remove(from)
            } else {
                self.peer_connections.insert(from, links)
            },
            ..self
        }.bumped_if(self.links_change(from, links))
    }

    /// The group after `from` reported `conn_info`; a report without connections changes nothing.
    pub open spec fn with_report(self, from: u32, conn_info: Option<ConnInfoView>) -> GroupView {
        match conn_info {
            Some(c) => self.with_links(from, self.accepted_links(from, c)),
            None => self,
        }
    }

    /// Whether a report changes the connections on record.
    pub open spec fn report_changes(self, from: u32, conn_info: Option<ConnInfoView>) -> bool {
        match conn_info {
            Some(c) => self.links_change(from, self.accepted_links(from, c)),
            None => false,
        }
    }

    /// Whether `id` left more than `threshold_ms` ago.
    pub open spec fn is_stale(self, id: u32, now_ms: u64, threshold_ms: u64) -> bool {
        self.peer_removed_at.contains_key(id) && now_ms - self.peer_removed_at[id] > threshold_ms
    }

    /// The group after the connections of and to stale peers were dropped.
    pub open spec fn cleaned(self, now_ms: u64, threshold_ms: u64) -> GroupView {
        GroupView {
            peer_connections: Map::new(
                |id: u32|
                    self.peer_connections.contains_key(id) && !self.is_stale(
                        id,
                        now_ms,
                        threshold_ms,
                    ),
                |id: u32|
                    Set::new(
                        |p: u32|
                            self.peer_connections[id].contains(p) && !self.is_stale(
                                p,
                                now_ms,
                                threshold_ms,
                            ),
                    ),
            ),
            peer_removed_at: Map::new(
                |id: u32|
                    self.peer_removed_at.contains_key(id) && !self.is_stale(
                        id,
                        now_ms,
                        threshold_ms,
                    ),
                |id: u32| self.peer_removed_at[id],
            ),
            ..self
        }
    }

    // ---- An incoming SyncRouteInfo request ----

    /// Whether infos about `id` are taken from a request of `from`: `id` is connected, or `from`
    /// itself.
    pub open spec fn accepts_info(self, from: u32, id: u32) -> bool {
        self.peers.contains(id) || id == from
    }

    /// The peer infos after those in `infos` that are accepted were taken over in turn.
    pub open spec fn infos_after(
        self,
        from: u32,
        infos: Seq<RoutePeerInfoView>,
        now_ms: u64,
    ) -> Map<u32, RoutePeerInfoView>
        decreases infos.len(),
    {
        if infos.len() == 0 {
            self.peer_infos
        } else {
            let before = self.infos_after(from, infos.drop_last(), now_ms);
            let info = infos.last();
            if self.accepts_info(from, info.peer_id) {
                before.insert(
                    info.peer_id,
                    RoutePeerInfoView { last_update: Some(Timestamp::at(now_ms)), ..info },
                )
            } else {
                before
            }
        }
    }

    /// Whether `infos` holds an accepted info about a peer of which nothing was known.
    pub open spec fn brings_new_info(self, from: u32, infos: Seq<RoutePeerInfoView>) -> bool {
        exists|i: int|
            0 <= i < infos.len() && self.accepts_info(from, (#[trigger] infos[i]).peer_id)
                && !self.peer_infos.contains_key(infos[i].peer_id)
    }

    /// The group after a SyncRouteInfo request of `from`.
    pub open spec fn with_request(self, from: u32, req: SyncRequestView, now_ms: u64) -> GroupView {
        let g = self.with_session(
            from,
            self.session(from).requested(req.my_session_id, req.is_initiator, now_ms),
        );
        match req.peer_infos {
            Some(infos) => GroupView {
                peer_infos: g.infos_after(from, infos, now_ms),
                ..g
            }.bumped_if(g.brings_new_info(from, infos)),
            None => g,
        }
    }

    /// The answer to a SyncRouteInfo request of `from`: the other role, and the relay's session
    /// with `from`, or 1 where the relay has not opened one.
    pub open spec fn response(self, from: u32, req: SyncRequestView) -> SyncRouteInfoResponse {
        SyncRouteInfoResponse {
            is_initiator: !req.is_initiator,
            session_id: match self.session(from).my_session_id {
                Some(sid) => sid,
                None => 1,
            },
            error: None,
        }
    }

    /// The peer infos that a request brings.
    pub open spec fn infos_in(req: SyncRequestView) -> Seq<RoutePeerInfoView> {
        match req.peer_infos {
            Some(infos) => infos,
            None => Seq::empty(),
        }
    }

    /// The group after a SyncRouteInfo request of `from` was acknowledged and its infos and its
    /// connections were taken over.
    pub open spec fn before_answer(self, from: u32, req: SyncRequestView, now_ms: u64) -> GroupView {
        self.with_ack(from, req.my_session_id, !req.is_initiator, now_ms).with_infos(
            GroupView::infos_in(req),
        ).with_report(from, req.conn_info)
    }

    /// The group after a SyncRouteInfo call of `from` was dealt with.
    pub open spec fn synced(self, from: u32, req: SyncRequestView, now_ms: u64) -> GroupView {
        self.before_answer(from, req, now_ms).with_request(from, req, now_ms)
    }

    /// Whether a SyncRouteInfo call of `from` brings anything that the other peers have to learn:
    /// peers that are not connected, later versions of known infos, or other connections than are
    /// on record.
    pub open spec fn sync_brings_news(self, from: u32, req: SyncRequestView, now_ms: u64) -> bool {
        let g = self.with_ack(from, req.my_session_id, !req.is_initiator, now_ms);
        ||| g.brings_strangers(GroupView::infos_in(req))
        ||| g.brings_newer(GroupView::infos_in(req))
        ||| g.with_infos(GroupView::infos_in(req)).report_changes(from, req.conn_info)
    }

    // ---- An outgoing SyncRouteInfo request ----

    /// The peers that a request to `target` speaks of, in increasing order: all connected peers,
    /// the relay and `target`.
    pub open spec fn relevant(self, target: u32) -> Seq<u32> {
        sorted(self.peers.insert(MY_PEER_ID).insert(target))
    }

    /// Whether `relevant` lists just those peers, each once and in increasing order.
    pub open spec fn lists_relevant(self, target: u32) -> bool {
        lists(self.relevant(target), self.peers.insert(MY_PEER_ID).insert(target))
    }

    /// Whether the bits of a map of all relevant peers can be counted.
    pub open spec fn update_fits(self, target: u32) -> bool {
        let n = self.relevant(target).len();
        n * n + 7 <= usize::MAX
    }

    /// The group with a stub for each peer among `ids` of which nothing is known.
    pub open spec fn with_stubs(self, ids: Seq<u32>, now_ms: u64) -> GroupView {
        GroupView {
            peer_infos: Map::new(
                |id: u32|
                    self.peer_infos.contains_key(id) || (ids.contains(id) && id != MY_PEER_ID),
                |id: u32|
                    get_or(
                        self.peer_infos,
                        id,
                        stub_info(id, larger(self.my_info.network_length, 1), now_ms),
                    ),
            ),
            ..self
        }
    }

    /// The info that is sent for `id`.
    pub open spec fn info_of(self, id: u32) -> RoutePeerInfoView {
        if id == MY_PEER_ID {
            self.my_info
        } else {
            self.peer_infos[id]
        }
    }

    /// The version under which the info of `id` is sent.
    pub open spec fn sent_version(self, id: u32) -> u32 {
        larger(self.info_of(id).version, 1)
    }

    /// Whether the info of `id` goes to a peer that was sent the versions in `known`: always in a
    /// full update, else only a later version.
    pub open spec fn is_due(self, known: Map<u32, u32>, full: bool, id: u32) -> bool {
        full || self.sent_version(id) > get_or(known, id, 0u32)
    }

    /// The infos among those of `ids` that are due, in order.
    pub open spec fn due_infos(
        self,
        ids: Seq<u32>,
        known: Map<u32, u32>,
        full: bool,
    ) -> Seq<RoutePeerInfoView> {
        ids.filter(|id: u32| self.is_due(known, full, id)).map_values(|id: u32| self.info_of(id))
    }

    /// The versions that the peer was sent, once the infos of `ids` that are due have been sent.
    pub open spec fn known_after(
        self,
        ids: Seq<u32>,
        known: Map<u32, u32>,
        full: bool,
    ) -> Map<u32, u32> {
        Map::new(
            |id: u32| known.contains_key(id) || (ids.contains(id) && self.is_due(known, full, id)),
            |id: u32|
                if ids.contains(id) && self.is_due(known, full, id) {
                    self.sent_version(id)
                } else {
                    known[id]
                },
        )
    }

    /// The peers of a bit map with their connection versions.
    pub open spec fn versions(self, ids: Seq<u32>) -> Seq<PeerIdVersion> {
        ids.map_values(
            |id: u32|
                PeerIdVersion {
                    peer_id: id,
                    version: get_or(self.peer_conn_versions, id, 1u32),
                },
        )
    }

    /// The bit map of the connections among `ids`.
    pub open spec fn bitmap(self, ids: Seq<u32>) -> RouteConnBitmapView {
        RouteConnBitmapView {
            peer_ids: self.versions(ids),
            bitmap: crate::conn_bitmap::connection_map(ids, self.peer_connections),
        }
    }

    /// The signature of the bit map of the connections among `ids`.
    pub open spec fn bitmap_signature(self, ids: Seq<u32>) -> Seq<char> {
        crate::conn_bitmap::signature(
            self.versions(ids),
            crate::conn_bitmap::connection_map(ids, self.peer_connections),
        )
    }

    /// Whether `target` has yet to be sent the bit map of `ids`. There is no bit map of no peers.
    pub open spec fn bitmap_is_due(self, ids: Seq<u32>, target: u32) -> bool {
        ids.len() > 0 && self.session(target).last_conn_bitmap_sig != Some(
            self.bitmap_signature(ids),
        )
    }

    /// The session with `target` after the bit map of `ids`, if it was due, has been sent.
    pub open spec fn session_after_bitmap(self, ids: Seq<u32>, target: u32) -> SessionView {
        let s = self.session(target);
        let version = get_or(s.conn_bitmap_ver_map, target, 0u32);
        if self.bitmap_is_due(ids, target) {
            SessionView {
                conn_bitmap_ver_map: s.conn_bitmap_ver_map.insert(
                    target,
                    if version == 0 {
                        largest_version(self.versions(ids))
                    } else {
                        version
                    },
                ),
                last_conn_bitmap_sig: Some(self.bitmap_signature(ids)),
                ..s
            }
        } else {
            s
        }
    }

    /// The group once the relay has opened its session `sid` with `target`.
    pub open spec fn with_open_session(self, target: u32, sid: u64, now_ms: u64) -> GroupView {
        self.with_session(target, self.session(target).opened(sid, now_ms))
    }

    /// Whether the update for `target` is a full one: when that is asked for, or when `target` has
    /// not named its session yet.
    pub open spec fn sends_all(self, target: u32, force_full: bool) -> bool {
        force_full || self.session(target).dst_session_id is None
    }

    /// The group after the peer infos of an update for `target` were drawn up.
    pub open spec fn after_infos(
        self,
        target: u32,
        sid: u64,
        force_full: bool,
        now_ms: u64,
    ) -> GroupView {
        let ids = self.relevant(target);
        let g = self.with_open_session(target, sid, now_ms).with_stubs(ids, now_ms);
        let s = g.session(target);
        g.with_session(
            target,
            SessionView {
                peer_info_ver_map: g.known_after(
                    ids,
                    s.peer_info_ver_map,
                    self.sends_all(target, force_full),
                ),
                ..s
            },
        )
    }

    /// The peer infos of an update for `target`.
    pub open spec fn update_infos(
        self,
        target: u32,
        sid: u64,
        force_full: bool,
        now_ms: u64,
    ) -> Seq<RoutePeerInfoView> {
        let ids = self.relevant(target);
        let g = self.with_open_session(target, sid, now_ms).with_stubs(ids, now_ms);
        g.due_infos(
            ids,
            g.session(target).peer_info_ver_map,
            self.sends_all(target, force_full),
        )
    }

    /// The group after an update for `target` was drawn up.
    pub open spec fn after_update(
        self,
        target: u32,
        sid: u64,
        force_full: bool,
        now_ms: u64,
    ) -> GroupView {
        let ids = self.relevant(target);
        let g = self.after_infos(target, sid, force_full, now_ms);
        let s = g.session_after_bitmap(ids, target);
        g.with_session(
            target,
            SessionView { foreign_net_ver: s.foreign_net_ver.wrapping_add(1), ..s },
        )
    }

    /// The one foreign network that an update speaks of: the relayed network itself.
    pub open spec fn foreign_info(ids: Seq<u32>, version: u32, now_ms: u64) -> ForeignInfoView {
        ForeignInfoView {
            key: Some(
                ForeignKeyView { peer_id: MY_PEER_ID, network_name: "dev-websocket-relay"@ },
            ),
            value: Some(
                ForeignEntryView {
                    foreign_peer_ids: ids,
                    last_update: Some(Timestamp::at(now_ms)),
                    version,
                    network_secret_digest: Seq::new(32, |i: int| 0u8),
                    my_peer_id_for_this_network: MY_PEER_ID,
                },
            ),
        }
    }

    /// The update for `target`: the infos that are due, the bit map if it is due, and the peers
    /// of the relayed network.
    pub open spec fn update(
        self,
        target: u32,
        sid: u64,
        we_are_initiator: bool,
        force_full: bool,
        now_ms: u64,
    ) -> SyncRequestView {
        let ids = self.relevant(target);
        let g = self.after_infos(target, sid, force_full, now_ms);
        let infos = self.update_infos(target, sid, force_full, now_ms);
        SyncRequestView {
            my_peer_id: MY_PEER_ID,
            my_session_id: sid,
            is_initiator: we_are_initiator,
            peer_infos: if infos.len() == 0 {
                None
            } else {
                Some(infos)
            },
            conn_info: if g.bitmap_is_due(ids, target) {
                Some(ConnInfoView::ConnBitmap(g.bitmap(ids)))
            } else {
                None
            },
            foreign_network_infos: Some(
                seq![
                    GroupView::foreign_info(
                        ids,
                        g.session(target).foreign_net_ver.wrapping_add(1),
                        now_ms,
                    ),
                ],
            ),
        }
    }
}

/// The group of the name `key`, set up with `seed` if there is none yet.
pub open spec fn group_at(
    groups: Map<Seq<char>, GroupView>,
    key: Seq<char>,
    seed: GroupSeed,
) -> GroupView {
    if groups.contains_key(key) {
        groups[key]
    } else {
        GroupView::fresh(seed)
    }
}

/// The connected peers of a group in increasing order; none where there is no such group.
pub open spec fn members(groups: Map<Seq<char>, GroupView>, key: Seq<char>) -> Seq<u32> {
    if groups.contains_key(key) {
        sorted(groups[key].peers)
    } else {
        Seq::empty()
    }
}

/// Whether the groups `after` are those `before` but for the group `key`, which `change` was
/// applied to. A group that did not exist is set up first, with some seed.
pub open spec fn changes_group(
    before: Map<Seq<char>, GroupView>,
    after: Map<Seq<char>, GroupView>,
    key: Seq<char>,
    change: spec_fn(GroupView) -> GroupView,
) -> bool {
    exists|seed: GroupSeed|
        after == before.insert(key, change(#[trigger] group_at(before, key, seed)))
}

pub(crate) proof fn due_infos_step(
    g: GroupView,
    ids: Seq<u32>,
    known: Map<u32, u32>,
    full: bool,
    i: int,
)
    requires
        0 <= i < ids.len(),
    ensures
        g.due_infos(ids.take(i + 1), known, full) == (if g.is_due(known, full, ids[i]) {
            g.due_infos(ids.take(i), known, full).push(g.info_of(ids[i]))
        } else {
            g.due_infos(ids.take(i), known, full)
        }),
{
    reveal(Seq::filter);
    let after = ids.take(i + 1);
    assert(after.drop_last() =~= ids.take(i));
    assert(after.last() == ids[i]);
    assert(g.due_infos(after, known, full) =~= if g.is_due(known, full, ids[i]) {
        g.due_infos(ids.take(i), known, full).push(g.info_of(ids[i]))
    } else {
        g.due_infos(ids.take(i), known, full)
    });
}

pub(crate) proof fn due_infos_of_none(g: GroupView, known: Map<u32, u32>, full: bool)
    ensures
        g.due_infos(Seq::empty(), known, full) == Seq::<RoutePeerInfoView>::empty(),
{
    reveal(Seq::filter);
    assert(g.due_infos(Seq::empty(), known, full) =~= Seq::empty());
}

/// Two increasing lists of the same members are the same list.
pub proof fn listing_is_unique(a: Seq<u32>, b: Seq<u32>, s: Set<u32>)
    requires
        lists(a, s),
        lists(b, s),
    ensures
        a == b,
    decreases a.len(),
{
    if a.len() == 0 {
        if b.len() > 0 {
            assert(b.to_set().contains(b[0]));
            assert(a.to_set().contains(b[0]));
        }
        assert(a =~= b);
    } else {
        assert(a.to_set().contains(a.last()));
        assert(b.to_set().contains(a.last()));
        assert(b.len() > 0);
        assert(b.to_set().contains(b.last()));
        assert(a.to_set().contains(b.last()));
        let i = choose|i: int| 0 <= i < a.len() && a[i] == b.last();
        let j = choose|j: int| 0 <= j < b.len() && b[j] == a.last();
        assert(a[i] == b.last() && b[j] == a.last());
        assert(a.last() == b.last()) by {
            if i < a.len() - 1 {
                assert(a[i] < a[a.len() - 1]);
            }
            if j < b.len() - 1 {
                assert(b[j] < b[b.len() - 1]);
            }
        }
        let last = a.last();
        assert forall|x: u32| a.drop_last().to_set().contains(x) == b.drop_last().to_set().contains(
            x,
        ) by {
            if a.drop_last().to_set().contains(x) {
                let k = choose|k: int| 0 <= k < a.drop_last().len() && a.drop_last()[k] == x;
                assert(a[k] == x && a[k] < last);
                assert(a.to_set().contains(x));
                assert(b.to_set().contains(x));
                let m = choose|m: int| 0 <= m < b.len() && b[m] == x;
                assert(b[m] == x && m < b.len() - 1);
                assert(b.drop_last()[m] == x);
            }
            if b.drop_last().to_set().contains(x) {
                let k = choose|k: int| 0 <= k < b.drop_last().len() && b.drop_last()[k] == x;
                assert(b[k] == x && b[k] < last);
                assert(b.to_set().contains(x));
                assert(a.to_set().contains(x));
                let m = choose|m: int| 0 <= m < a.len() && a[m] == x;
                assert(a[m] == x && m < a.len() - 1);
                assert(a.drop_last()[m] == x);
            }
        }
        assert(a.drop_last().to_set() =~= b.drop_last().to_set());
        listing_is_unique(a.drop_last(), b.drop_last(), a.drop_last().to_set());
        assert(a =~= a.drop_last().push(last));
        assert(b =~= b.drop_last().push(last));
    }
}

} // verus!
