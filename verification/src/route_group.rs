//! The state that the relay keeps for one network group.

use std::collections::BTreeSet;
use std::collections::HashMap;

use vstd::prelude::*;
use vstd::std_specs::btree::*;
use vstd::std_specs::hash::*;
use vstd::std_specs::iter::*;

use crate::conn_bitmap::{build_connection_map, get_connected_peers_from_bitmap, signature_text};
use crate::constants::MY_PEER_ID;
use crate::proto::{
    ConnInfo, ConnInfoView, ForeignNetworkInfo, ForeignNetworkRouteInfoEntry,
    ForeignNetworkRouteInfoKey, Ipv4Addr, PeerConnInfo, PeerConnInfoView, PeerFeatureFlag,
    PeerIdVersion, RouteConnBitmap, RouteConnBitmapView, RouteForeignNetworkInfos, RoutePeerInfo,
    RoutePeerInfoView, RoutePeerInfos, SyncRouteInfoRequest, SyncRouteInfoResponse, Timestamp, Uuid,
};
use crate::route_model::{GroupSeed, GroupView, SessionView};
use crate::route_state::RouteState;
use crate::text::{parse_u32, same_text};

verus! {

broadcast use {group_hash_axioms, group_btree_axioms, vstd::laws_cmp::group_laws_cmp};

/// What the order of a set's iterator means for ids.
proof fn increasing_ids(refs: Seq<&u32>)
    requires
        increasing_seq(refs),
    ensures
        forall|i: int, j: int| 0 <= i < j < refs.len() ==> *refs[i] < *refs[j],
{
    assert(vstd::laws_cmp::obeys_cmp::<&u32>());
    assert forall|i: int, j: int| 0 <= i < j < refs.len() implies *refs[i] < *refs[j] by {
        assert(vstd::std_specs::cmp::OrdSpec::cmp_spec(&refs[i], &refs[j]) is Less);
    }
}

/// There are so many peers that a bit map of their connections cannot be addressed.
#[derive(Debug, Clone, Copy, PartialEq, Eq, Structural)]
pub struct TooManyPeers;

/// The members of a set in increasing order.
pub(crate) fn ids_of(s: &BTreeSet<u32>) -> (r: Vec<u32>)
    ensures
        crate::route_model::lists(r@, s@),
        r@ == crate::route_model::sorted(s@),
{
    let mut r: Vec<u32> = Vec::new();
    let iter = s.iter();
    let ghost refs = IteratorSpec::remaining(&iter);
    let ghost all = refs.unref();
    for x in it: iter
        invariant
            all == it.seq().unref(),
            r@ =~= all.take(it.index() as int),
    {
        r.push(*x);
    }
    proof {
        assert(all.take(all.len() as int) =~= all);
        assert(r@.to_set() == s@);
        increasing_ids(refs);
        assert(crate::route_model::lists(r@, s@));
        crate::route_model::listing_is_unique(r@, crate::route_model::sorted(s@), s@);
    }
    r
}

/// The keys of a map, each once.
pub(crate) fn keys_of<V>(m: &HashMap<u32, V>) -> (r: Vec<u32>)
    ensures
        r@.no_duplicates(),
        r@.to_set() == m@.dom(),
{
    let mut r: Vec<u32> = Vec::new();
    let iter = m.keys();
    let ghost all = IteratorSpec::remaining(&iter).unref();
    for x in it: iter
        invariant
            all == it.seq().unref(),
            r@ =~= all.take(it.index() as int),
    {
        r.push(*x);
    }
    assert(all.take(all.len() as int) =~= all);
    r
}

fn same_list(a: &Vec<u32>, b: &Vec<u32>) -> (r: bool)
    ensures
        r == (a@ == b@),
{
    if a.len() != b.len() {
        return false;
    }
    let mut i: usize = 0;
    while i < a.len()
        invariant
            i <= a@.len(),
            a@.len() == b@.len(),
            forall|j: int| 0 <= j < i ==> a@[j] == b@[j],
        decreases a@.len() - i,
    {
        if a[i] != b[i] {
            return false;
        }
        i = i + 1;
    }
    assert(a@ =~= b@);
    true
}

/// Whether two sets have the same members.
fn same_set(a: &BTreeSet<u32>, b: &BTreeSet<u32>) -> (r: bool)
    ensures
        r == (a@ == b@),
{
    same_list(&ids_of(a), &ids_of(b))
}

/// What is known of the exchange of route information with one peer.
#[derive(Debug)]
pub struct SessionState {
    pub my_session_id: Option<u64>,
    pub dst_session_id: Option<u64>,
    pub we_are_initiator: bool,
    pub peer_info_ver_map: HashMap<u32, u32>,
    pub conn_bitmap_ver_map: HashMap<u32, u32>,
    pub foreign_net_ver: u32,
    pub last_touch_ms: u64,
    pub last_conn_bitmap_sig: Option<String>,
}

impl View for SessionState {
    type V = SessionView;

    open spec fn view(&self) -> SessionView {
        SessionView {
            my_session_id: self.my_session_id,
            dst_session_id: self.dst_session_id,
            we_are_initiator: self.we_are_initiator,
            peer_info_ver_map: self.peer_info_ver_map@,
            conn_bitmap_ver_map: self.conn_bitmap_ver_map@,
            foreign_net_ver: self.foreign_net_ver,
            last_touch_ms: self.last_touch_ms,
            last_conn_bitmap_sig: crate::proto::text_of(self.last_conn_bitmap_sig),
        }
    }
}

impl Default for SessionState {
    fn default() -> (r: Self)
        ensures
            r@ == SessionView::blank(),
    {
        SessionState {
            my_session_id: None,
            dst_session_id: None,
            we_are_initiator: false,
            peer_info_ver_map: HashMap::new(),
            conn_bitmap_ver_map: HashMap::new(),
            foreign_net_ver: 0,
            last_touch_ms: 0,
            last_conn_bitmap_sig: None,
        }
    }
}

impl SessionState {
    fn name_peer_session(&mut self, sid: u64)
        ensures
            final(self)@ == old(self)@.with_peer_session(sid),
    {
        let known = match self.dst_session_id {
            Some(d) => d == sid,
            None => false,
        };
        if !known {
            self.peer_info_ver_map.clear();
            self.conn_bitmap_ver_map.clear();
            self.foreign_net_ver = 0;
            self.last_conn_bitmap_sig = None;
        }
        self.dst_session_id = Some(sid);
    }
}

/// Everything that is known of a network group.
#[derive(Debug)]
pub struct RouteGroupData {
    pub peers: BTreeSet<u32>,
    pub peer_infos: HashMap<u32, RoutePeerInfo>,
    pub sessions: HashMap<u32, SessionState>,
    pub peer_conn_versions: HashMap<u32, u32>,
    pub my_info: RoutePeerInfo,
    pub my_info_version: u32,
    /// Per-peer P2P connections reported via SyncRouteInfo conn_info.
    /// Maps a peer to the peers it is directly connected to (excluding the relay).
    pub peer_connections: HashMap<u32, BTreeSet<u32>>,
    /// When each peer was last removed, in milliseconds.
    /// Used to clean up stale connections.
    pub peer_removed_at: HashMap<u32, u64>,
}

/// The views of the infos in a map.
pub open spec fn infos_of(m: Map<u32, RoutePeerInfo>) -> Map<u32, RoutePeerInfoView> {
    m.map_values(|i: RoutePeerInfo| i@)
}

/// The views of the sessions in a map.
pub open spec fn sessions_of(m: Map<u32, SessionState>) -> Map<u32, SessionView> {
    m.map_values(|s: SessionState| s@)
}

impl View for RouteGroupData {
    type V = GroupView;

    open spec fn view(&self) -> GroupView {
        GroupView {
            peers: self.peers@,
            peer_infos: infos_of(self.peer_infos@),
            sessions: sessions_of(self.sessions@),
            peer_conn_versions: self.peer_conn_versions@,
            my_info: self.my_info@,
            my_info_version: self.my_info_version,
            peer_connections: crate::conn_bitmap::links_of(self.peer_connections@),
            peer_removed_at: self.peer_removed_at@,
        }
    }
}

impl RouteGroupData {
    /// A group as it is set up.
    pub fn fresh(seed: GroupSeed) -> (r: Self)
        ensures
            r@ == GroupView::fresh(seed),
    {
        let my_info = RoutePeerInfo {
            peer_id: MY_PEER_ID,
            inst_id: Some(seed.inst_id),
            cost: 1,
            version: 1,
            network_length: 24,
            easytier_version: "cf-easytier-wsrelay".to_string(),
            hostname: Some("cf-easytier-wsrelay".to_string()),
            peer_route_id: seed.peer_route_id,
            feature_flag: Some(
                PeerFeatureFlag {
                    is_public_server: true,
                    avoid_relay_data: true,
                    kcp_input: false,
                    no_relay_kcp: false,
                    support_conn_list_sync: false,
                    quic_input: false,
                    no_relay_quic: false,
                    is_credential_peer: false,
                    need_p2p: true,
                    disable_p2p: false,
                    ipv6_public_addr_provider: false,
                },
            ),
            ..RoutePeerInfo::default()
        };
        let r = RouteGroupData {
            peers: BTreeSet::new(),
            peer_infos: HashMap::new(),
            sessions: HashMap::new(),
            peer_conn_versions: HashMap::new(),
            my_info,
            my_info_version: 1,
            peer_connections: HashMap::new(),
            peer_removed_at: HashMap::new(),
        };
        assert(r@ =~= GroupView::fresh(seed));
        r
    }

    /// The peer has connected.
    pub fn add_peer(&mut self, peer_id: u32)
        ensures
            final(self)@ == old(self)@.with_peer(peer_id),
    {
        let is_new = self.peers.insert(peer_id);
        // The peer is back online: clear its removal time.
        let _ = self.peer_removed_at.remove(&peer_id);
        if is_new {
            RouteState::bump_all_conn_versions(self);
        }
    }

    /// The peer has left, at `now_ms`.
    ///
    /// Its reported connections are kept, so that the topology survives a short interruption;
    /// `cleanup_stale_peer_connections` drops them later. Its connection version is kept too, so
    /// that it never falls.
    pub fn remove_peer(&mut self, peer_id: u32, now_ms: u64)
        ensures
            final(self)@ == old(self)@.without_peer(peer_id, now_ms),
    {
        let was_present = self.peers.remove(&peer_id);
        let _ = self.peer_infos.remove(&peer_id);
        let _ = self.sessions.remove(&peer_id);
        let _ = self.peer_removed_at.insert(peer_id, now_ms);
        assert(infos_of(self.peer_infos@) =~= infos_of(old(self).peer_infos@).remove(peer_id));
        assert(sessions_of(self.sessions@) =~= sessions_of(old(self).sessions@).remove(peer_id));
        if was_present {
            RouteState::bump_all_conn_versions(self);
        }
    }

    /// An info about the peer came in. Returns whether it said anything new.
    pub fn update_peer_info(&mut self, peer_id: u32, info: RoutePeerInfo) -> (r: bool)
        ensures
            r == old(self)@.is_news(peer_id, info@),
            final(self)@ == old(self)@.with_info(peer_id, info@),
    {
        let (is_new, changed) = match self.peer_infos.get(&peer_id) {
            Some(known) => (false, info.version > known.version),
            None => (true, true),
        };
        if changed {
            let ghost view = info@;
            let _ = self.peer_infos.insert(peer_id, info);
            assert(infos_of(self.peer_infos@) =~= infos_of(old(self).peer_infos@).insert(
                peer_id,
                view,
            ));
            if is_new {
                RouteState::bump_all_conn_versions(self);
            }
        }
        changed
    }

    fn take_session(&mut self, peer_id: u32) -> (s: SessionState)
        ensures
            s@ == old(self)@.session(peer_id),
            final(self)@ == (GroupView {
                sessions: old(self)@.sessions.remove(peer_id),
                ..old(self)@
            }),
    {
        let taken = self.sessions.remove(&peer_id);
        assert(sessions_of(self.sessions@) =~= sessions_of(old(self).sessions@).remove(peer_id));
        match taken {
            Some(s) => s,
            None => SessionState::default(),
        }
    }

    fn put_session(&mut self, peer_id: u32, s: SessionState)
        ensures
            final(self)@ == old(self)@.with_session(peer_id, s@),
    {
        let ghost view = s@;
        let _ = self.sessions.insert(peer_id, s);
        assert(sessions_of(self.sessions@) =~= sessions_of(old(self).sessions@).insert(
            peer_id,
            view,
        ));
    }

    /// The peer has acknowledged the session that it calls `their_session_id`.
    pub fn on_route_session_ack(
        &mut self,
        peer_id: u32,
        their_session_id: u64,
        we_are_initiator: bool,
        now_ms: u64,
    )
        ensures
            final(self)@ == old(self)@.with_ack(
                peer_id,
                their_session_id,
                we_are_initiator,
                now_ms,
            ),
    {
        let mut s = self.take_session(peer_id);
        s.name_peer_session(their_session_id);
        s.we_are_initiator = we_are_initiator;
        s.last_touch_ms = now_ms;
        self.put_session(peer_id, s);
        assert(self@.sessions =~= old(self)@.sessions.insert(peer_id, self@.sessions[peer_id]));
    }

    /// Raises the version of the relay's own info by one.
    pub fn bump_my_info_version(&mut self)
        ensures
            final(self)@ == old(self)@.with_my_info(old(self)@.my_info),
    {
        self.my_info_version = self.my_info_version.wrapping_add(1);
        self.my_info.version = self.my_info_version;
    }

    /// Sets a field of the relay's own info, and raises the info's version.
    pub fn set_my_info_field(&mut self, field: &str, value: &str) -> (r: Result<(), String>)
        ensures
            match (r, old(self)@.my_info.with_field(field@, value@)) {
                (Ok(()), Ok(info)) => final(self)@ == old(self)@.with_my_info(info),
                (Err(e), Err(reason)) => e@ == reason && final(self)@ == old(self)@,
                _ => false,
            },
    {
        if same_text(field, "hostname") {
            self.my_info.hostname = Some(value.to_string());
        } else if same_text(field, "network_length") {
            match parse_u32(value) {
                Some(length) => {
                    self.my_info.network_length = length;
                },
                None => {
                    return Err("invalid network_length".to_string());
                },
            }
        } else if same_text(field, "ipv4_addr") {
            match parse_u32(value) {
                Some(addr) => {
                    self.my_info.ipv4_addr = Some(Ipv4Addr { addr });
                },
                None => {
                    return Err("invalid ipv4_addr".to_string());
                },
            }
        } else {
            return Err("unknown field".to_string());
        }
        self.bump_my_info_version();
        Ok(())
    }

    /// The peers in `reported` that are connected, without the relay and `from`.
    fn links_among(&self, from: u32, reported: &Vec<u32>) -> (r: BTreeSet<u32>)
        ensures
            forall|p: u32| #[trigger]
                r@.contains(p) <==> reported@.contains(p) && p != MY_PEER_ID && p != from
                    && self@.peers.contains(p),
    {
        let mut r: BTreeSet<u32> = BTreeSet::new();
        let mut i: usize = 0;
        while i < reported.len()
            invariant
                i <= reported@.len(),
                forall|p: u32| #[trigger]
                    r@.contains(p) <==> p != MY_PEER_ID && p != from && self@.peers.contains(p) && (
                    exists|j: int| 0 <= j < i && reported@[j] == p),
            decreases reported@.len() - i,
        {
            let p = reported[i];
            if p != MY_PEER_ID && p != from && self.peers.contains(&p) {
                r.insert(p);
            }
            i = i + 1;
        }
        r
    }

    /// The connections that count when `from` reports `conn_info`.
    fn accepted_links(&self, from: u32, conn_info: &ConnInfo) -> (r: BTreeSet<u32>)
        ensures
            r@ == self@.accepted_links(from, conn_info@),
    {
        let r = match conn_info {
            ConnInfo::ConnBitmap(bitmap) => {
                let ghost ids = bitmap.peer_ids@;
                let mut i: usize = 0;
                while i < bitmap.peer_ids.len() && bitmap.peer_ids[i].peer_id != from
                    invariant
                        i <= bitmap.peer_ids@.len(),
                        forall|j: int|
                            0 <= j < i ==> (#[trigger] bitmap.peer_ids@[j]).peer_id != from,
                    decreases bitmap.peer_ids@.len() - i,
                {
                    i = i + 1;
                }
                if i < bitmap.peer_ids.len() {
                    proof {
                        row_of_first(bitmap@, from, i as int);
                    }
                    let row = get_connected_peers_from_bitmap(bitmap, i);
                    let reported = ids_of(&row);
                    assert forall|p: u32| #[trigger] reported@.contains(p) == row@.contains(p) by {
                        assert(reported@.to_set().contains(p) == row@.contains(p));
                    }
                    let r = self.links_among(from, &reported);
                    assert(r@ =~= self@.accepted_links(from, conn_info@));
                    r
                } else {
                    assert forall|j: int| !crate::route_model::first_in_bitmap(ids, from, j) by {
                        if 0 <= j < ids.len() {
                            assert(ids[j].peer_id != from);
                        }
                    }
                    let r: BTreeSet<u32> = BTreeSet::new();
                    assert(r@ =~= self@.accepted_links(from, conn_info@));
                    r
                }
            },
            ConnInfo::ConnPeerList(list) => {
                let ghost entries = conn_info@->ConnPeerList_0;
                let mut i: usize = 0;
                while i < list.peer_conn_infos.len() && !list.peer_conn_infos[i].is_about(from)
                    invariant
                        i <= list.peer_conn_infos@.len(),
                        entries == list.peer_conn_infos@.map_values(|e: PeerConnInfo| e@),
                        forall|j: int|
                            0 <= j < i ==> !crate::route_model::entry_is_about(
                                #[trigger] entries[j],
                                from,
                            ),
                    decreases list.peer_conn_infos@.len() - i,
                {
                    i = i + 1;
                }
                if i < list.peer_conn_infos.len() {
                    proof {
                        entry_of_first(entries, from, i as int);
                    }
                    let ghost named = entries[i as int].connected_peer_ids;
                    assert forall|p: u32| #[trigger] named.contains(p) == named.to_set().contains(
                        p,
                    ) by {}
                    let r = self.links_among(from, &list.peer_conn_infos[i].connected_peer_ids);
                    assert(r@ =~= self@.accepted_links(from, conn_info@));
                    r
                } else {
                    let r: BTreeSet<u32> = BTreeSet::new();
                    assert(r@ =~= self@.accepted_links(from, conn_info@));
                    r
                }
            },
        };
        r
    }

    /// Takes over the connections that `from` reports. Returns whether they changed.
    pub fn update_peer_connections(&mut self, from: u32, conn_info: &Option<ConnInfo>) -> (r: bool)
        ensures
            r == old(self)@.report_changes(from, conn_info_of(*conn_info)),
            final(self)@ == old(self)@.with_report(from, conn_info_of(*conn_info)),
    {
        let links = match conn_info {
            Some(c) => self.accepted_links(from, c),
            // A heartbeat without connections keeps the known ones.
            None => {
                return false;
            },
        };
        let ghost view = links@;
        let changed;
        if links.is_empty() {
            assert(view =~= Set::<u32>::empty());
            changed = match self.peer_connections.remove(&from) {
                Some(known) => !known.is_empty(),
                None => false,
            };
            assert(crate::conn_bitmap::links_of(self.peer_connections@) =~= crate::conn_bitmap::links_of(
                old(self).peer_connections@,
            ).remove(from));
        } else {
            changed = match self.peer_connections.get(&from) {
                Some(known) => !same_set(known, &links),
                None => true,
            };
            let _ = self.peer_connections.insert(from, links);
            assert(crate::conn_bitmap::links_of(self.peer_connections@) =~= crate::conn_bitmap::links_of(
                old(self).peer_connections@,
            ).insert(from, view));
        }
        if changed {
            RouteState::bump_all_conn_versions(self);
        }
        changed
    }

    /// Takes over the infos of a request of `from`; `accepts_info` says which.
    fn take_infos(&mut self, from: u32, items: &Vec<RoutePeerInfo>, now_ms: u64)
        ensures
            final(self)@ == ({
                let infos = items@.map_values(|i: RoutePeerInfo| i@);
                (GroupView {
                    peer_infos: old(self)@.infos_after(from, infos, now_ms),
                    ..old(self)@
                }).bumped_if(old(self)@.brings_new_info(from, infos))
            }),
    {
        let ghost g = self@;
        let ghost infos = items@.map_values(|i: RoutePeerInfo| i@);
        let mut need_bump = false;
        let mut i: usize = 0;
        assert(infos.take(0) =~= Seq::empty());
        while i < items.len()
            invariant
                i <= items@.len(),
                infos == items@.map_values(|i: RoutePeerInfo| i@),
                self@ == (GroupView {
                    peer_infos: g.infos_after(from, infos.take(i as int), now_ms),
                    ..g
                }),
                need_bump == g.brings_new_info(from, infos.take(i as int)),
            decreases items@.len() - i,
        {
            let ghost before = infos.take(i as int);
            let ghost after = infos.take(i + 1);
            assert(after.drop_last() =~= before);
            assert(after.last() == infos[i as int]);
            assert(infos[i as int] == items@[i as int]@);
            let ghost stored = self.peer_infos@;
            let id = items[i].peer_id;
            proof {
                known_after_infos(g, from, before, now_ms, id);
                brings_new_info_step(g, from, after);
            }
            if self.peers.contains(&id) || id == from {
                let is_new = !self.peer_infos.contains_key(&id);
                let mut info = items[i].clone();
                info.last_update = Some(Timestamp::at_ms(now_ms));
                let ghost view = info@;
                let _ = self.peer_infos.insert(id, info);
                assert(infos_of(self.peer_infos@) =~= infos_of(stored).insert(id, view));
                if is_new {
                    need_bump = true;
                }
            }
            i = i + 1;
        }
        assert(infos.take(infos.len() as int) =~= infos);
        if need_bump {
            RouteState::bump_all_conn_versions(self);
        }
    }

    /// Takes over what a SyncRouteInfo request of `from` says, and answers it.
    pub fn handle_sync_route_info_request(
        &mut self,
        from: u32,
        req: &SyncRouteInfoRequest,
        now_ms: u64,
    ) -> (r: SyncRouteInfoResponse)
        ensures
            r == old(self)@.response(from, req@),
            final(self)@ == old(self)@.with_request(from, req@, now_ms),
    {
        let mut s = self.take_session(from);
        s.name_peer_session(req.my_session_id);
        s.last_touch_ms = now_ms;
        if req.is_initiator {
            s.we_are_initiator = false;
        }
        let session_id: u64 = match s.my_session_id {
            Some(sid) => sid,
            None => 1,
        };
        let ghost requested = s@;
        self.put_session(from, s);
        assert(self@.sessions =~= old(self)@.sessions.insert(from, requested));
        if let Some(infos) = &req.peer_infos {
            self.take_infos(from, &infos.items, now_ms);
        }
        SyncRouteInfoResponse { is_initiator: !req.is_initiator, session_id, error: None }
    }

    /// The peers that a request to `target` speaks of, in increasing order.
    fn relevant(&self, target: u32) -> (r: Vec<u32>)
        ensures
            r@ == self@.relevant(target),
            crate::route_model::lists(r@, self@.peers.insert(MY_PEER_ID).insert(target)),
    {
        let mut all: BTreeSet<u32> = self.peers.clone();
        all.insert(MY_PEER_ID);
        all.insert(target);
        ids_of(&all)
    }

    /// Puts a stub for each peer among `ids` of which nothing is known.
    fn fill_stubs(&mut self, ids: &Vec<u32>, now_ms: u64)
        ensures
            final(self)@ == old(self)@.with_stubs(ids@, now_ms),
    {
        let ghost g = self@;
        let network_length: u32 = if self.my_info.network_length >= 1 {
            self.my_info.network_length
        } else {
            1
        };
        let mut i: usize = 0;
        assert(g.with_stubs(ids@.take(0), now_ms).peer_infos =~= g.peer_infos);
        while i < ids.len()
            invariant
                i <= ids@.len(),
                network_length == crate::route_model::larger(g.my_info.network_length, 1),
                self@ == g.with_stubs(ids@.take(i as int), now_ms),
            decreases ids@.len() - i,
        {
            let id = ids[i];
            let ghost stored = self.peer_infos@;
            let ghost before = ids@.take(i as int);
            let ghost after = ids@.take(i + 1);
            assert forall|x: u32| #[trigger] after.contains(x) == (before.contains(x) || x
                == id) by {
                assert(after =~= before.push(id));
                if before.contains(x) {
                    let k = choose|k: int| 0 <= k < before.len() && before[k] == x;
                    assert(after[k] == x);
                }
                assert(after[i as int] == id);
            }
            if id != MY_PEER_ID && !self.peer_infos.contains_key(&id) {
                let stub = make_stub_peer_info(id, network_length, now_ms);
                let ghost view = stub@;
                let _ = self.peer_infos.insert(id, stub);
                assert(infos_of(self.peer_infos@) =~= infos_of(stored).insert(id, view));
            }
            proof {
                let was = g.with_stubs(before, now_ms).peer_infos;
                let now = infos_of(self.peer_infos@);
                let goal = g.with_stubs(after, now_ms).peer_infos;
                assert(infos_of(stored) == was);
                assert forall|x: u32| #[trigger] now.dom().contains(x) == goal.dom().contains(x) by {
                    assert(after.contains(x) == (before.contains(x) || x == id));
                    assert(was.dom().contains(x) == stored.dom().contains(x));
                }
                assert forall|x: u32| #[trigger] now.dom().contains(x) implies now[x] == goal[x] by {
                    assert(was.dom().contains(x) ==> infos_of(stored)[x] == was[x]);
                }
                assert(now =~= goal);
            }
            i = i + 1;
        }
        assert(ids@.take(ids@.len() as int) =~= ids@);
    }

    fn info_of(&self, id: u32) -> (r: &RoutePeerInfo)
        requires
            id == MY_PEER_ID || self@.peer_infos.contains_key(id),
        ensures
            r@ == self@.info_of(id),
    {
        if id == MY_PEER_ID {
            &self.my_info
        } else {
            match self.peer_infos.get(&id) {
                Some(info) => info,
                None => &self.my_info,
            }
        }
    }

    fn sent_version(&self, id: u32) -> (r: u32)
        requires
            id == MY_PEER_ID || self@.peer_infos.contains_key(id),
        ensures
            r == self@.sent_version(id),
    {
        let version = self.info_of(id).version;
        if version >= 1 {
            version
        } else {
            1
        }
    }

    fn is_due(&self, known: &HashMap<u32, u32>, full: bool, id: u32) -> (r: bool)
        requires
            id == MY_PEER_ID || self@.peer_infos.contains_key(id),
        ensures
            r == self@.is_due(known@, full, id),
    {
        let sent: u32 = match known.get(&id) {
            Some(v) => *v,
            None => 0,
        };
        full || self.sent_version(id) > sent
    }

    /// The infos among those of `ids` that are due, and the versions that the peer was sent once
    /// they have been sent.
    fn take_due(&self, ids: &Vec<u32>, known: &HashMap<u32, u32>, full: bool) -> (r: (
        Vec<RoutePeerInfo>,
        HashMap<u32, u32>,
    ))
        requires
            forall|i: int|
                0 <= i < ids@.len() ==> #[trigger] ids@[i] == MY_PEER_ID
                    || self@.peer_infos.contains_key(ids@[i]),
        ensures
            r.0@.map_values(|i: RoutePeerInfo| i@) == self@.due_infos(ids@, known@, full),
            r.1@ == self@.known_after(ids@, known@, full),
    {
        let mut items: Vec<RoutePeerInfo> = Vec::new();
        let mut sent: HashMap<u32, u32> = known.clone();
        let mut i: usize = 0;
        proof {
            crate::route_model::due_infos_of_none(self@, known@, full);
            assert(ids@.take(0) =~= Seq::empty());
            assert(items@.map_values(|i: RoutePeerInfo| i@) =~= Seq::empty());
            assert(sent@ =~= self@.known_after(ids@.take(0), known@, full));
        }
        while i < ids.len()
            invariant
                i <= ids@.len(),
                forall|i: int|
                    0 <= i < ids@.len() ==> #[trigger] ids@[i] == MY_PEER_ID
                        || self@.peer_infos.contains_key(ids@[i]),
                items@.map_values(|i: RoutePeerInfo| i@) == self@.due_infos(
                    ids@.take(i as int),
                    known@,
                    full,
                ),
                sent@ == self@.known_after(ids@.take(i as int), known@, full),
            decreases ids@.len() - i,
        {
            let id = ids[i];
            let ghost before = ids@.take(i as int);
            let ghost after = ids@.take(i + 1);
            proof {
                crate::route_model::due_infos_step(self@, ids@, known@, full, i as int);
                assert forall|x: u32| #[trigger] after.contains(x) == (before.contains(x) || x
                    == id) by {
                    assert(after =~= before.push(id));
                    if before.contains(x) {
                        let k = choose|k: int| 0 <= k < before.len() && before[k] == x;
                        assert(after[k] == x);
                    }
                    assert(after[i as int] == id);
                }
            }
            if self.is_due(known, full, id) {
                let info = self.info_of(id).clone();
                let ghost old_items = items@;
                let ghost view = info@;
                items.push(info);
                assert(items@.map_values(|i: RoutePeerInfo| i@) =~= old_items.map_values(
                    |i: RoutePeerInfo| i@,
                ).push(view));
                let _ = sent.insert(id, self.sent_version(id));
            }
            assert(sent@ =~= self@.known_after(after, known@, full));
            i = i + 1;
        }
        assert(ids@.take(ids@.len() as int) =~= ids@);
        (items, sent)
    }

    fn versions(&self, ids: &Vec<u32>) -> (r: Vec<PeerIdVersion>)
        ensures
            r@ == self@.versions(ids@),
    {
        let mut r: Vec<PeerIdVersion> = Vec::new();
        let mut i: usize = 0;
        while i < ids.len()
            invariant
                i <= ids@.len(),
                r@.len() == i,
                forall|j: int| 0 <= j < i ==> r@[j] == self@.versions(ids@)[j],
            decreases ids@.len() - i,
        {
            let version: u32 = match self.peer_conn_versions.get(&ids[i]) {
                Some(v) => *v,
                None => 1,
            };
            r.push(PeerIdVersion { peer_id: ids[i], version });
            i = i + 1;
        }
        assert(r@ =~= self@.versions(ids@));
        r
    }

    /// The bit map of the connections among `ids`, if there are any and `target` has yet to be sent
    /// it.
    fn build_conn_bitmap(&mut self, ids: &Vec<u32>, target: u32) -> (r: Option<RouteConnBitmap>)
        requires
            ids@.no_duplicates(),
            ids@.len() * ids@.len() + 7 <= usize::MAX,
        ensures
            match r {
                Some(b) => old(self)@.bitmap_is_due(ids@, target) && b@ == old(self)@.bitmap(ids@),
                None => !old(self)@.bitmap_is_due(ids@, target),
            },
            final(self)@ == (if ids@.len() == 0 {
                old(self)@
            } else {
                old(self)@.with_session(target, old(self)@.session_after_bitmap(ids@, target))
            }),
    {
        if ids.is_empty() {
            return None;
        }
        let peer_ids = self.versions(ids);
        let bitmap = build_connection_map(ids, &self.peer_connections);
        let sig = signature_text(&peer_ids, &bitmap);
        let mut s = self.take_session(target);
        let unchanged = match &s.last_conn_bitmap_sig {
            Some(last) => *last == sig,
            None => false,
        };
        if unchanged {
            self.put_session(target, s);
            assert(self@.sessions =~= old(self)@.sessions.insert(target, self@.sessions[target]));
            return None;
        }
        let known: u32 = match s.conn_bitmap_ver_map.get(&target) {
            Some(v) => *v,
            None => 0,
        };
        let version = if known == 0 {
            largest_version(&peer_ids)
        } else {
            known
        };
        let _ = s.conn_bitmap_ver_map.insert(target, version);
        s.last_conn_bitmap_sig = Some(sig);
        self.put_session(target, s);
        assert(self@.sessions =~= old(self)@.sessions.insert(target, self@.sessions[target]));
        Some(RouteConnBitmap { peer_ids, bitmap })
    }

    /// Draws up the request that brings `target` up to date, and records what it was sent. Fails,
    /// and changes nothing, if a bit map of so many peers cannot be addressed.
    pub fn build_sync_route_info_request(
        &mut self,
        target: u32,
        server_session_id: u64,
        we_are_initiator: bool,
        force_full: bool,
        now_ms: u64,
    ) -> (r: Result<SyncRouteInfoRequest, TooManyPeers>)
        ensures
            match r {
                Ok(req) => {
                    &&& old(self)@.lists_relevant(target)
                    &&& old(self)@.update_fits(target)
                    &&& req@ == old(self)@.update(
                        target,
                        server_session_id,
                        we_are_initiator,
                        force_full,
                        now_ms,
                    )
                    &&& final(self)@ == old(self)@.after_update(
                        target,
                        server_session_id,
                        force_full,
                        now_ms,
                    )
                },
                Err(TooManyPeers) => {
                    &&& old(self)@.lists_relevant(target)
                    &&& !old(self)@.update_fits(target)
                    &&& final(self)@ == old(self)@
                },
            },
    {
        let ghost g0 = self@;
        let ids = self.relevant(target);
        let n: u128 = ids.len() as u128;
        assert(n * n <= 0xffff_ffff_ffff_ffff * 0xffff_ffff_ffff_ffff) by (nonlinear_arith)
            requires
                n <= 0xffff_ffff_ffff_ffff,
        ;
        if n * n + 7 > usize::MAX as u128 {
            return Err(TooManyPeers);
        }
        assert(ids@.no_duplicates());
        assert(ids@.to_set().contains(target));
        let mut s = self.take_session(target);
        let full = force_full || s.dst_session_id.is_none();
        s.my_session_id = Some(server_session_id);
        s.last_touch_ms = now_ms;
        self.put_session(target, s);
        assert(self@.sessions =~= g0.sessions.insert(target, self@.sessions[target]));
        assert(self@ == g0.with_open_session(target, server_session_id, now_ms));
        self.fill_stubs(&ids, now_ms);
        let ghost g1 = self@;
        assert forall|i: int| 0 <= i < ids@.len() implies #[trigger] ids@[i] == MY_PEER_ID
            || self@.peer_infos.contains_key(ids@[i]) by {
            assert(ids@.contains(ids@[i]));
        }
        let known: HashMap<u32, u32> = match self.sessions.get(&target) {
            Some(s) => s.peer_info_ver_map.clone(),
            None => HashMap::new(),
        };
        assert(known@ == g1.session(target).peer_info_ver_map);
        let (items, sent) = self.take_due(&ids, &known, full);
        let mut s = self.take_session(target);
        s.peer_info_ver_map = sent;
        self.put_session(target, s);
        assert(self@.sessions =~= g1.sessions.insert(target, self@.sessions[target]));
        let ghost g2 = self@;
        assert(g2 == g0.after_infos(target, server_session_id, force_full, now_ms));
        let conn_bitmap = self.build_conn_bitmap(&ids, target);
        let mut s = self.take_session(target);
        let version = s.foreign_net_ver.wrapping_add(1);
        s.foreign_net_ver = version;
        self.put_session(target, s);
        assert(self@.sessions =~= g2.sessions.insert(target, self@.sessions[target]));
        assert(self@ == g0.after_update(target, server_session_id, force_full, now_ms));
        let peer_infos = if items.is_empty() {
            None
        } else {
            Some(RoutePeerInfos { items })
        };
        let conn_info = match conn_bitmap {
            Some(b) => Some(ConnInfo::ConnBitmap(b)),
            None => None,
        };
        Ok(
            SyncRouteInfoRequest {
                my_peer_id: MY_PEER_ID,
                my_session_id: server_session_id,
                is_initiator: we_are_initiator,
                peer_infos,
                conn_info,
                foreign_network_infos: Some(foreign_infos(ids, version, now_ms)),
            },
        )
    }

    fn is_stale(&self, id: u32, now_ms: u64, threshold_ms: u64) -> (r: bool)
        ensures
            r == self@.is_stale(id, now_ms, threshold_ms),
    {
        match self.peer_removed_at.get(&id) {
            Some(at) => now_ms >= *at && now_ms - *at > threshold_ms,
            None => false,
        }
    }

    fn fresh_links(&self, links: &BTreeSet<u32>, now_ms: u64, threshold_ms: u64) -> (r: BTreeSet<
        u32,
    >)
        ensures
            r@ == Set::new(
                |p: u32| links@.contains(p) && !self@.is_stale(p, now_ms, threshold_ms),
            ),
    {
        let ids = ids_of(links);
        let mut r: BTreeSet<u32> = BTreeSet::new();
        let mut i: usize = 0;
        while i < ids.len()
            invariant
                i <= ids@.len(),
                forall|p: u32| #[trigger]
                    r@.contains(p) <==> !self@.is_stale(p, now_ms, threshold_ms) && (exists|j: int|
                        0 <= j < i && ids@[j] == p),
            decreases ids@.len() - i,
        {
            if !self.is_stale(ids[i], now_ms, threshold_ms) {
                r.insert(ids[i]);
            }
            i = i + 1;
        }
        assert forall|p: u32| #[trigger] links@.contains(p) == ids@.contains(p) by {
            assert(ids@.to_set().contains(p) == ids@.contains(p));
        }
        assert(r@ =~= Set::new(
            |p: u32| links@.contains(p) && !self@.is_stale(p, now_ms, threshold_ms),
        ));
        r
    }

    /// Drops the connections of and to peers that left more than `stale_threshold_ms` before
    /// `now_ms`. This keeps peers that left for good from piling up.
    pub fn cleanup_stale_peer_connections(&mut self, now_ms: u64, stale_threshold_ms: u64)
        ensures
            final(self)@ == old(self)@.cleaned(now_ms, stale_threshold_ms),
    {
        let mut connections: HashMap<u32, BTreeSet<u32>> = HashMap::new();
        let sources = keys_of(&self.peer_connections);
        let mut i: usize = 0;
        while i < sources.len()
            invariant
                i <= sources@.len(),
                sources@.to_set() == self.peer_connections@.dom(),
                forall|id: u32| #[trigger]
                    connections@.contains_key(id) <==> !self@.is_stale(
                        id,
                        now_ms,
                        stale_threshold_ms,
                    ) && (exists|j: int| 0 <= j < i && sources@[j] == id),
                forall|id: u32| #[trigger]
                    connections@.contains_key(id) ==> connections@[id]@ == Set::new(
                        |p: u32|
                            self.peer_connections@[id]@.contains(p) && !self@.is_stale(
                                p,
                                now_ms,
                                stale_threshold_ms,
                            ),
                    ),
            decreases sources@.len() - i,
        {
            let id = sources[i];
            assert(sources@.to_set().contains(id));
            if !self.is_stale(id, now_ms, stale_threshold_ms) {
                if let Some(links) = self.peer_connections.get(&id) {
                    let kept = self.fresh_links(links, now_ms, stale_threshold_ms);
                    let _ = connections.insert(id, kept);
                }
            }
            i = i + 1;
        }
        assert forall|id: u32| #[trigger] self.peer_connections@.contains_key(id)
            == sources@.contains(id) by {
            assert(sources@.to_set().contains(id) == sources@.contains(id));
        }
        let mut removed_at: HashMap<u32, u64> = HashMap::new();
        let removed = keys_of(&self.peer_removed_at);
        let mut k: usize = 0;
        while k < removed.len()
            invariant
                k <= removed@.len(),
                removed@.to_set() == self.peer_removed_at@.dom(),
                forall|id: u32| #[trigger]
                    removed_at@.contains_key(id) <==> !self@.is_stale(
                        id,
                        now_ms,
                        stale_threshold_ms,
                    ) && (exists|j: int| 0 <= j < k && removed@[j] == id),
                forall|id: u32| #[trigger]
                    removed_at@.contains_key(id) ==> removed_at@[id] == self.peer_removed_at@[id],
            decreases removed@.len() - k,
        {
            let id = removed[k];
            assert(removed@.to_set().contains(id));
            if !self.is_stale(id, now_ms, stale_threshold_ms) {
                if let Some(at) = self.peer_removed_at.get(&id) {
                    let _ = removed_at.insert(id, *at);
                }
            }
            k = k + 1;
        }
        assert forall|id: u32| #[trigger] self.peer_removed_at@.contains_key(id)
            == removed@.contains(id) by {
            assert(removed@.to_set().contains(id) == removed@.contains(id));
        }
        let ghost goal = self@.cleaned(now_ms, stale_threshold_ms);
        assert(removed_at@ =~= goal.peer_removed_at);
        proof {
            let kept = crate::conn_bitmap::links_of(connections@);
            assert forall|id: u32| #[trigger] kept.dom().contains(id) implies goal.peer_connections.dom().contains(
                id,
            ) && kept[id] == goal.peer_connections[id] by {
                assert(connections@.contains_key(id));
                assert(self.peer_connections@.contains_key(id) == sources@.contains(id));
                assert(kept[id] =~= goal.peer_connections[id]);
            }
            assert forall|id: u32| #[trigger] goal.peer_connections.dom().contains(
                id,
            ) implies kept.dom().contains(id) by {
                assert(self.peer_connections@.contains_key(id) == sources@.contains(id));
                assert(connections@.contains_key(id));
            }
            assert(kept =~= goal.peer_connections);
        }
        self.peer_connections = connections;
        self.peer_removed_at = removed_at;
    }
}

impl PeerConnInfo {
    fn is_about(&self, id: u32) -> (r: bool)
        ensures
            r == crate::route_model::entry_is_about(self@, id),
    {
        match self.peer_id {
            Some(p) => p.peer_id == id,
            None => false,
        }
    }
}

/// The view of reported connections, if there are any.
pub open spec fn conn_info_of(c: Option<ConnInfo>) -> Option<ConnInfoView> {
    match c {
        Some(c) => Some(c@),
        None => None,
    }
}

/// What stands for a peer that has not described itself.
fn make_stub_peer_info(peer_id: u32, network_length: u32, now_ms: u64) -> (r: RoutePeerInfo)
    ensures
        r@ == crate::route_model::stub_info(peer_id, network_length, now_ms),
{
    RoutePeerInfo {
        peer_id,
        version: 1,
        last_update: Some(Timestamp::at_ms(now_ms)),
        inst_id: Some(Uuid { part1: 0, part2: 0, part3: 0, part4: 0 }),
        cost: 1,
        easytier_version: "cf-2.6".to_string(),
        network_length,
        ..RoutePeerInfo::default()
    }
}

/// The relayed network, as an update speaks of it.
fn foreign_infos(ids: Vec<u32>, version: u32, now_ms: u64) -> (r: RouteForeignNetworkInfos)
    ensures
        r.infos@.map_values(|i: ForeignNetworkInfo| i@) == seq![
            GroupView::foreign_info(ids@, version, now_ms),
        ],
{
    let digest: Vec<u8> = vec![0; 32];
    let ghost ids_view = ids@;
    assert(digest@ =~= Seq::new(32, |i: int| 0u8));
    let info = ForeignNetworkInfo {
        key: Some(
            ForeignNetworkRouteInfoKey {
                peer_id: MY_PEER_ID,
                network_name: "dev-websocket-relay".to_string(),
            },
        ),
        value: Some(
            ForeignNetworkRouteInfoEntry {
                foreign_peer_ids: ids,
                last_update: Some(Timestamp::at_ms(now_ms)),
                version,
                network_secret_digest: digest,
                my_peer_id_for_this_network: MY_PEER_ID,
            },
        ),
    };
    assert(info@ == GroupView::foreign_info(ids_view, version, now_ms));
    let ghost view = info@;
    let mut infos: Vec<ForeignNetworkInfo> = Vec::new();
    infos.push(info);
    assert(infos@.map_values(|i: ForeignNetworkInfo| i@) =~= seq![view]);
    RouteForeignNetworkInfos { infos }
}

fn largest_version(ps: &Vec<PeerIdVersion>) -> (r: u32)
    ensures
        r == crate::route_model::largest_version(ps@),
{
    let mut r: u32 = 0;
    let mut i: usize = 0;
    assert(ps@.take(0) =~= Seq::empty());
    while i < ps.len()
        invariant
            i <= ps@.len(),
            r == crate::route_model::largest_version(ps@.take(i as int)),
        decreases ps@.len() - i,
    {
        assert(ps@.take(i + 1).drop_last() =~= ps@.take(i as int));
        if ps[i].version > r {
            r = ps[i].version;
        }
        i = i + 1;
    }
    assert(ps@.take(ps@.len() as int) =~= ps@);
    r
}

proof fn known_after_infos(
    g: GroupView,
    from: u32,
    infos: Seq<RoutePeerInfoView>,
    now_ms: u64,
    id: u32,
)
    ensures
        g.accepts_info(from, id) && !g.peer_infos.contains_key(id) ==> (g.infos_after(
            from,
            infos,
            now_ms,
        ).contains_key(id) ==> g.brings_new_info(from, infos)),
        g.peer_infos.contains_key(id) ==> g.infos_after(from, infos, now_ms).contains_key(id),
    decreases infos.len(),
{
    if infos.len() > 0 {
        known_after_infos(g, from, infos.drop_last(), now_ms, id);
        brings_new_info_step(g, from, infos);
    }
}

proof fn brings_new_info_step(g: GroupView, from: u32, infos: Seq<RoutePeerInfoView>)
    requires
        infos.len() > 0,
    ensures
        g.brings_new_info(from, infos) <==> g.brings_new_info(from, infos.drop_last()) || (
        g.accepts_info(from, infos.last().peer_id) && !g.peer_infos.contains_key(
            infos.last().peer_id,
        )),
{
    let before = infos.drop_last();
    if g.brings_new_info(from, before) {
        let j = choose|j: int|
            0 <= j < before.len() && g.accepts_info(from, (#[trigger] before[j]).peer_id)
                && !g.peer_infos.contains_key(before[j].peer_id);
        assert(infos[j] == before[j]);
    }
    if g.brings_new_info(from, infos) {
        let j = choose|j: int|
            0 <= j < infos.len() && g.accepts_info(from, (#[trigger] infos[j]).peer_id)
                && !g.peer_infos.contains_key(infos[j].peer_id);
        if j < before.len() {
            assert(before[j] == infos[j]);
        }
    }
}

proof fn row_of_first(b: RouteConnBitmapView, id: u32, i: int)
    requires
        crate::route_model::first_in_bitmap(b.peer_ids, id, i),
    ensures
        crate::route_model::reported_peers(ConnInfoView::ConnBitmap(b), id)
            == crate::conn_bitmap::row_peers(b.peer_ids, b.bitmap, i),
{
    let j = crate::route_model::row_of(b.peer_ids, id);
    assert(crate::route_model::first_in_bitmap(b.peer_ids, id, j));
    assert(b.peer_ids[i].peer_id == id && b.peer_ids[j].peer_id == id);
}

proof fn entry_of_first(entries: Seq<PeerConnInfoView>, id: u32, i: int)
    requires
        crate::route_model::first_in_list(entries, id, i),
    ensures
        crate::route_model::reported_peers(ConnInfoView::ConnPeerList(entries), id)
            == entries[i].connected_peer_ids.to_set(),
{
    let j = crate::route_model::entry_of(entries, id);
    assert(crate::route_model::first_in_list(entries, id, j));
    assert(crate::route_model::entry_is_about(entries[i], id));
    assert(crate::route_model::entry_is_about(entries[j], id));
}

} // verus!
