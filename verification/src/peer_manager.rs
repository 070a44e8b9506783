//! The peers of all network groups, and the messages that keep them up to date.

use vstd::prelude::*;

use crate::constants::MY_PEER_ID;
use crate::crypto::random_u64_string;
use crate::proto::{
    Payload, PayloadView, RoutePeerInfo, RoutePeerInfoView, RpcBody, RpcBodyView,
    RpcCompressionInfo, RpcDescriptor, RpcDescriptorView, RpcPacket, RpcPacketView, RpcRequest,
    RpcRequestView, SyncRequestView, SyncRouteInfoRequest, SyncRouteInfoResponse,
};
use crate::random::RandomUnavailable;
use crate::route_model::{GroupSeed, GroupView};
use crate::route_state::{RouteError, RouteState};
use crate::text::{joined, parse_u64};

verus! {

/// What is known of the connection to a peer.
#[derive(Debug)]
pub struct WsPeerContext {
    pub peer_id: u32,
    pub group_key: String,
    pub domain_name: String,
    pub server_session_id: String,
    pub we_are_initiator: bool,
}

impl Clone for WsPeerContext {
    fn clone(&self) -> (r: Self)
        ensures
            r == *self,
    {
        WsPeerContext {
            peer_id: self.peer_id,
            group_key: self.group_key.clone(),
            domain_name: self.domain_name.clone(),
            server_session_id: self.server_session_id.clone(),
            we_are_initiator: self.we_are_initiator,
        }
    }
}

impl WsPeerContext {
    /// The context of a connection before its handshake, with the given session.
    pub fn with_session(server_session_id: String) -> (r: Self)
        ensures
            r.peer_id == 0,
            r.group_key@ == Seq::<char>::empty(),
            r.domain_name@ == "public_server"@,
            r.server_session_id == server_session_id,
            !r.we_are_initiator,
    {
        WsPeerContext {
            peer_id: 0,
            group_key: String::new(),
            domain_name: "public_server".to_string(),
            server_session_id,
            we_are_initiator: false,
        }
    }

    /// The context of a connection before its handshake, with a random session.
    pub fn fresh() -> (r: Result<Self, RandomUnavailable>)
        ensures
            r matches Ok(ctx) ==> {
                &&& ctx.peer_id == 0
                &&& ctx.group_key@ == Seq::<char>::empty()
                &&& ctx.domain_name@ == "public_server"@
                &&& exists|n: u64| ctx.server_session_id@ == #[trigger] crate::text::decimal(n as nat)
                &&& !ctx.we_are_initiator
            },
    {
        match random_u64_string() {
            Ok(session) => Ok(WsPeerContext::with_session(session)),
            Err(e) => Err(e),
        }
    }

    /// The number that the session's text spells, or 0.
    pub open spec fn session_number(self) -> u64 {
        match crate::text::parsed(self.server_session_id@, u64::MAX as nat) {
            Some(n) => n as u64,
            None => 0,
        }
    }

    fn session_id(&self) -> (r: u64)
        ensures
            r == self.session_number(),
    {
        match parse_u64(self.server_session_id.as_str()) {
            Some(n) => n,
            None => 0,
        }
    }
}

/// The packet that carries a route update to `target`.
pub open spec fn route_update(
    ctx: WsPeerContext,
    target: u32,
    transaction_id: u32,
    request: SyncRequestView,
) -> RpcPacketView {
    RpcPacketView {
        from_peer: MY_PEER_ID,
        to_peer: target,
        transaction_id: transaction_id as i64,
        descriptor: Some(
            RpcDescriptorView {
                domain_name: ctx.domain_name@,
                proto_name: "OspfRouteRpc"@,
                service_name: "OspfRouteRpc"@,
                method_index: 1,
            },
        ),
        body: RpcBodyView::Request(
            RpcRequestView {
                descriptor: None,
                request: PayloadView::SyncRouteInfoRequest(request),
                timeout_ms: 5000,
            },
        ),
        is_request: true,
        total_pieces: 1,
        piece_idx: 0,
        trace_id: 0,
        compression_info: Some(RpcCompressionInfo { algo: 1, accepted_algo: 1 }),
    }
}

/// Packs a route update for `target`.
pub fn route_update_packet(
    ctx: &WsPeerContext,
    target: u32,
    transaction_id: u32,
    request: SyncRouteInfoRequest,
) -> (r: RpcPacket)
    ensures
        r@ == route_update(*ctx, target, transaction_id, request@),
{
    RpcPacket {
        from_peer: MY_PEER_ID,
        to_peer: target,
        transaction_id: transaction_id as i64,
        descriptor: Some(
            RpcDescriptor {
                domain_name: ctx.domain_name.clone(),
                proto_name: "OspfRouteRpc".to_string(),
                service_name: "OspfRouteRpc".to_string(),
                method_index: 1,
            },
        ),
        body: RpcBody::Request(
            RpcRequest {
                descriptor: None,
                request: Payload::SyncRouteInfoRequest(request),
                timeout_ms: 5000,
            },
        ),
        is_request: true,
        total_pieces: 1,
        piece_idx: 0,
        trace_id: 0,
        compression_info: Some(RpcCompressionInfo { algo: 1, accepted_algo: 1 }),
    }
}

/// The transaction id that a random text stands for: the low half of the number it spells, or 0.
pub fn transaction_id_from(text: &str) -> (r: u32)
    ensures
        r == (match crate::text::parsed(text@, u64::MAX as nat) {
            Some(n) => n as u32,
            None => 0,
        }),
{
    match parse_u64(text) {
        Some(n) => n as u32,
        None => 0,
    }
}

/// What is new about the peer infos that came in.
#[derive(Debug, Clone, Copy, PartialEq, Eq, Structural)]
pub struct InfoNews {
    /// One of them is about a peer, other than the relay, that is not connected.
    pub discovered: bool,
    /// One of them is a later version of an info that was known.
    pub newer: bool,
}

/// PeerManager wraps RouteState and provides methods to build RPC messages.
#[derive(Debug)]
pub struct PeerManager {
    pub route_state: RouteState,
}

proof fn changes_compose(
    a: Map<Seq<char>, GroupView>,
    b: Map<Seq<char>, GroupView>,
    c: Map<Seq<char>, GroupView>,
    key: Seq<char>,
    f: spec_fn(GroupView) -> GroupView,
    h: spec_fn(GroupView) -> GroupView,
)
    requires
        crate::route_model::changes_group(a, b, key, f),
        crate::route_model::changes_group(b, c, key, h),
    ensures
        crate::route_model::changes_group(a, c, key, |g: GroupView| h(f(g))),
        b.contains_key(key),
{
    let seed = choose|seed: GroupSeed|
        b == a.insert(key, f(#[trigger] crate::route_model::group_at(a, key, seed)));
    let other = choose|other: GroupSeed|
        c == b.insert(key, h(#[trigger] crate::route_model::group_at(b, key, other)));
    assert(c =~= a.insert(key, h(f(crate::route_model::group_at(a, key, seed)))));
}

impl PeerManager {
    /// A manager of no peers.
    pub fn new() -> (r: Self)
        ensures
            r.route_state@ == Map::<Seq<char>, GroupView>::empty(),
    {
        PeerManager { route_state: RouteState::new() }
    }

    /// The peer has connected; the relay's own info gets a new version.
    pub fn add_peer(&mut self, group_key: &str, peer_id: u32) -> (r: Result<(), RandomUnavailable>)
        ensures
            match r {
                Ok(()) => crate::route_model::changes_group(
                    old(self).route_state@,
                    final(self).route_state@,
                    group_key@,
                    |g: GroupView| g.with_peer(peer_id).with_my_info(g.my_info),
                ),
                Err(_) => !old(self).route_state@.contains_key(group_key@)
                    && final(self).route_state@ == old(self).route_state@,
            },
    {
        let ghost before = self.route_state@;
        if let Err(e) = self.route_state.add_peer(group_key, peer_id) {
            return Err(e);
        }
        let ghost mid = self.route_state@;
        let r = self.route_state.bump_my_info_version(group_key);
        proof {
            let f = |g: GroupView| g.with_peer(peer_id);
            let h = |g: GroupView| g.with_my_info(g.my_info);
            let both = |g: GroupView| g.with_peer(peer_id).with_my_info(g.my_info);
            changes_compose(before, mid, self.route_state@, group_key@, f, h);
            assert forall|g: GroupView| h(f(g)) == #[trigger] both(g) by {}
            assert((|g: GroupView| h(f(g))) =~= both);
        }
        r
    }

    /// The peer behind `ctx` has left, at `now_ms`. Returns false if it never had a handshake.
    pub fn remove_peer(&mut self, ctx: &WsPeerContext, now_ms: u64) -> (r: Result<
        bool,
        RandomUnavailable,
    >)
        ensures
            match r {
                Ok(false) => ctx.peer_id == 0 && final(self).route_state@ == old(
                    self,
                ).route_state@,
                Ok(true) => ctx.peer_id != 0 && crate::route_model::changes_group(
                    old(self).route_state@,
                    final(self).route_state@,
                    ctx.group_key@,
                    |g: GroupView| g.without_peer(ctx.peer_id, now_ms),
                ),
                Err(_) => ctx.peer_id != 0 && !old(self).route_state@.contains_key(ctx.group_key@)
                    && final(self).route_state@ == old(self).route_state@,
            },
    {
        if ctx.peer_id == 0 {
            return Ok(false);
        }
        match self.route_state.remove_peer(ctx.group_key.as_str(), ctx.peer_id, now_ms) {
            Ok(()) => Ok(true),
            Err(e) => Err(e),
        }
    }

    /// The connected peers of the group, in increasing order.
    pub fn list_peer_ids_in_group(&self, group_key: &str) -> (r: Vec<u32>)
        ensures
            r@ == crate::route_model::members(self.route_state@, group_key@),
            self.route_state@.contains_key(group_key@) ==> crate::route_model::lists(
                r@,
                self.route_state@[group_key@].peers,
            ),
    {
        self.route_state.get_peer_ids_in_group(group_key)
    }

    /// An info about the peer came in. One that could not be decoded changes nothing.
    pub fn update_peer_info(
        &mut self,
        group_key: &str,
        peer_id: u32,
        info: Result<RoutePeerInfo, String>,
    ) -> (r: Result<(), RandomUnavailable>)
        ensures
            match (info, r) {
                (Ok(i), Ok(())) => crate::route_model::changes_group(
                    old(self).route_state@,
                    final(self).route_state@,
                    group_key@,
                    |g: GroupView| g.with_info(peer_id, i@),
                ),
                (Ok(_), Err(_)) => !old(self).route_state@.contains_key(group_key@)
                    && final(self).route_state@ == old(self).route_state@,
                (Err(_), Ok(())) => final(self).route_state@ == old(self).route_state@,
                (Err(_), Err(_)) => false,
            },
    {
        match self.route_state.update_peer_info(group_key, peer_id, info) {
            Err(RouteError::RandomUnavailable) => Err(RandomUnavailable),
            _ => Ok(()),
        }
    }

    /// The peer has acknowledged the session that it calls `their_session_id`.
    pub fn on_route_session_ack(
        &mut self,
        group_key: &str,
        peer_id: u32,
        their_session_id: u64,
        we_are_initiator: bool,
        now_ms: u64,
    ) -> (r: Result<(), RandomUnavailable>)
        ensures
            match r {
                Ok(()) => crate::route_model::changes_group(
                    old(self).route_state@,
                    final(self).route_state@,
                    group_key@,
                    |g: GroupView| g.with_ack(peer_id, their_session_id, we_are_initiator, now_ms),
                ),
                Err(_) => !old(self).route_state@.contains_key(group_key@)
                    && final(self).route_state@ == old(self).route_state@,
            },
    {
        self.route_state.on_route_session_ack(
            group_key,
            peer_id,
            their_session_id,
            we_are_initiator,
            now_ms,
        )
    }

    /// Builds the SyncRouteInfo request that brings `target_peer_id` up to date, as the packet to
    /// send it in, under the given transaction id. There is none if the group has too many peers.
    pub fn build_route_update_with(
        &mut self,
        ctx: &WsPeerContext,
        target_peer_id: u32,
        force_full: bool,
        transaction_id: u32,
        now_ms: u64,
    ) -> (r: Result<Option<RpcPacket>, RandomUnavailable>)
        ensures
            match r {
                Ok(Some(packet)) => sends_update(
                    old(self).route_state@,
                    final(self).route_state@,
                    *ctx,
                    target_peer_id,
                    force_full,
                    now_ms,
                    transaction_id,
                    packet@,
                ),
                Ok(None) => cannot_update(
                    old(self).route_state@,
                    final(self).route_state@,
                    *ctx,
                    target_peer_id,
                ),
                Err(_) => !old(self).route_state@.contains_key(ctx.group_key@)
                    && final(self).route_state@ == old(self).route_state@,
            },
    {
        let session_id = ctx.session_id();
        match self.route_state.build_sync_route_info_request(
            ctx.group_key.as_str(),
            target_peer_id,
            session_id,
            ctx.we_are_initiator,
            force_full,
            now_ms,
        ) {
            Ok(request) => Ok(
                Some(route_update_packet(ctx, target_peer_id, transaction_id, request)),
            ),
            Err(RouteError::RandomUnavailable) => Err(RandomUnavailable),
            Err(_) => Ok(None),
        }
    }

    /// Builds the SyncRouteInfo request that brings `target_peer_id` up to date, as the packet to
    /// send it in, under a random transaction id. Changes nothing where the system gives no
    /// random bytes.
    pub fn build_route_update(
        &mut self,
        ctx: &WsPeerContext,
        target_peer_id: u32,
        force_full: bool,
        now_ms: u64,
    ) -> (r: Result<Option<RpcPacket>, RandomUnavailable>)
        ensures
            match r {
                Ok(Some(packet)) => exists|transaction_id: u32| #[trigger]
                    sends_update(
                        old(self).route_state@,
                        final(self).route_state@,
                        *ctx,
                        target_peer_id,
                        force_full,
                        now_ms,
                        transaction_id,
                        packet@,
                    ),
                Ok(None) => cannot_update(
                    old(self).route_state@,
                    final(self).route_state@,
                    *ctx,
                    target_peer_id,
                ),
                Err(_) => final(self).route_state@ == old(self).route_state@,
            },
    {
        let text = match random_u64_string() {
            Ok(text) => text,
            Err(e) => {
                return Err(e);
            },
        };
        let transaction_id = transaction_id_from(text.as_str());
        self.build_route_update_with(ctx, target_peer_id, force_full, transaction_id, now_ms)
    }

    /// Takes over what a SyncRouteInfo request says, and answers it; a request that could not be
    /// decoded gets no answer.
    pub fn handle_sync_route_info(
        &mut self,
        group_key: &str,
        from_peer_id: u32,
        request: &Result<SyncRouteInfoRequest, String>,
        now_ms: u64,
    ) -> (r: Result<Option<SyncRouteInfoResponse>, RandomUnavailable>)
        ensures
            match (request, r) {
                (Ok(req), Ok(Some(response))) => exists|seed: GroupSeed|
                    {
                        let g = #[trigger] crate::route_model::group_at(
                            old(self).route_state@,
                            group_key@,
                            seed,
                        );
                        &&& response == g.response(from_peer_id, req@)
                        &&& final(self).route_state@ == old(self).route_state@.insert(
                            group_key@,
                            g.with_request(from_peer_id, req@, now_ms),
                        )
                    },
                (Ok(_), Err(_)) => !old(self).route_state@.contains_key(group_key@)
                    && final(self).route_state@ == old(self).route_state@,
                (Err(_), Ok(None)) => final(self).route_state@ == old(self).route_state@,
                _ => false,
            },
    {
        match self.route_state.handle_sync_route_info_request(
            group_key,
            from_peer_id,
            request,
            now_ms,
        ) {
            Ok(response) => Ok(Some(response)),
            Err(RouteError::RandomUnavailable) => Err(RandomUnavailable),
            Err(_) => Ok(None),
        }
    }

    /// Takes over peer infos one after the other. Returns what is new about them. Fails, and changes
    /// nothing, only where the group has to be set up and the system gives no random bytes.
    pub fn take_peer_infos(&mut self, group_key: &str, items: &Vec<RoutePeerInfo>) -> (r: Result<
        InfoNews,
        RandomUnavailable,
    >)
        ensures
            match r {
                Ok(news) => takes_infos(
                    old(self).route_state@,
                    final(self).route_state@,
                    group_key@,
                    items@.map_values(|i: RoutePeerInfo| i@),
                    news,
                ),
                Err(_) => {
                    &&& items@.len() > 0
                    &&& !old(self).route_state@.contains_key(group_key@)
                    &&& final(self).route_state@ == old(self).route_state@
                },
            },
    {
        let ghost before = self.route_state@;
        let ghost infos = items@.map_values(|i: RoutePeerInfo| i@);
        let ghost mut seed: GroupSeed = arbitrary();
        let mut discovered = false;
        let mut newer = false;
        let mut i: usize = 0;
        while i < items.len()
            invariant
                i <= items@.len(),
                infos == items@.map_values(|i: RoutePeerInfo| i@),
                i == 0 ==> self.route_state@ == before && !discovered && !newer,
                i > 0 ==> {
                    let g = crate::route_model::group_at(before, group_key@, seed);
                    &&& self.route_state@ == before.insert(
                        group_key@,
                        g.with_infos(infos.take(i as int)),
                    )
                    &&& discovered == g.brings_strangers(infos.take(i as int))
                    &&& newer == g.brings_newer(infos.take(i as int))
                },
                before == old(self).route_state@,
            decreases items@.len() - i,
        {
            let ghost mid = self.route_state@;
            let info = items[i].clone();
            let ghost view = info@;
            let id = info.peer_id;
            let existing = self.route_state.get_peer_ids_in_group(group_key);
            let is_stranger = id != MY_PEER_ID && !holds(&existing, id);
            let is_known = self.route_state.knows_peer_info(group_key, id);
            let changed = match self.route_state.update_peer_info(group_key, id, Ok(info)) {
                Ok(changed) => changed,
                Err(_) => {
                    assert(i == 0);
                    return Err(RandomUnavailable);
                },
            };
            proof {
                let drawn = choose|s: GroupSeed|
                    {
                        let g = #[trigger] crate::route_model::group_at(mid, group_key@, s);
                        &&& self.route_state@ == mid.insert(group_key@, g.with_info(id, view))
                        &&& changed == g.is_news(id, view)
                    };
                if i == 0 {
                    seed = drawn;
                    assert(infos.take(0) =~= Seq::empty());
                }
                let g = crate::route_model::group_at(before, group_key@, seed);
                let done = infos.take(i as int);
                let next = infos.take(i + 1);
                assert(next.drop_last() =~= done);
                assert(next.take(i as int) =~= done);
                assert(next.last() == view);
                assert(self.route_state@ == mid.insert(
                    group_key@,
                    crate::route_model::group_at(mid, group_key@, drawn).with_info(id, view),
                ));
                assert(crate::route_model::group_at(mid, group_key@, drawn) == g.with_infos(done));
                assert(g.with_infos(next) == g.with_infos(done).with_info(id, view));
                assert(self.route_state@ =~= before.insert(group_key@, g.with_infos(next)));
                infos_keep_peers(g, done);
                strangers_step(g, next);
                newer_step(g, next);
                assert(is_stranger == (id != MY_PEER_ID && !g.peers.contains(id)));
                assert((is_known && changed) == g.newer_at(next, i as int));
            }
            if is_stranger {
                discovered = true;
            }
            if is_known && changed {
                newer = true;
            }
            i = i + 1;
        }
        assert(infos.take(infos.len() as int) =~= infos);
        Ok(InfoNews { discovered, newer })
    }

    /// Takes over the peer infos of an incoming SyncRouteInfo request. Returns whether peers were
    /// discovered.
    pub fn process_incoming_peer_infos(
        &mut self,
        group_key: &str,
        from_peer_id: u32,
        request: &Result<SyncRouteInfoRequest, String>,
    ) -> (r: Result<bool, RouteError>)
        ensures
            match (request, r) {
                (Ok(req), Ok(has_new)) => exists|news: InfoNews|
                    {
                        &&& news.discovered == has_new
                        &&& #[trigger] takes_infos(
                            old(self).route_state@,
                            final(self).route_state@,
                            group_key@,
                            GroupView::infos_in(req@),
                            news,
                        )
                    },
                (Ok(req), Err(RouteError::RandomUnavailable)) => {
                    &&& GroupView::infos_in(req@).len() > 0
                    &&& !old(self).route_state@.contains_key(group_key@)
                    &&& final(self).route_state@ == old(self).route_state@
                },
                (Err(e), Err(RouteError::Undecodable(t))) => t@
                    == "decode SyncRouteInfoRequest: "@ + e@ && final(self).route_state@ == old(
                    self,
                ).route_state@,
                _ => false,
            },
    {
        let req = match request {
            Ok(req) => req,
            Err(e) => {
                return Err(RouteError::Undecodable(joined("decode SyncRouteInfoRequest: ", e)));
            },
        };
        match self.take_peer_infos_of(group_key, req) {
            Ok(news) => Ok(news.discovered),
            Err(_) => Err(RouteError::RandomUnavailable),
        }
    }

    /// Takes over the peer infos of a SyncRouteInfo request. Returns what is new about them.
    pub(crate) fn take_peer_infos_of(&mut self, group_key: &str, req: &SyncRouteInfoRequest) -> (r:
        Result<InfoNews, RandomUnavailable>)
        ensures
            match r {
                Ok(news) => takes_infos(
                    old(self).route_state@,
                    final(self).route_state@,
                    group_key@,
                    GroupView::infos_in(req@),
                    news,
                ),
                Err(_) => {
                    &&& GroupView::infos_in(req@).len() > 0
                    &&& !old(self).route_state@.contains_key(group_key@)
                    &&& final(self).route_state@ == old(self).route_state@
                },
            },
    {
        match &req.peer_infos {
            Some(infos) => self.take_peer_infos(group_key, &infos.items),
            None => Ok(InfoNews { discovered: false, newer: false }),
        }
    }

    /// Takes over the connections that an incoming SyncRouteInfo request reports. Returns whether
    /// they changed.
    pub fn process_incoming_conn_info(
        &mut self,
        group_key: &str,
        from_peer_id: u32,
        request: &Result<SyncRouteInfoRequest, String>,
    ) -> (r: Result<bool, RandomUnavailable>)
        ensures
            match (request, r) {
                (Ok(req), Ok(changed)) => exists|seed: GroupSeed|
                    {
                        let g = #[trigger] crate::route_model::group_at(
                            old(self).route_state@,
                            group_key@,
                            seed,
                        );
                        &&& final(self).route_state@ == old(self).route_state@.insert(
                            group_key@,
                            g.with_report(from_peer_id, req@.conn_info),
                        )
                        &&& changed == g.report_changes(from_peer_id, req@.conn_info)
                    },
                (Ok(_), Err(_)) => !old(self).route_state@.contains_key(group_key@)
                    && final(self).route_state@ == old(self).route_state@,
                (Err(_), Ok(changed)) => !changed && final(self).route_state@ == old(
                    self,
                ).route_state@,
                (Err(_), Err(_)) => false,
            },
    {
        self.route_state.update_peer_connections_from_conn_info(group_key, from_peer_id, request)
    }

    /// Drops the connections of and to peers that left more than `stale_threshold_ms` ago.
    pub fn cleanup_stale_peer_connections(
        &mut self,
        group_key: &str,
        stale_threshold_ms: u64,
        now_ms: u64,
    ) -> (r: Result<(), RandomUnavailable>)
        ensures
            match r {
                Ok(()) => crate::route_model::changes_group(
                    old(self).route_state@,
                    final(self).route_state@,
                    group_key@,
                    |g: GroupView| g.cleaned(now_ms, stale_threshold_ms),
                ),
                Err(_) => !old(self).route_state@.contains_key(group_key@)
                    && final(self).route_state@ == old(self).route_state@,
            },
    {
        self.route_state.cleanup_stale_peer_connections(group_key, stale_threshold_ms, now_ms)
    }
}

/// Whether `list` holds `id`.
pub(crate) fn holds(list: &Vec<u32>, id: u32) -> (r: bool)
    ensures
        r == list@.contains(id),
{
    let mut i: usize = 0;
    while i < list.len()
        invariant
            i <= list@.len(),
            forall|j: int| 0 <= j < i ==> list@[j] != id,
        decreases list@.len() - i,
    {
        if list[i] == id {
            return true;
        }
        i = i + 1;
    }
    false
}

proof fn newer_step(g: GroupView, infos: Seq<RoutePeerInfoView>)
    requires
        infos.len() > 0,
    ensures
        g.brings_newer(infos) <==> g.brings_newer(infos.drop_last()) || g.newer_at(
            infos,
            infos.len() - 1,
        ),
{
    let before = infos.drop_last();
    assert forall|j: int| 0 <= j < before.len() implies #[trigger] g.newer_at(before, j)
        == g.newer_at(infos, j) by {
        assert(before.take(j) =~= infos.take(j));
    }
    if g.brings_newer(before) {
        let j = choose|j: int| 0 <= j < before.len() && #[trigger] g.newer_at(before, j);
        assert(g.newer_at(infos, j));
    }
    if g.brings_newer(infos) {
        let j = choose|j: int| 0 <= j < infos.len() && #[trigger] g.newer_at(infos, j);
        if j < before.len() {
            assert(g.newer_at(before, j));
        }
    }
}

proof fn infos_keep_peers(g: GroupView, infos: Seq<RoutePeerInfoView>)
    ensures
        g.with_infos(infos).peers == g.peers,
    decreases infos.len(),
{
    if infos.len() > 0 {
        infos_keep_peers(g, infos.drop_last());
    }
}

proof fn strangers_step(g: GroupView, infos: Seq<RoutePeerInfoView>)
    requires
        infos.len() > 0,
    ensures
        g.brings_strangers(infos) <==> g.brings_strangers(infos.drop_last()) || (
        infos.last().peer_id != MY_PEER_ID && !g.peers.contains(infos.last().peer_id)),
{
    let before = infos.drop_last();
    if g.brings_strangers(before) {
        let j = choose|j: int|
            0 <= j < before.len() && (#[trigger] before[j]).peer_id != MY_PEER_ID
                && !g.peers.contains(before[j].peer_id);
        assert(infos[j] == before[j]);
    }
    if g.brings_strangers(infos) {
        let j = choose|j: int|
            0 <= j < infos.len() && (#[trigger] infos[j]).peer_id != MY_PEER_ID
                && !g.peers.contains(infos[j].peer_id);
        if j < before.len() {
            assert(before[j] == infos[j]);
        }
    }
}

/// Whether drawing up a route update for `target` took the groups from `before` to `after` and
/// gave `packet`.
pub open spec fn sends_update(
    before: Map<Seq<char>, GroupView>,
    after: Map<Seq<char>, GroupView>,
    ctx: WsPeerContext,
    target: u32,
    force_full: bool,
    now_ms: u64,
    transaction_id: u32,
    packet: RpcPacketView,
) -> bool {
    let sid = ctx.session_number();
    exists|seed: GroupSeed|
        {
            let g = #[trigger] crate::route_model::group_at(before, ctx.group_key@, seed);
            &&& g.lists_relevant(target)
            &&& g.update_fits(target)
            &&& after == before.insert(
                ctx.group_key@,
                g.after_update(target, sid, force_full, now_ms),
            )
            &&& packet == route_update(
                ctx,
                target,
                transaction_id,
                g.update(target, sid, ctx.we_are_initiator, force_full, now_ms),
            )
        }
}

/// Whether the group has too many peers for a route update, and was at most set up.
pub open spec fn cannot_update(
    before: Map<Seq<char>, GroupView>,
    after: Map<Seq<char>, GroupView>,
    ctx: WsPeerContext,
    target: u32,
) -> bool {
    exists|seed: GroupSeed|
        {
            let g = #[trigger] crate::route_model::group_at(before, ctx.group_key@, seed);
            &&& g.lists_relevant(target)
            &&& !g.update_fits(target)
            &&& after == before.insert(ctx.group_key@, g)
        }
}

/// Whether taking over `infos` took the groups from `before` to `after`, `news` telling what was new
/// about them. Where there are no infos, not even the group is set up.
pub open spec fn takes_infos(
    before: Map<Seq<char>, GroupView>,
    after: Map<Seq<char>, GroupView>,
    key: Seq<char>,
    infos: Seq<RoutePeerInfoView>,
    news: InfoNews,
) -> bool {
    if infos.len() > 0 {
        exists|seed: GroupSeed|
            {
                let g = #[trigger] crate::route_model::group_at(before, key, seed);
                &&& after == before.insert(key, g.with_infos(infos))
                &&& news.discovered == g.brings_strangers(infos)
                &&& news.newer == g.brings_newer(infos)
            }
    } else {
        after == before && !news.discovered && !news.newer
    }
}

} // verus!
