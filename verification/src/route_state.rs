//! The route information of all network groups.

use std::collections::BTreeSet;
use std::collections::HashMap;

use vstd::prelude::*;
use vstd::std_specs::btree::*;
use vstd::std_specs::hash::*;

use crate::bytes::read_le32;
use crate::constants::MY_PEER_ID;
use crate::crypto::read_u64_le;
use crate::name_map::NameMap;
use crate::proto::{
    RoutePeerInfo, RoutePeerInfoView, SyncRouteInfoRequest, SyncRouteInfoResponse, Uuid,
};
use crate::random::{get_random_bytes, RandomUnavailable};
use crate::route_group::{ids_of, keys_of, RouteGroupData};
use crate::route_model::{GroupSeed, GroupView};
use crate::text::joined;

verus! {

broadcast use {group_hash_axioms, group_btree_axioms, vstd::laws_cmp::group_laws_cmp};

/// Route state manager.
#[derive(Debug)]
pub struct RouteState {
    groups: NameMap<RouteGroupData>,
}

/// The versions in `base` with those of the peers in `done` raised by one.
spec fn raised(base: Map<u32, u32>, done: Seq<u32>) -> Map<u32, u32> {
    Map::new(
        |id: u32| base.contains_key(id) || done.contains(id),
        |id: u32|
            if done.contains(id) {
                crate::route_model::get_or(base, id, 1u32).wrapping_add(1)
            } else {
                base[id]
            },
    )
}

proof fn raised_step(base: Map<u32, u32>, ids: Seq<u32>, i: int)
    requires
        0 <= i < ids.len(),
        ids.no_duplicates(),
    ensures
        raised(base, ids.take(i)).contains_key(ids[i]) == base.contains_key(ids[i]),
        base.contains_key(ids[i]) ==> raised(base, ids.take(i))[ids[i]] == base[ids[i]],
        raised(base, ids.take(i + 1)) == raised(base, ids.take(i)).insert(
            ids[i],
            crate::route_model::get_or(base, ids[i], 1u32).wrapping_add(1),
        ),
{
    let before = ids.take(i);
    let after = ids.take(i + 1);
    assert(after =~= before.push(ids[i]));
    assert forall|x: u32| #[trigger] after.contains(x) == (before.contains(x) || x == ids[i]) by {
        if before.contains(x) {
            let k = choose|k: int| 0 <= k < before.len() && before[k] == x;
            assert(after[k] == x);
        }
        assert(after[i] == ids[i]);
    }
    assert(!before.contains(ids[i]));
    let goal = raised(base, before).insert(
        ids[i],
        crate::route_model::get_or(base, ids[i], 1u32).wrapping_add(1),
    );
    assert forall|id: u32| #[trigger] goal.dom().contains(id) == raised(base, after).dom().contains(
        id,
    ) by {
        assert(after.contains(id) == (before.contains(id) || id == ids[i]));
    }
    assert(raised(base, after) =~= goal);
}

/// Why the route state refuses a request.
#[derive(Debug)]
pub enum RouteError {
    /// A group had to be set up and the system gave no random bytes.
    RandomUnavailable,
    /// A bit map of the connections of so many peers cannot be addressed.
    TooManyPeers,
    /// A message could not be decoded.
    Undecodable(String),
    /// A field does not exist or cannot have the value.
    Refused(String),
}

impl RouteError {
    /// The error in words.
    pub fn message(&self) -> (r: String)
        ensures
            r@ == (match self {
                RouteError::RandomUnavailable => "getrandom failed"@,
                RouteError::TooManyPeers => "too many peers"@,
                RouteError::Undecodable(t) => t@,
                RouteError::Refused(t) => t@,
            }),
    {
        match self {
            RouteError::RandomUnavailable => "getrandom failed".to_string(),
            RouteError::TooManyPeers => "too many peers".to_string(),
            RouteError::Undecodable(t) => t.clone(),
            RouteError::Refused(t) => t.clone(),
        }
    }
}

proof fn seed_of_ensure(
    before: Map<Seq<char>, GroupView>,
    mid: Map<Seq<char>, GroupView>,
    key: Seq<char>,
) -> (seed: GroupSeed)
    requires
        crate::route_model::changes_group(before, mid, key, |g: GroupView| g),
    ensures
        mid == before.insert(key, crate::route_model::group_at(before, key, seed)),
{
    let same = |g: GroupView| g;
    choose|seed: GroupSeed|
        mid == before.insert(key, same(#[trigger] crate::route_model::group_at(before, key, seed)))
}

proof fn change_after_ensure(
    before: Map<Seq<char>, GroupView>,
    mid: Map<Seq<char>, GroupView>,
    after: Map<Seq<char>, GroupView>,
    key: Seq<char>,
    change: spec_fn(GroupView) -> GroupView,
)
    requires
        crate::route_model::changes_group(before, mid, key, |g: GroupView| g),
        after == mid.remove(key).insert(key, change(mid[key])),
    ensures
        crate::route_model::changes_group(before, after, key, change),
{
    let seed = seed_of_ensure(before, mid, key);
    assert(after =~= before.insert(
        key,
        change(crate::route_model::group_at(before, key, seed)),
    ));
}

/// The random bytes that a group's seed is made from: eight for each part of the instance id, and
/// eight for the route id.
#[derive(Debug)]
pub struct SeedBytes {
    pub part1: Vec<u8>,
    pub part2: Vec<u8>,
    pub part3: Vec<u8>,
    pub part4: Vec<u8>,
    pub route: Vec<u8>,
}

impl SeedBytes {
    /// Whether there are eight bytes for everything.
    pub open spec fn complete(self) -> bool {
        &&& self.part1@.len() == 8
        &&& self.part2@.len() == 8
        &&& self.part3@.len() == 8
        &&& self.part4@.len() == 8
        &&& self.route@.len() == 8
    }

    /// The seed that is made from the bytes: each part of the instance id is the number in the first
    /// four of its own bytes, and the route id the number in all eight of its own, least significant
    /// first.
    pub open spec fn seed(self) -> GroupSeed {
        GroupSeed {
            inst_id: Uuid {
                part1: crate::bytes::from_le32(self.part1@.take(4)),
                part2: crate::bytes::from_le32(self.part2@.take(4)),
                part3: crate::bytes::from_le32(self.part3@.take(4)),
                part4: crate::bytes::from_le32(self.part4@.take(4)),
            },
            peer_route_id: crate::bytes::from_le64(self.route@, 0),
        }
    }
}

/// The number in the first four of eight bytes, least significant first.
fn u32_from(bytes: &Vec<u8>) -> (r: u32)
    requires
        bytes@.len() == 8,
    ensures
        r == crate::bytes::from_le32(bytes@.take(4)),
{
    assert(bytes@.subrange(0, 4) =~= bytes@.take(4));
    read_le32(bytes.as_slice(), 0)
}

/// The seed that is made from random bytes.
pub fn seed_from(bytes: &SeedBytes) -> (r: GroupSeed)
    requires
        bytes.complete(),
    ensures
        r == bytes.seed(),
{
    GroupSeed {
        inst_id: Uuid {
            part1: u32_from(&bytes.part1),
            part2: u32_from(&bytes.part2),
            part3: u32_from(&bytes.part3),
            part4: u32_from(&bytes.part4),
        },
        peer_route_id: read_u64_le(bytes.route.as_slice(), 0),
    }
}

impl Default for RouteState {
    fn default() -> (r: Self)
        ensures
            r@ == Map::<Seq<char>, GroupView>::empty(),
    {
        RouteState::new()
    }
}

impl RouteState {
    /// The groups by name.
    pub closed spec fn view(&self) -> Map<Seq<char>, GroupView> {
        self.groups@.map_values(|g: RouteGroupData| g@)
    }

    /// No groups.
    pub fn new() -> (r: Self)
        ensures
            r@ == Map::<Seq<char>, GroupView>::empty(),
    {
        let r = RouteState { groups: NameMap::new() };
        assert(r@ =~= Map::<Seq<char>, GroupView>::empty());
        r
    }

    /// Eight random bytes.
    fn random_bytes_8() -> (r: Result<Vec<u8>, RandomUnavailable>)
        ensures
            r matches Ok(bytes) ==> bytes@.len() == 8,
    {
        get_random_bytes(8)
    }

    /// The bytes for a new group's seed, each eight drawn on their own.
    fn draw_seed_bytes() -> (r: Result<SeedBytes, RandomUnavailable>)
        ensures
            r matches Ok(bytes) ==> bytes.complete(),
    {
        let part1 = match Self::random_bytes_8() {
            Ok(bytes) => bytes,
            Err(e) => {
                return Err(e);
            },
        };
        let part2 = match Self::random_bytes_8() {
            Ok(bytes) => bytes,
            Err(e) => {
                return Err(e);
            },
        };
        let part3 = match Self::random_bytes_8() {
            Ok(bytes) => bytes,
            Err(e) => {
                return Err(e);
            },
        };
        let part4 = match Self::random_bytes_8() {
            Ok(bytes) => bytes,
            Err(e) => {
                return Err(e);
            },
        };
        let route = match Self::random_bytes_8() {
            Ok(bytes) => bytes,
            Err(e) => {
                return Err(e);
            },
        };
        Ok(SeedBytes { part1, part2, part3, part4, route })
    }

    /// Sets the group up with `seed` if there is none of this name.
    pub fn ensure_group_with(&mut self, group_key: &str, seed: GroupSeed)
        ensures
            final(self)@ == old(self)@.insert(
                group_key@,
                crate::route_model::group_at(old(self)@, group_key@, seed),
            ),
    {
        if !self.groups.contains_key(group_key) {
            self.put_group(group_key, RouteGroupData::fresh(seed));
        }
        assert(self@ =~= old(self)@.insert(
            group_key@,
            crate::route_model::group_at(old(self)@, group_key@, seed),
        ));
    }

    /// Sets the group up, with a random seed, if there is none of this name. Fails only where a
    /// seed is needed and the system gives no random bytes.
    pub fn ensure_group(&mut self, group_key: &str) -> (r: Result<(), RandomUnavailable>)
        ensures
            match r {
                Ok(()) => crate::route_model::changes_group(
                    old(self)@,
                    final(self)@,
                    group_key@,
                    |g: GroupView| g,
                ),
                Err(_) => !old(self)@.contains_key(group_key@) && final(self)@ == old(self)@,
            },
            old(self)@.contains_key(group_key@) ==> final(self)@ == old(self)@,
    {
        if self.groups.contains_key(group_key) {
            proof {
                let seed: GroupSeed = GroupSeed {
                    inst_id: Uuid { part1: 0, part2: 0, part3: 0, part4: 0 },
                    peer_route_id: 0,
                };
                assert(self@ =~= old(self)@.insert(
                    group_key@,
                    crate::route_model::group_at(old(self)@, group_key@, seed),
                ));
            }
            return Ok(());
        }
        match Self::draw_seed_bytes() {
            Ok(bytes) => {
                self.ensure_group_with(group_key, seed_from(&bytes));
                Ok(())
            },
            Err(e) => Err(e),
        }
    }

    /// Takes the group out of the map.
    fn take_group(&mut self, group_key: &str) -> (g: RouteGroupData)
        requires
            old(self)@.contains_key(group_key@),
        ensures
            g@ == old(self)@[group_key@],
            final(self)@ == old(self)@.remove(group_key@),
    {
        let taken = self.groups.remove(group_key);
        assert(self@ =~= old(self)@.remove(group_key@));
        match taken {
            Some(g) => g,
            None => RouteGroupData::fresh(
                GroupSeed {
                    inst_id: Uuid { part1: 0, part2: 0, part3: 0, part4: 0 },
                    peer_route_id: 0,
                },
            ),
        }
    }

    /// Puts the group into the map.
    fn put_group(&mut self, group_key: &str, g: RouteGroupData)
        ensures
            final(self)@ == old(self)@.insert(group_key@, g@),
    {
        let ghost view = g@;
        self.groups.insert(group_key.to_owned(), g);
        assert(self@ =~= old(self)@.insert(group_key@, view));
    }

    /// The peer has connected.
    pub fn add_peer(&mut self, group_key: &str, peer_id: u32) -> (r: Result<(), RandomUnavailable>)
        ensures
            match r {
                Ok(()) => crate::route_model::changes_group(
                    old(self)@,
                    final(self)@,
                    group_key@,
                    |g: GroupView| g.with_peer(peer_id),
                ),
                Err(_) => !old(self)@.contains_key(group_key@) && final(self)@ == old(self)@,
            },
    {
        if let Err(e) = self.ensure_group(group_key) {
            return Err(e);
        }
        let ghost mid = self@;
        let mut g = self.take_group(group_key);
        g.add_peer(peer_id);
        self.put_group(group_key, g);
        proof {
            change_after_ensure(
                old(self)@,
                mid,
                self@,
                group_key@,
                |g: GroupView| g.with_peer(peer_id),
            );
        }
        Ok(())
    }

    /// The peer has left, at `now_ms`. What it reported of its connections is kept.
    pub fn remove_peer(
        &mut self,
        group_key: &str,
        peer_id: u32,
        now_ms: u64,
    ) -> (r: Result<(), RandomUnavailable>)
        ensures
            match r {
                Ok(()) => crate::route_model::changes_group(
                    old(self)@,
                    final(self)@,
                    group_key@,
                    |g: GroupView| g.without_peer(peer_id, now_ms),
                ),
                Err(_) => !old(self)@.contains_key(group_key@) && final(self)@ == old(self)@,
            },
    {
        if let Err(e) = self.ensure_group(group_key) {
            return Err(e);
        }
        let ghost mid = self@;
        let mut g = self.take_group(group_key);
        g.remove_peer(peer_id, now_ms);
        self.put_group(group_key, g);
        proof {
            change_after_ensure(
                old(self)@,
                mid,
                self@,
                group_key@,
                |g: GroupView| g.without_peer(peer_id, now_ms),
            );
        }
        Ok(())
    }

    /// The peer has acknowledged the session that it calls `their_session_id`.
    pub fn on_route_session_ack(
        &mut self,
        group_key: &str,
        peer_id: u32,
        their_session_id: u64,
        we_are_initiator: bool,
        now_ms: u64,
    ) -> (r: Result<(), RandomUnavailable>)
        ensures
            match r {
                Ok(()) => crate::route_model::changes_group(
                    old(self)@,
                    final(self)@,
                    group_key@,
                    |g: GroupView| g.with_ack(peer_id, their_session_id, we_are_initiator, now_ms),
                ),
                Err(_) => !old(self)@.contains_key(group_key@) && final(self)@ == old(self)@,
            },
    {
        if let Err(e) = self.ensure_group(group_key) {
            return Err(e);
        }
        let ghost mid = self@;
        let mut g = self.take_group(group_key);
        g.on_route_session_ack(peer_id, their_session_id, we_are_initiator, now_ms);
        self.put_group(group_key, g);
        proof {
            change_after_ensure(
                old(self)@,
                mid,
                self@,
                group_key@,
                |g: GroupView| g.with_ack(peer_id, their_session_id, we_are_initiator, now_ms),
            );
        }
        Ok(())
    }

    /// Raises the version of the relay's own info by one.
    pub fn bump_my_info_version(
        &mut self,
        group_key: &str,
    ) -> (r: Result<(), RandomUnavailable>)
        ensures
            match r {
                Ok(()) => crate::route_model::changes_group(
                    old(self)@,
                    final(self)@,
                    group_key@,
                    |g: GroupView| g.with_my_info(g.my_info),
                ),
                Err(_) => !old(self)@.contains_key(group_key@) && final(self)@ == old(self)@,
            },
    {
        if let Err(e) = self.ensure_group(group_key) {
            return Err(e);
        }
        let ghost mid = self@;
        let mut g = self.take_group(group_key);
        g.bump_my_info_version();
        self.put_group(group_key, g);
        proof {
            change_after_ensure(
                old(self)@,
                mid,
                self@,
                group_key@,
                |g: GroupView| g.with_my_info(g.my_info),
            );
        }
        Ok(())
    }

    /// Drops the connections of and to peers that left more than `stale_threshold_ms` ago.
    pub fn cleanup_stale_peer_connections(
        &mut self,
        group_key: &str,
        stale_threshold_ms: u64,
        now_ms: u64,
    ) -> (r: Result<(), RandomUnavailable>)
        ensures
            match r {
                Ok(()) => crate::route_model::changes_group(
                    old(self)@,
                    final(self)@,
                    group_key@,
                    |g: GroupView| g.cleaned(now_ms, stale_threshold_ms),
                ),
                Err(_) => !old(self)@.contains_key(group_key@) && final(self)@ == old(self)@,
            },
    {
        if let Err(e) = self.ensure_group(group_key) {
            return Err(e);
        }
        let ghost mid = self@;
        let mut g = self.take_group(group_key);
        g.cleanup_stale_peer_connections(now_ms, stale_threshold_ms);
        self.put_group(group_key, g);
        proof {
            change_after_ensure(
                old(self)@,
                mid,
                self@,
                group_key@,
                |g: GroupView| g.cleaned(now_ms, stale_threshold_ms),
            );
        }
        Ok(())
    }

    /// The connection version of the peer, or 1 where there is none.
    pub fn get_peer_conn_version(&self, group_key: &str, peer_id: u32) -> (r: u32)
        ensures
            r == (if self@.contains_key(group_key@) {
                crate::route_model::get_or(
                    self@[group_key@].peer_conn_versions,
                    peer_id,
                    1u32,
                )
            } else {
                1
            }),
    {
        match self.groups.get(group_key) {
            Some(g) => match g.peer_conn_versions.get(&peer_id) {
                Some(v) => *v,
                None => 1,
            },
            None => 1,
        }
    }

    /// Whether an info about the peer is known in the group.
    pub fn knows_peer_info(&self, group_key: &str, peer_id: u32) -> (r: bool)
        ensures
            r == (self@.contains_key(group_key@) && self@[group_key@].peer_infos.contains_key(
                peer_id,
            )),
    {
        match self.groups.get(group_key) {
            Some(g) => g.peer_infos.contains_key(&peer_id),
            None => false,
        }
    }

    /// The connected peers of the group, in increasing order.
    pub fn get_peer_ids_in_group(&self, group_key: &str) -> (r: Vec<u32>)
        ensures
            r@ == crate::route_model::members(self@, group_key@),
            self@.contains_key(group_key@) ==> crate::route_model::lists(
                r@,
                self@[group_key@].peers,
            ),
    {
        match self.groups.get(group_key) {
            Some(g) => ids_of(&g.peers),
            None => Vec::new(),
        }
    }

    /// An info about the peer came in, decoded or with the reason why it cannot be. Returns
    /// whether it said anything new.
    pub fn update_peer_info(
        &mut self,
        group_key: &str,
        peer_id: u32,
        info: Result<RoutePeerInfo, String>,
    ) -> (r: Result<bool, RouteError>)
        ensures
            match (info, r) {
                (Ok(i), Ok(changed)) => exists|seed: GroupSeed|
                    {
                        let g = #[trigger] crate::route_model::group_at(
                            old(self)@,
                            group_key@,
                            seed,
                        );
                        &&& final(self)@ == old(self)@.insert(group_key@, g.with_info(peer_id, i@))
                        &&& changed == g.is_news(peer_id, i@)
                    },
                (Ok(_), Err(RouteError::RandomUnavailable)) => !old(self)@.contains_key(group_key@)
                    && final(self)@ == old(self)@,
                (Err(e), Err(RouteError::Undecodable(t))) => t@
                    == "decode RoutePeerInfo failed: "@ + e@ && final(self)@ == old(self)@,
                _ => false,
            },
    {
        let info = match info {
            Ok(info) => info,
            Err(e) => {
                return Err(RouteError::Undecodable(joined("decode RoutePeerInfo failed: ", &e)));
            },
        };
        if let Err(_) = self.ensure_group(group_key) {
            return Err(RouteError::RandomUnavailable);
        }
        let ghost mid = self@;
        let ghost view = info@;
        let mut g = self.take_group(group_key);
        let changed = g.update_peer_info(peer_id, info);
        self.put_group(group_key, g);
        proof {
            let seed = seed_of_ensure(old(self)@, mid, group_key@);
            let g = crate::route_model::group_at(old(self)@, group_key@, seed);
            assert(self@ =~= old(self)@.insert(group_key@, g.with_info(peer_id, view)));
        }
        Ok(changed)
    }

    /// Sets a field of the relay's own info in the group, and raises the info's version.
    pub fn set_my_info_field(&mut self, group_key: &str, field: &str, value: &str) -> (r: Result<
        (),
        RouteError,
    >)
        ensures
            match r {
                Ok(()) => exists|seed: GroupSeed|
                    {
                        let g = #[trigger] crate::route_model::group_at(
                            old(self)@,
                            group_key@,
                            seed,
                        );
                        &&& g.my_info.with_field(field@, value@) is Ok
                        &&& final(self)@ == old(self)@.insert(
                            group_key@,
                            g.with_my_info(g.my_info.with_field(field@, value@)->Ok_0),
                        )
                    },
                Err(RouteError::Refused(e)) => exists|seed: GroupSeed|
                    {
                        let g = #[trigger] crate::route_model::group_at(
                            old(self)@,
                            group_key@,
                            seed,
                        );
                        &&& g.my_info.with_field(field@, value@) == Err::<
                            RoutePeerInfoView,
                            Seq<char>,
                        >(e@)
                        &&& final(self)@ == old(self)@.insert(group_key@, g)
                    },
                Err(RouteError::RandomUnavailable) => !old(self)@.contains_key(group_key@)
                    && final(self)@ == old(self)@,
                Err(_) => false,
            },
    {
        if let Err(_) = self.ensure_group(group_key) {
            return Err(RouteError::RandomUnavailable);
        }
        let ghost mid = self@;
        let mut g = self.take_group(group_key);
        let outcome = g.set_my_info_field(field, value);
        self.put_group(group_key, g);
        proof {
            let seed = seed_of_ensure(old(self)@, mid, group_key@);
            assert(self@ =~= old(self)@.insert(group_key@, self@[group_key@]));
        }
        match outcome {
            Ok(()) => Ok(()),
            Err(e) => Err(RouteError::Refused(e)),
        }
    }

    /// Takes over the connections that a SyncRouteInfo request of `from_peer_id` reports, so that
    /// later updates speak of them. Returns whether they changed; a request that could not be
    /// decoded changes nothing.
    pub fn update_peer_connections_from_conn_info(
        &mut self,
        group_key: &str,
        from_peer_id: u32,
        request: &Result<SyncRouteInfoRequest, String>,
    ) -> (r: Result<bool, RandomUnavailable>)
        ensures
            match (request, r) {
                (Ok(req), Ok(changed)) => exists|seed: GroupSeed|
                    {
                        let g = #[trigger] crate::route_model::group_at(
                            old(self)@,
                            group_key@,
                            seed,
                        );
                        &&& final(self)@ == old(self)@.insert(
                            group_key@,
                            g.with_report(from_peer_id, req@.conn_info),
                        )
                        &&& changed == g.report_changes(from_peer_id, req@.conn_info)
                    },
                (Ok(_), Err(_)) => !old(self)@.contains_key(group_key@) && final(self)@ == old(
                    self,
                )@,
                (Err(_), Ok(changed)) => !changed && final(self)@ == old(self)@,
                (Err(_), Err(_)) => false,
            },
    {
        let req = match request {
            Ok(req) => req,
            Err(_) => {
                return Ok(false);
            },
        };
        if let Err(e) = self.ensure_group(group_key) {
            return Err(e);
        }
        let ghost mid = self@;
        let mut g = self.take_group(group_key);
        let changed = g.update_peer_connections(from_peer_id, &req.conn_info);
        self.put_group(group_key, g);
        proof {
            let seed = seed_of_ensure(old(self)@, mid, group_key@);
            let g = crate::route_model::group_at(old(self)@, group_key@, seed);
            assert(self@ =~= old(self)@.insert(
                group_key@,
                g.with_report(from_peer_id, req@.conn_info),
            ));
        }
        Ok(changed)
    }

    /// Draws up the SyncRouteInfo request that brings `target_peer_id` up to date, and records
    /// what it was sent.
    pub fn build_sync_route_info_request(
        &mut self,
        group_key: &str,
        target_peer_id: u32,
        server_session_id: u64,
        we_are_initiator: bool,
        force_full: bool,
        now_ms: u64,
    ) -> (r: Result<SyncRouteInfoRequest, RouteError>)
        ensures
            match r {
                Ok(req) => exists|seed: GroupSeed|
                    {
                        let g = #[trigger] crate::route_model::group_at(
                            old(self)@,
                            group_key@,
                            seed,
                        );
                        &&& g.lists_relevant(target_peer_id)
                        &&& g.update_fits(target_peer_id)
                        &&& req@ == g.update(
                            target_peer_id,
                            server_session_id,
                            we_are_initiator,
                            force_full,
                            now_ms,
                        )
                        &&& final(self)@ == old(self)@.insert(
                            group_key@,
                            g.after_update(target_peer_id, server_session_id, force_full, now_ms),
                        )
                    },
                Err(RouteError::TooManyPeers) => exists|seed: GroupSeed|
                    {
                        let g = #[trigger] crate::route_model::group_at(
                            old(self)@,
                            group_key@,
                            seed,
                        );
                        &&& g.lists_relevant(target_peer_id)
                        &&& !g.update_fits(target_peer_id)
                        &&& final(self)@ == old(self)@.insert(group_key@, g)
                    },
                Err(RouteError::RandomUnavailable) => !old(self)@.contains_key(group_key@)
                    && final(self)@ == old(self)@,
                Err(_) => false,
            },
    {
        if let Err(_) = self.ensure_group(group_key) {
            return Err(RouteError::RandomUnavailable);
        }
        let ghost mid = self@;
        let mut g = self.take_group(group_key);
        let outcome = g.build_sync_route_info_request(
            target_peer_id,
            server_session_id,
            we_are_initiator,
            force_full,
            now_ms,
        );
        self.put_group(group_key, g);
        proof {
            let seed = seed_of_ensure(old(self)@, mid, group_key@);
            assert(self@ =~= old(self)@.insert(group_key@, self@[group_key@]));
        }
        match outcome {
            Ok(req) => Ok(req),
            Err(_) => Err(RouteError::TooManyPeers),
        }
    }

    /// Takes over what a SyncRouteInfo request of `from_peer_id` says, and answers it.
    pub fn handle_sync_route_info_request(
        &mut self,
        group_key: &str,
        from_peer_id: u32,
        request: &Result<SyncRouteInfoRequest, String>,
        now_ms: u64,
    ) -> (r: Result<SyncRouteInfoResponse, RouteError>)
        ensures
            match (request, r) {
                (Ok(req), Ok(response)) => exists|seed: GroupSeed|
                    {
                        let g = #[trigger] crate::route_model::group_at(
                            old(self)@,
                            group_key@,
                            seed,
                        );
                        &&& response == g.response(from_peer_id, req@)
                        &&& final(self)@ == old(self)@.insert(
                            group_key@,
                            g.with_request(from_peer_id, req@, now_ms),
                        )
                    },
                (Ok(_), Err(RouteError::RandomUnavailable)) => !old(self)@.contains_key(group_key@)
                    && final(self)@ == old(self)@,
                (Err(e), Err(RouteError::Undecodable(t))) => t@
                    == "decode SyncRouteInfoRequest failed: "@ + e@ && final(self)@ == old(self)@,
                _ => false,
            },
    {
        let req = match request {
            Ok(req) => req,
            Err(e) => {
                return Err(
                    RouteError::Undecodable(joined("decode SyncRouteInfoRequest failed: ", e)),
                );
            },
        };
        if let Err(_) = self.ensure_group(group_key) {
            return Err(RouteError::RandomUnavailable);
        }
        let ghost mid = self@;
        let mut g = self.take_group(group_key);
        let response = g.handle_sync_route_info_request(from_peer_id, req, now_ms);
        self.put_group(group_key, g);
        proof {
            let seed = seed_of_ensure(old(self)@, mid, group_key@);
            assert(self@ =~= old(self)@.insert(group_key@, self@[group_key@]));
        }
        Ok(response)
    }

    /// Raises the connection versions of all peers of a group, and of the relay, by one.
    pub fn bump_all_conn_versions(g: &mut RouteGroupData)
        ensures
            final(g)@ == old(g)@.bumped(),
    {
        let mut all: BTreeSet<u32> = g.peers.clone();
        let keys = keys_of(&g.peer_infos);
        let mut i: usize = 0;
        while i < keys.len()
            invariant
                i <= keys@.len(),
                forall|id: u32| #[trigger]
                    all@.contains(id) <==> g.peers@.contains(id) || keys@.take(
                        i as int,
                    ).contains(id),
            decreases keys@.len() - i,
        {
            let ghost before = keys@.take(i as int);
            let ghost after = keys@.take(i + 1);
            assert forall|x: u32| #[trigger]
                after.contains(x) == (before.contains(x) || x == keys@[i as int]) by {
                if before.contains(x) {
                    let k = choose|k: int| 0 <= k < before.len() && before[k] == x;
                    assert(after[k] == x);
                }
                assert(after[i as int] == keys@[i as int]);
            }
            all.insert(keys[i]);
            i = i + 1;
        }
        assert(keys@.take(keys@.len() as int) =~= keys@);
        assert forall|id: u32| #[trigger] all@.contains(id) == g@.tracks(id) by {
            assert(keys@.to_set().contains(id) == g.peer_infos@.contains_key(id));
        }
        let ids = ids_of(&all);
        let ghost base = g.peer_conn_versions@;
        assert(ids@.no_duplicates());
        assert(raised(base, ids@.take(0)) =~= base);
        let mut k: usize = 0;
        while k < ids.len()
            invariant
                k <= ids@.len(),
                ids@.no_duplicates(),
                g.peer_conn_versions@ == raised(base, ids@.take(k as int)),
                g@ == (GroupView { peer_conn_versions: g.peer_conn_versions@, ..old(g)@ }),
            decreases ids@.len() - k,
        {
            proof {
                raised_step(base, ids@, k as int);
            }
            let id = ids[k];
            let v: u32 = match g.peer_conn_versions.get(&id) {
                Some(v) => *v,
                None => 1,
            };
            let _ = g.peer_conn_versions.insert(id, v.wrapping_add(1));
            k = k + 1;
        }
        assert(ids@.take(ids@.len() as int) =~= ids@);
        assert forall|id: u32| #[trigger] ids@.contains(id) == old(g)@.tracks(id) by {
            assert(ids@.to_set().contains(id) == all@.contains(id));
        }
        assert(g.peer_conn_versions@ =~= old(g)@.tracked_versions_raised());
        let mine: u32 = match g.peer_conn_versions.get(&MY_PEER_ID) {
            Some(v) => *v,
            None => 1,
        };
        let _ = g.peer_conn_versions.insert(MY_PEER_ID, mine.wrapping_add(1));
    }
}

} // verus!
