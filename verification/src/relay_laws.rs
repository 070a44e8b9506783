//! What holds of a relay room whatever its sockets do.

use vstd::prelude::*;

use crate::constants::{PacketType, MY_PEER_ID};
use crate::proto::RpcPacketView;
use crate::relay_room::{DeliveryView, Recipient, WsAttachment};
use crate::route_model::{GroupSeed, GroupView};

verus! {

/// A packet never crosses from one group to another: where both ends have a group, it is the same.
pub proof fn packets_stay_in_their_group(
    sockets: Seq<Option<WsAttachment>>,
    source: WsAttachment,
    to: u32,
    i: int,
)
    requires
        crate::relay_room::forwards_to(sockets, Some(source), to, i),
    ensures
        sockets[i] is Some,
        sockets[i]->0.peer_id == to,
        source.group_key@.len() > 0 && sockets[i]->0.group_key@.len() > 0
            ==> sockets[i]->0.group_key@ == source.group_key@,
{
}

/// A packet goes to at most one socket.
pub proof fn packets_have_one_target(
    sockets: Seq<Option<WsAttachment>>,
    source: Option<WsAttachment>,
    to: u32,
    i: int,
    j: int,
)
    requires
        crate::relay_room::forwards_to(sockets, source, to, i),
        crate::relay_room::forwards_to(sockets, source, to, j),
    ensures
        i == j,
{
    assert(crate::relay_room::is_socket_of(sockets[i], to));
    assert(crate::relay_room::is_socket_of(sockets[j], to));
}

/// A broadcast reaches only sockets of its group, never the peer that it leaves out, and names the
/// peer of each socket in the packet's header.
pub proof fn broadcasts_stay_in_the_group(
    before: Map<Seq<char>, GroupView>,
    after: Map<Seq<char>, GroupView>,
    sockets: Seq<Option<WsAttachment>>,
    group_key: Seq<char>,
    exclude: u32,
    now_ms: u64,
    sent: Seq<DeliveryView>,
    k: int,
)
    requires
        crate::relay_room::broadcasts(
            before,
            after,
            sockets,
            group_key,
            exclude,
            now_ms,
            sent,
        ),
        0 <= k < sent.len(),
        sockets.len() <= usize::MAX,
    ensures
        sent[k].recipient is Socket,
        sent[k].recipient->0 < sockets.len(),
        crate::relay_room::hears(sockets[sent[k].recipient->0 as int], group_key, exclude),
        sent[k].to_peer == sockets[sent[k].recipient->0 as int]->0.peer_id,
        sent[k].packet_type == PacketType::RpcReq,
    decreases sockets.len(),
{
    if sockets.len() > 0 {
        let rest = sockets.drop_last();
        if !crate::relay_room::hears(sockets.last(), group_key, exclude) {
            broadcasts_stay_in_the_group(
                before,
                after,
                rest,
                group_key,
                exclude,
                now_ms,
                sent,
                k,
            );
            assert(rest[sent[k].recipient->0 as int] == sockets[sent[k].recipient->0 as int]);
        } else {
            let place = (sockets.len() - 1) as usize;
            let (mid, early) = choose|mid: Map<Seq<char>, GroupView>, early: Seq<DeliveryView>|
                crate::relay_room::broadcasts(
                    before,
                    mid,
                    rest,
                    group_key,
                    exclude,
                    now_ms,
                    early,
                ) && #[trigger] crate::relay_room::broadcast_step(
                    mid,
                    after,
                    sockets.last()->0,
                    place,
                    now_ms,
                    early,
                    sent,
                );
            if k < early.len() {
                broadcasts_stay_in_the_group(
                    before,
                    mid,
                    rest,
                    group_key,
                    exclude,
                    now_ms,
                    early,
                    k,
                );
                assert(sent[k] == early[k]);
                assert(rest[sent[k].recipient->0 as int] == sockets[sent[k].recipient->0 as int]);
            }
        }
    }
}

/// A broadcast reaches each socket that hears it exactly once, unless the group's peers are too many
/// for an update to that peer; the updates are sent in the order of the sockets. Whether they are too
/// many does not depend on the seed of a group that has to be set up.
pub proof fn broadcasts_reach_each_socket_once(
    before: Map<Seq<char>, GroupView>,
    after: Map<Seq<char>, GroupView>,
    sockets: Seq<Option<WsAttachment>>,
    group_key: Seq<char>,
    exclude: u32,
    now_ms: u64,
    sent: Seq<DeliveryView>,
    seed: GroupSeed,
    i: int,
)
    requires
        crate::relay_room::broadcasts(
            before,
            after,
            sockets,
            group_key,
            exclude,
            now_ms,
            sent,
        ),
        sockets.len() <= usize::MAX,
        0 <= i < sockets.len(),
        crate::relay_room::hears(sockets[i], group_key, exclude),
    ensures
        (exists|k: int|
            0 <= k < sent.len() && (#[trigger] sent[k]).recipient == Recipient::Socket(i as usize))
            <==> crate::route_model::group_at(before, group_key, seed).update_fits(
            sockets[i]->0.peer_id,
        ),
        forall|a: int, b: int|
            0 <= a < b < sent.len() ==> (#[trigger] sent[a]).recipient->0 < (
            #[trigger] sent[b]).recipient->0,
{
    broadcast_deliveries_are_places(before, after, sockets, group_key, exclude, now_ms, sent);
    broadcast_deliveries_are_listed(
        before,
        after,
        sockets,
        group_key,
        exclude,
        now_ms,
        sent,
        seed,
        i,
    );
}

proof fn broadcast_deliveries_are_places(
    before: Map<Seq<char>, GroupView>,
    after: Map<Seq<char>, GroupView>,
    sockets: Seq<Option<WsAttachment>>,
    group_key: Seq<char>,
    exclude: u32,
    now_ms: u64,
    sent: Seq<DeliveryView>,
)
    requires
        crate::relay_room::broadcasts(
            before,
            after,
            sockets,
            group_key,
            exclude,
            now_ms,
            sent,
        ),
        sockets.len() <= usize::MAX,
    ensures
        forall|a: int|
            0 <= a < sent.len() ==> (#[trigger] sent[a]).recipient is Socket
                && sent[a].recipient->0 < sockets.len(),
        forall|a: int, b: int|
            0 <= a < b < sent.len() ==> (#[trigger] sent[a]).recipient->0 < (
            #[trigger] sent[b]).recipient->0,
    decreases sockets.len(),
{
    if sockets.len() > 0 {
        let rest = sockets.drop_last();
        if !crate::relay_room::hears(sockets.last(), group_key, exclude) {
            broadcast_deliveries_are_places(
                before,
                after,
                rest,
                group_key,
                exclude,
                now_ms,
                sent,
            );
        } else {
            let place = (sockets.len() - 1) as usize;
            let (mid, early) = choose|mid: Map<Seq<char>, GroupView>, early: Seq<DeliveryView>|
                crate::relay_room::broadcasts(
                    before,
                    mid,
                    rest,
                    group_key,
                    exclude,
                    now_ms,
                    early,
                ) && #[trigger] crate::relay_room::broadcast_step(
                    mid,
                    after,
                    sockets.last()->0,
                    place,
                    now_ms,
                    early,
                    sent,
                );
            broadcast_deliveries_are_places(
                before,
                mid,
                rest,
                group_key,
                exclude,
                now_ms,
                early,
            );
            assert forall|a: int| 0 <= a < early.len() implies #[trigger] sent[a] == early[a] by {}
            assert forall|a: int, b: int| 0 <= a < b < sent.len() implies (
            #[trigger] sent[a]).recipient->0 < (#[trigger] sent[b]).recipient->0 by {
                assert(sent[a] == early[a]);
                if b < early.len() {
                    assert(sent[b] == early[b]);
                }
            }
        }
    }
}

proof fn an_update_keeps_the_peers(
    before: Map<Seq<char>, GroupView>,
    after: Map<Seq<char>, GroupView>,
    att: WsAttachment,
    now_ms: u64,
    packet: Option<RpcPacketView>,
    seed: GroupSeed,
)
    requires
        crate::relay_room::updates_socket(before, after, att, att.peer_id, now_ms, packet),
    ensures
        crate::route_model::group_at(after, att.group_key@, seed).peers
            == crate::route_model::group_at(before, att.group_key@, seed).peers,
        packet is Some <==> crate::route_model::group_at(
            before,
            att.group_key@,
            seed,
        ).update_fits(att.peer_id),
{
    let ctx = choose|ctx: crate::peer_manager::WsPeerContext|
        {
            &&& #[trigger] crate::relay_room::context_of(att, ctx)
            &&& match packet {
                Some(p) => exists|transaction_id: u32| #[trigger]
                    crate::peer_manager::sends_update(
                        before,
                        after,
                        ctx,
                        att.peer_id,
                        true,
                        now_ms,
                        transaction_id,
                        p,
                    ),
                None => crate::peer_manager::cannot_update(before, after, ctx, att.peer_id),
            }
        };
    assert(ctx.group_key == att.group_key);
    let g = crate::route_model::group_at(before, att.group_key@, seed);
    assert forall|other: GroupSeed|
        (#[trigger] crate::route_model::group_at(before, att.group_key@, other)).peers
            == g.peers by {}
}

proof fn a_broadcast_keeps_the_peers(
    before: Map<Seq<char>, GroupView>,
    after: Map<Seq<char>, GroupView>,
    sockets: Seq<Option<WsAttachment>>,
    group_key: Seq<char>,
    exclude: u32,
    now_ms: u64,
    sent: Seq<DeliveryView>,
    seed: GroupSeed,
)
    requires
        crate::relay_room::broadcasts(
            before,
            after,
            sockets,
            group_key,
            exclude,
            now_ms,
            sent,
        ),
    ensures
        crate::route_model::group_at(after, group_key, seed).peers
            == crate::route_model::group_at(before, group_key, seed).peers,
    decreases sockets.len(),
{
    if sockets.len() > 0 {
        let rest = sockets.drop_last();
        if !crate::relay_room::hears(sockets.last(), group_key, exclude) {
            a_broadcast_keeps_the_peers(
                before,
                after,
                rest,
                group_key,
                exclude,
                now_ms,
                sent,
                seed,
            );
        } else {
            let place = (sockets.len() - 1) as usize;
            let att = sockets.last()->0;
            let (mid, early) = choose|mid: Map<Seq<char>, GroupView>, early: Seq<DeliveryView>|
                crate::relay_room::broadcasts(
                    before,
                    mid,
                    rest,
                    group_key,
                    exclude,
                    now_ms,
                    early,
                ) && #[trigger] crate::relay_room::broadcast_step(
                    mid,
                    after,
                    att,
                    place,
                    now_ms,
                    early,
                    sent,
                );
            a_broadcast_keeps_the_peers(
                before,
                mid,
                rest,
                group_key,
                exclude,
                now_ms,
                early,
                seed,
            );
            let packet = choose|packet: Option<RpcPacketView>| #[trigger]
                crate::relay_room::updates_socket(mid, after, att, att.peer_id, now_ms, packet);
            an_update_keeps_the_peers(mid, after, att, now_ms, packet, seed);
        }
    }
}

proof fn broadcast_deliveries_are_listed(
    before: Map<Seq<char>, GroupView>,
    after: Map<Seq<char>, GroupView>,
    sockets: Seq<Option<WsAttachment>>,
    group_key: Seq<char>,
    exclude: u32,
    now_ms: u64,
    sent: Seq<DeliveryView>,
    seed: GroupSeed,
    i: int,
)
    requires
        crate::relay_room::broadcasts(
            before,
            after,
            sockets,
            group_key,
            exclude,
            now_ms,
            sent,
        ),
        sockets.len() <= usize::MAX,
        0 <= i < sockets.len(),
        crate::relay_room::hears(sockets[i], group_key, exclude),
    ensures
        (exists|k: int|
            0 <= k < sent.len() && (#[trigger] sent[k]).recipient == Recipient::Socket(i as usize))
            <==> crate::route_model::group_at(before, group_key, seed).update_fits(
            sockets[i]->0.peer_id,
        ),
    decreases sockets.len(),
{
    let rest = sockets.drop_last();
    if !crate::relay_room::hears(sockets.last(), group_key, exclude) {
        assert(rest[i] == sockets[i]);
        broadcast_deliveries_are_listed(
            before,
            after,
            rest,
            group_key,
            exclude,
            now_ms,
            sent,
            seed,
            i,
        );
    } else {
        let place = (sockets.len() - 1) as usize;
        let att = sockets.last()->0;
        let (mid, early) = choose|mid: Map<Seq<char>, GroupView>, early: Seq<DeliveryView>|
            crate::relay_room::broadcasts(
                before,
                mid,
                rest,
                group_key,
                exclude,
                now_ms,
                early,
            ) && #[trigger] crate::relay_room::broadcast_step(
                mid,
                after,
                att,
                place,
                now_ms,
                early,
                sent,
            );
        let packet = choose|packet: Option<RpcPacketView>|
            {
                &&& #[trigger] crate::relay_room::updates_socket(
                    mid,
                    after,
                    att,
                    att.peer_id,
                    now_ms,
                    packet,
                )
                &&& sent == (match packet {
                    Some(p) => early.push(
                        DeliveryView {
                            recipient: Recipient::Socket(place),
                            to_peer: att.peer_id,
                            packet_type: PacketType::RpcReq,
                            packet: p,
                        },
                    ),
                    None => early,
                })
            };
        broadcast_deliveries_are_places(before, mid, rest, group_key, exclude, now_ms, early);
        if i < rest.len() {
            assert(rest[i] == sockets[i]);
            broadcast_deliveries_are_listed(
                before,
                mid,
                rest,
                group_key,
                exclude,
                now_ms,
                early,
                seed,
                i,
            );
            let to_i = Recipient::Socket(i as usize);
            if exists|k: int| 0 <= k < early.len() && (#[trigger] early[k]).recipient == to_i {
                let k = choose|k: int|
                    0 <= k < early.len() && (#[trigger] early[k]).recipient == to_i;
                assert(sent[k] == early[k]);
            }
            if exists|k: int| 0 <= k < sent.len() && (#[trigger] sent[k]).recipient == to_i {
                let k = choose|k: int|
                    0 <= k < sent.len() && (#[trigger] sent[k]).recipient == to_i;
                assert(k < early.len());
                assert(early[k] == sent[k]);
            }
        } else {
            a_broadcast_keeps_the_peers(
                before,
                mid,
                rest,
                group_key,
                exclude,
                now_ms,
                early,
                seed,
            );
            an_update_keeps_the_peers(mid, after, att, now_ms, packet, seed);
            assert(sockets[i] == sockets.last());
            let g = crate::route_model::group_at(before, group_key, seed);
            let h = crate::route_model::group_at(mid, group_key, seed);
            assert(h.peers == g.peers);
            assert(h.relevant(att.peer_id) == g.relevant(att.peer_id));
            if packet is Some {
                assert(sent[early.len() as int].recipient == Recipient::Socket(place));
            } else {
                assert forall|k: int| 0 <= k < sent.len() implies (#[trigger] sent[k]).recipient
                    != Recipient::Socket(i as usize) by {
                    assert(sent[k] == early[k]);
                }
            }
        }
    }
}

/// Waking up from hibernation changes nothing: the peers of all sockets are still connected.
pub proof fn waking_up_changes_nothing(
    before: Map<Seq<char>, GroupView>,
    after: Map<Seq<char>, GroupView>,
    sockets: Seq<Option<WsAttachment>>,
)
    requires
        crate::relay_room::takes_up_all(before, after, sockets),
        forall|i: int|
            0 <= i < sockets.len() ==> (#[trigger] sockets[i] matches Some(a) ==> a.peer_id == 0
                || crate::relay_room::is_member(before, a.group_key@, a.peer_id)),
    ensures
        after == before,
    decreases sockets.len(),
{
    if sockets.len() > 0 {
        let rest = sockets.drop_last();
        let mid = choose|mid: Map<Seq<char>, GroupView>|
            crate::relay_room::takes_up_all(before, mid, rest)
                && #[trigger] crate::relay_room::takes_up(mid, after, sockets.last());
        assert forall|i: int| 0 <= i < rest.len() implies (#[trigger] rest[i] matches Some(a)
            ==> a.peer_id == 0 || crate::relay_room::is_member(
            before,
            a.group_key@,
            a.peer_id,
        )) by {
            assert(rest[i] == sockets[i]);
        }
        waking_up_changes_nothing(before, mid, rest);
        assert(sockets[sockets.len() - 1] == sockets.last());
    }
}

proof fn members_stay(
    before: Map<Seq<char>, GroupView>,
    after: Map<Seq<char>, GroupView>,
    att: Option<WsAttachment>,
    key: Seq<char>,
    id: u32,
)
    requires
        crate::relay_room::takes_up(before, after, att),
        crate::relay_room::is_member(before, key, id),
    ensures
        crate::relay_room::is_member(after, key, id),
{
}

/// After a restart the peer of every socket that had its handshake is connected again.
pub proof fn restarting_restores_every_peer(
    before: Map<Seq<char>, GroupView>,
    after: Map<Seq<char>, GroupView>,
    sockets: Seq<Option<WsAttachment>>,
    i: int,
)
    requires
        crate::relay_room::takes_up_all(before, after, sockets),
        0 <= i < sockets.len(),
        sockets[i] is Some,
        sockets[i]->0.peer_id != 0,
    ensures
        crate::relay_room::is_member(after, sockets[i]->0.group_key@, sockets[i]->0.peer_id),
    decreases sockets.len(),
{
    let rest = sockets.drop_last();
    let mid = choose|mid: Map<Seq<char>, GroupView>|
        crate::relay_room::takes_up_all(before, mid, rest)
            && #[trigger] crate::relay_room::takes_up(mid, after, sockets.last());
    if i < rest.len() {
        restarting_restores_every_peer(before, mid, rest, i);
        assert(rest[i] == sockets[i]);
        members_stay(
            mid,
            after,
            sockets.last(),
            sockets[i]->0.group_key@,
            sockets[i]->0.peer_id,
        );
    }
}

/// A look at the sockets closes exactly those that have been silent for too long, each once, in
/// their order.
pub proof fn exactly_silent_sockets_are_closed(
    sockets: Seq<Option<WsAttachment>>,
    now_ms: int,
    i: int,
)
    requires
        0 <= i < sockets.len() <= usize::MAX,
    ensures
        crate::relay_room::dead_sockets(sockets, now_ms).contains(i as usize)
            <==> crate::relay_room::timed_out(sockets[i], now_ms),
        forall|a: int, b: int|
            0 <= a < b < crate::relay_room::dead_sockets(sockets, now_ms).len()
                ==> crate::relay_room::dead_sockets(sockets, now_ms)[a]
                < crate::relay_room::dead_sockets(sockets, now_ms)[b],
{
    dead_sockets_are_places(sockets, now_ms);
    dead_sockets_are_listed(sockets, now_ms, i);
}

proof fn dead_sockets_are_places(sockets: Seq<Option<WsAttachment>>, now_ms: int)
    requires
        sockets.len() <= usize::MAX,
    ensures
        ({
            let dead = crate::relay_room::dead_sockets(sockets, now_ms);
            &&& forall|a: int| 0 <= a < dead.len() ==> #[trigger] dead[a] < sockets.len()
            &&& forall|a: int, b: int| 0 <= a < b < dead.len() ==> dead[a] < dead[b]
        }),
    decreases sockets.len(),
{
    if sockets.len() > 0 {
        let rest = sockets.drop_last();
        dead_sockets_are_places(rest, now_ms);
        let early = crate::relay_room::dead_sockets(rest, now_ms);
        let dead = crate::relay_room::dead_sockets(sockets, now_ms);
        assert forall|a: int| 0 <= a < dead.len() implies #[trigger] dead[a] < sockets.len() by {
            if a < early.len() {
                assert(dead[a] == early[a]);
            }
        }
        assert forall|a: int, b: int| 0 <= a < b < dead.len() implies dead[a] < dead[b] by {
            assert(dead[a] == early[a]);
            if b < early.len() {
                assert(dead[b] == early[b]);
            }
        }
    }
}

proof fn dead_sockets_are_listed(sockets: Seq<Option<WsAttachment>>, now_ms: int, i: int)
    requires
        0 <= i < sockets.len() <= usize::MAX,
    ensures
        crate::relay_room::dead_sockets(sockets, now_ms).contains(i as usize)
            <==> crate::relay_room::timed_out(sockets[i], now_ms),
    decreases sockets.len(),
{
    let rest = sockets.drop_last();
    let early = crate::relay_room::dead_sockets(rest, now_ms);
    let dead = crate::relay_room::dead_sockets(sockets, now_ms);
    dead_sockets_are_places(rest, now_ms);
    if i < rest.len() {
        dead_sockets_are_listed(rest, now_ms, i);
        assert(rest[i] == sockets[i]);
        if early.contains(i as usize) {
            let k = choose|k: int| 0 <= k < early.len() && early[k] == i as usize;
            assert(dead[k] == i as usize);
        }
        if dead.contains(i as usize) {
            let k = choose|k: int| 0 <= k < dead.len() && dead[k] == i as usize;
            assert(k < early.len());
            assert(early[k] == i as usize);
        }
    } else {
        assert(sockets[i] == sockets.last());
        if crate::relay_room::timed_out(sockets.last(), now_ms) {
            assert(dead[dead.len() - 1] == i as usize);
        } else if dead.contains(i as usize) {
            let k = choose|k: int| 0 <= k < dead.len() && dead[k] == i as usize;
            assert(early[k] < rest.len());
        }
    }
}

/// A peer that had its handshake is connected and described, its group stays consistent, and the
/// relay's own info got two new versions.
pub proof fn handshakes_connect_their_peer(g: GroupView, id: u32, now_ms: u64)
    requires
        g.consistent(),
    ensures
        ({
            let after = crate::relay_room::welcomed(g, id, now_ms);
            &&& after.peers == g.peers.insert(id)
            &&& after.peer_infos.contains_key(id)
            &&& after.consistent()
            &&& after.my_info_version == g.my_info_version.wrapping_add(1).wrapping_add(1)
        }),
{
    crate::route_laws::groups_stay_consistent(g, crate::route_laws::GroupEvent::Joined { id });
    let g1 = g.with_peer(id);
    crate::route_laws::groups_stay_consistent(
        g1,
        crate::route_laws::GroupEvent::SelfDescribed { info: g.my_info },
    );
    let g2 = g1.with_my_info(g.my_info);
    let info = crate::relay_room::newcomer_info(id, now_ms);
    crate::route_laws::groups_stay_consistent(
        g2,
        crate::route_laws::GroupEvent::Described { id, info },
    );
    let g3 = g2.with_info(id, info);
    crate::route_laws::groups_stay_consistent(
        g3,
        crate::route_laws::GroupEvent::SelfDescribed { info: g3.my_info },
    );
}

/// A handshake and the close of its socket leave the group with the peers that it had without the
/// peer.
pub proof fn closing_undoes_the_handshake(g: GroupView, id: u32, joined_ms: u64, left_ms: u64)
    ensures
        ({
            let after = crate::relay_room::welcomed(g, id, joined_ms).without_peer(id, left_ms);
            &&& after.peers == g.peers.remove(id)
            &&& after.peer_infos == g.peer_infos.remove(id)
            &&& after.sessions == g.sessions.remove(id)
            &&& after.peer_connections == g.peer_connections
        }),
{
    let after = crate::relay_room::welcomed(g, id, joined_ms).without_peer(id, left_ms);
    assert(after.peers =~= g.peers.remove(id));
    assert(after.peer_infos =~= g.peer_infos.remove(id));
}

/// Messages for the relay are never passed on, and messages for others are not looked into: only
/// handshakes, pings, and calls and answers that are addressed to the relay stay.
pub proof fn only_relay_messages_stay(bytes: Seq<u8>)
    requires
        bytes.len() >= crate::constants::HEADER_SIZE,
    ensures
        ({
            let header = crate::packet::PacketHeader::read(bytes);
            let t = header.packet_type;
            (crate::relay_room::inbound_of(bytes) is Forward) <==> {
                &&& t != PacketType::HandShake.code()
                &&& t != PacketType::Ping.code()
                &&& (t == PacketType::RpcReq.code() || t == PacketType::RpcResp.code()) ==> {
                    &&& header.to_peer_id != 0
                    &&& header.to_peer_id != MY_PEER_ID
                }
            }
        }),
{
}

} // verus!
