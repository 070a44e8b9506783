//! What a relay room does with its sockets, in terms of what is attached to them.

use vstd::prelude::*;

use crate::constants::{PacketType, MY_PEER_ID};
use crate::peer_manager::WsPeerContext;
use crate::proto::{RoutePeerInfoView, RpcPacketView, Timestamp, Uuid};
use crate::relay_room::{
    AlarmStep, AlarmStepView, Delivery, DeliveryView, Inbound, Recipient, Sweep, UpdateDraw,
    WsAttachment,
};
use crate::route_model::{GroupSeed, GroupView};
use crate::rpc_handler::RpcActionView;

verus! {

// ---- Messages ----

/// What is done with a message goes by its length, the byte of its type and the four bytes of its
/// receiver alone. Handshakes and pings stay. Calls and answers stay if the receiver is 0 or the
/// relay. All else goes to the receiver.
pub proof fn messages_are_sorted_by_type_and_receiver(bytes: Seq<u8>)
    ensures
        ({
            let r = crate::relay_room::inbound_of(bytes);
            let t = bytes[8];
            let from = bytes[0] + 0x100 * bytes[1] + 0x1_0000 * bytes[2] + 0x100_0000 * bytes[3];
            let to = bytes[4] + 0x100 * bytes[5] + 0x1_0000 * bytes[6] + 0x100_0000 * bytes[7];
            let local = to == 0 || to == 10000001;
            if bytes.len() < 16 {
                r is TooShort
            } else if t == 2 {
                r is HandShake
            } else if t == 4 {
                r is Ping && r->Ping_from == from
            } else if t == 8 && local {
                r is RpcReq
            } else if t == 9 && local {
                r is RpcResp && r->RpcResp_from == from
            } else {
                r is Forward && r->to == to
            }
        }),
{
    if bytes.len() >= 16 {
        crate::message_laws::headers_are_read_from_their_places(bytes);
    }
}

/// Whether the socket `i` is the first whose peer is `to`.
pub open spec fn is_first_of(sockets: Seq<Option<WsAttachment>>, to: u32, i: int) -> bool {
    &&& 0 <= i < sockets.len()
    &&& sockets[i] is Some
    &&& sockets[i]->0.peer_id == to
    &&& forall|j: int|
        0 <= j < i ==> (#[trigger] sockets[j]) is None || sockets[j]->0.peer_id != to
}

/// A packet goes to the first socket of its receiver unless both that socket and the source have a
/// group and the groups differ. Nothing else that is attached to a socket matters, and no other
/// socket gets it.
pub proof fn packets_go_to_the_first_socket_of_their_receiver(
    sockets: Seq<Option<WsAttachment>>,
    source: Option<WsAttachment>,
    to: u32,
    i: int,
)
    ensures
        crate::relay_room::forwards_to(sockets, source, to, i) <==> is_first_of(sockets, to, i) && (
        source is None || source->0.group_key@.len() == 0 || sockets[i]->0.group_key@.len() == 0
            || source->0.group_key@ == sockets[i]->0.group_key@),
{
    if is_first_of(sockets, to, i) {
        assert forall|j: int| 0 <= j < i implies !crate::relay_room::is_socket_of(
            #[trigger] sockets[j],
            to,
        ) by {}
    }
    if crate::relay_room::forwards_to(sockets, source, to, i) {
        assert forall|j: int| 0 <= j < i implies (#[trigger] sockets[j]) is None
            || sockets[j]->0.peer_id != to by {
            assert(!crate::relay_room::is_socket_of(sockets[j], to));
        }
    }
}

/// Two sources with the same group, and two lists of sockets with the same peers and groups, are
/// forwarded alike, whatever else is attached.
pub proof fn forwarding_looks_at_peers_and_groups_alone(
    sockets: Seq<Option<WsAttachment>>,
    others: Seq<Option<WsAttachment>>,
    source: WsAttachment,
    other: WsAttachment,
    to: u32,
    i: int,
)
    requires
        sockets.len() == others.len(),
        source.group_key@ == other.group_key@,
        forall|j: int|
            #![trigger sockets[j]]
            #![trigger others[j]]
            0 <= j < sockets.len() ==> {
                &&& sockets[j] is Some <==> others[j] is Some
                &&& sockets[j] is Some ==> sockets[j]->0.peer_id == others[j]->0.peer_id
                    && sockets[j]->0.group_key@ == others[j]->0.group_key@
            },
    ensures
        crate::relay_room::forwards_to(sockets, Some(source), to, i)
            == crate::relay_room::forwards_to(others, Some(other), to, i),
{
    packets_go_to_the_first_socket_of_their_receiver(sockets, Some(source), to, i);
    packets_go_to_the_first_socket_of_their_receiver(others, Some(other), to, i);
    if is_first_of(sockets, to, i) {
        assert(is_first_of(others, to, i));
    }
    if is_first_of(others, to, i) {
        assert(is_first_of(sockets, to, i));
    }
}

/// A broadcast reaches a socket exactly if its peer is in the group and is not the one left out.
pub proof fn broadcasts_reach_the_others_of_the_group(
    sockets: Seq<Option<WsAttachment>>,
    att: Option<WsAttachment>,
    group_key: Seq<char>,
    exclude: u32,
)
    ensures
        crate::relay_room::hears(att, group_key, exclude) <==> att is Some && att->0.group_key@
            == group_key && att->0.peer_id != exclude,
        crate::relay_room::someone_hears(sockets, group_key, exclude) <==> exists|i: int|
            0 <= i < sockets.len() && (#[trigger] sockets[i]) is Some && sockets[i]->0.group_key@
                == group_key && sockets[i]->0.peer_id != exclude,
{
    if crate::relay_room::someone_hears(sockets, group_key, exclude) {
        let i = choose|i: int|
            0 <= i < sockets.len() && crate::relay_room::hears(
                #[trigger] sockets[i],
                group_key,
                exclude,
            );
        assert(sockets[i] is Some);
    }
    if exists|i: int|
        0 <= i < sockets.len() && (#[trigger] sockets[i]) is Some && sockets[i]->0.group_key@
            == group_key && sockets[i]->0.peer_id != exclude {
        let i = choose|i: int|
            0 <= i < sockets.len() && (#[trigger] sockets[i]) is Some && sockets[i]->0.group_key@
                == group_key && sockets[i]->0.peer_id != exclude;
        assert(crate::relay_room::hears(sockets[i], group_key, exclude));
    }
}

// ---- The look at the sockets ----

/// A socket is given up exactly if it had a message and that lies more than two minutes back, or
/// ahead of the clock; and it keeps its group, if it has one, exactly if it had a message and is not
/// given up.
pub proof fn sockets_time_out_after_two_minutes(
    att: Option<WsAttachment>,
    now_ms: int,
    key: Seq<char>,
)
    ensures
        ({
            let last = att->0.last_seen_ms;
            &&& crate::relay_room::timed_out(att, now_ms) <==> att is Some && last > 0 && (now_ms
                - last > 120_000 || last > now_ms)
            &&& crate::relay_room::keeps_group(att, now_ms, key) <==> att is Some && last > 0 && 0
                <= now_ms - last <= 120_000 && key.len() > 0 && att->0.group_key@ == key
        }),
{
}

/// The sockets to close are places of sockets, each of one that is given up, and every such place is
/// among them.
pub proof fn closed_sockets_are_those_given_up(
    sockets: Seq<Option<WsAttachment>>,
    now_ms: int,
    place: usize,
)
    requires
        sockets.len() <= usize::MAX,
    ensures
        crate::relay_room::dead_sockets(sockets, now_ms).contains(place) <==> {
            &&& place < sockets.len()
            &&& sockets[place as int] is Some
            &&& sockets[place as int]->0.last_seen_ms > 0
            &&& now_ms - sockets[place as int]->0.last_seen_ms > 120_000
                || sockets[place as int]->0.last_seen_ms > now_ms
        },
    decreases sockets.len(),
{
    let dead = crate::relay_room::dead_sockets(sockets, now_ms);
    if sockets.len() == 0 {
        assert(!dead.contains(place));
    } else {
        let rest = sockets.drop_last();
        let n = (sockets.len() - 1) as usize;
        let early = crate::relay_room::dead_sockets(rest, now_ms);
        closed_sockets_are_those_given_up(rest, now_ms, place);
        assert(sockets[n as int] == sockets.last());
        if place < n {
            assert(rest[place as int] == sockets[place as int]);
        }
        if early.contains(place) {
            let k = choose|k: int| 0 <= k < early.len() && early[k] == place;
            assert(dead[k] == place);
        }
        if dead.contains(place) {
            let k = choose|k: int| 0 <= k < dead.len() && dead[k] == place;
            if k < early.len() {
                assert(early[k] == place);
                assert(early.contains(place));
            }
        }
        if crate::relay_room::timed_out(sockets.last(), now_ms) {
            assert(dead[dead.len() - 1] == n);
        }
    }
}

/// What follows a look at the sockets: first each socket to close, then, exactly if a socket is left,
/// the next look is scheduled, the groups are cleaned, and each group is refreshed; all in order and
/// nothing more.
pub proof fn looks_are_followed_by_their_steps(sweep: Sweep, i: int)
    ensures
        ({
            let steps = crate::relay_room::steps_after(sweep);
            let c = sweep.close@.len() as int;
            let k = sweep.group_keys@.len() as int;
            &&& steps.len() == (if sweep.alive == 0 {
                c
            } else {
                c + 2 + k
            })
            &&& 0 <= i < c ==> steps[i] == AlarmStepView::Close(sweep.close@[i])
            &&& sweep.alive > 0 ==> {
                &&& steps[c] == AlarmStepView::Schedule
                &&& steps[c + 1] == AlarmStepView::CleanGroups
                &&& 0 <= i < k ==> steps[c + 2 + i] == AlarmStepView::Refresh(
                    sweep.group_keys@[i]@,
                )
            }
        }),
{
}

/// Steps and deliveries are spoken of one by one, with all that they hold.
pub proof fn steps_and_deliveries_are_seen_whole(
    steps: Seq<AlarmStep>,
    list: Seq<Delivery>,
    i: int,
)
    ensures
        crate::relay_room::steps_of(steps).len() == steps.len(),
        0 <= i < steps.len() ==> {
            let seen = crate::relay_room::steps_of(steps)[i];
            &&& steps[i] matches AlarmStep::Close(n) ==> seen == AlarmStepView::Close(n)
            &&& steps[i] is Schedule ==> seen is Schedule
            &&& steps[i] is CleanGroups ==> seen is CleanGroups
            &&& steps[i] matches AlarmStep::Refresh(key) ==> seen == AlarmStepView::Refresh(key@)
        },
        crate::relay_room::deliveries_of(list).len() == list.len(),
        0 <= i < list.len() ==> crate::relay_room::deliveries_of(list)[i] == (DeliveryView {
            recipient: list[i].recipient,
            to_peer: list[i].to_peer,
            packet_type: list[i].packet_type,
            packet: list[i].packet@,
        }),
{
}

/// The times that a room goes by: it looks at its sockets every half minute, and keeps what peers
/// that left reported for ten minutes.
pub proof fn rooms_go_by_fixed_times(now_ms: u64)
    ensures
        now_ms + crate::relay_room::CLEANUP_INTERVAL_MS == now_ms + 30_000,
        now_ms + crate::relay_room::STALE_P2P_THRESHOLD_MS == now_ms + 600_000,
        now_ms + crate::relay_room::SOCKET_TIMEOUT_MS == now_ms + 120_000,
{
}

/// Cleaning groups drops, in each of them, the connections of and to peers that left more than ten
/// minutes ago, and nothing else; other groups stay as they are.
pub proof fn cleaning_drops_links_after_ten_minutes(
    before: Map<Seq<char>, GroupView>,
    after: Map<Seq<char>, GroupView>,
    keys: Seq<String>,
    now_ms: u64,
    key: Seq<char>,
)
    requires
        crate::relay_room::cleans_all(before, after, keys, now_ms),
        before.contains_key(key),
    ensures
        after.contains_key(key),
        (forall|i: int| 0 <= i < keys.len() ==> (#[trigger] keys[i])@ != key) ==> after[key]
            == before[key],
        (exists|i: int| 0 <= i < keys.len() && (#[trigger] keys[i])@ == key) ==> {
            let (g, h) = (before[key], after[key]);
            let stale = |id: u32|
                g.peer_removed_at.contains_key(id) && now_ms as int - g.peer_removed_at[id] as int
                    > 600_000;
            &&& forall|a: u32, b: u32|
                #![trigger crate::group_laws::links_on_record(h.peer_connections, a).contains(b)]
                crate::group_laws::links_on_record(h.peer_connections, a).contains(b)
                    <==> crate::group_laws::links_on_record(g.peer_connections, a).contains(b)
                    && !stale(a) && !stale(b)
            &&& forall|id: u32| #[trigger]
                h.peer_removed_at.contains_key(id) <==> g.peer_removed_at.contains_key(id)
                    && !stale(id)
            &&& forall|id: u32| #[trigger]
                h.peer_removed_at.contains_key(id) ==> h.peer_removed_at[id]
                    == g.peer_removed_at[id]
            &&& h.peers == g.peers
            &&& h.peer_infos == g.peer_infos
            &&& h.sessions == g.sessions
            &&& h.peer_conn_versions == g.peer_conn_versions
            &&& h.my_info == g.my_info
            &&& h.my_info_version == g.my_info_version
        },
    decreases keys.len(),
{
    if keys.len() > 0 {
        let rest = keys.drop_last();
        let last = keys.last()@;
        let mid = choose|mid: Map<Seq<char>, GroupView>|
            crate::relay_room::cleans_all(before, mid, rest, now_ms)
                && #[trigger] crate::relay_room::cleans_one(mid, after, last, now_ms);
        cleaning_drops_links_after_ten_minutes(before, mid, rest, now_ms, key);
        assert(keys[keys.len() - 1]@ == last);
        assert forall|i: int| 0 <= i < rest.len() implies #[trigger] rest[i] == keys[i] by {}
        let change = |g: GroupView| g.cleaned(now_ms, crate::relay_room::STALE_P2P_THRESHOLD_MS);
        crate::group_laws::changes_start_from_the_group_on_record(mid, after, last, change);
        if last == key {
            assert(after[key] == mid[key].cleaned(now_ms, 600_000));
            crate::group_laws::clean_up_takes_just_what_is_stale(mid[key], now_ms, 600_000);
            if exists|i: int| 0 <= i < rest.len() && (#[trigger] rest[i])@ == key {
            } else {
                assert(forall|i: int| 0 <= i < rest.len() ==> (#[trigger] rest[i])@ != key);
            }
        } else {
            assert(after[key] == mid[key]);
            if exists|i: int| 0 <= i < keys.len() && (#[trigger] keys[i])@ == key {
                let i = choose|i: int| 0 <= i < keys.len() && (#[trigger] keys[i])@ == key;
                assert(rest[i]@ == key);
            }
            if forall|i: int| 0 <= i < keys.len() ==> (#[trigger] keys[i])@ != key {
                assert forall|i: int| 0 <= i < rest.len() implies (#[trigger] rest[i])@ != key by {
                    assert(keys[i]@ != key);
                }
            }
        }
    }
}

// ---- Sockets and their peers ----

/// Whether `ctx` is the context of a connection: what is attached to its socket, with a default
/// network name and `session` where these are missing.
pub open spec fn speaks_for(att: WsAttachment, session: Seq<char>, ctx: WsPeerContext) -> bool {
    &&& ctx.peer_id == att.peer_id
    &&& ctx.group_key@ == att.group_key@
    &&& att.domain_name@.len() > 0 ==> ctx.domain_name@ == att.domain_name@
    &&& att.domain_name@.len() == 0 ==> ctx.domain_name@ == "public_server"@
    &&& att.server_session_id@.len() > 0 ==> ctx.server_session_id@ == att.server_session_id@
    &&& att.server_session_id@.len() == 0 ==> ctx.server_session_id@ == session
    &&& ctx.we_are_initiator == att.we_are_initiator
}

/// The context of a socket is what is attached to it; a session that is missing is the one given, or
/// some number.
pub proof fn contexts_hold_what_is_attached(
    att: WsAttachment,
    session: Seq<char>,
    ctx: WsPeerContext,
)
    ensures
        crate::relay_room::context_with(att, session, ctx) ==> speaks_for(att, session, ctx),
        crate::relay_room::context_of(att, ctx) ==> exists|n: u64|
            speaks_for(att, #[trigger] crate::text::decimal(n as nat), ctx),
{
    if crate::relay_room::context_of(att, ctx) {
        let n = choose|n: u64|
            crate::relay_room::context_with(att, #[trigger] crate::text::decimal(n as nat), ctx);
        assert(speaks_for(att, crate::text::decimal(n as nat), ctx));
    }
}

/// Whether some socket is that of the peer `id`, after its handshake, in the group `key`.
pub open spec fn has_socket(
    sockets: Seq<Option<WsAttachment>>,
    key: Seq<char>,
    id: u32,
) -> bool {
    exists|i: int|
        {
            &&& 0 <= i < sockets.len()
            &&& (#[trigger] sockets[i]) is Some
            &&& sockets[i]->0.peer_id != 0
            &&& sockets[i]->0.peer_id == id
            &&& sockets[i]->0.group_key@ == key
        }
}

proof fn sockets_grow(sockets: Seq<Option<WsAttachment>>, key: Seq<char>, id: u32)
    requires
        sockets.len() > 0,
    ensures
        has_socket(sockets, key, id) <==> has_socket(sockets.drop_last(), key, id) || (
        sockets.last() is Some && sockets.last()->0.peer_id != 0 && sockets.last()->0.peer_id == id
            && sockets.last()->0.group_key@ == key),
{
    let rest = sockets.drop_last();
    if has_socket(rest, key, id) {
        let i = choose|i: int|
            {
                &&& 0 <= i < rest.len()
                &&& (#[trigger] rest[i]) is Some
                &&& rest[i]->0.peer_id != 0
                &&& rest[i]->0.peer_id == id
                &&& rest[i]->0.group_key@ == key
            };
        assert(sockets[i] == rest[i]);
    }
    if has_socket(sockets, key, id) {
        let i = choose|i: int|
            {
                &&& 0 <= i < sockets.len()
                &&& (#[trigger] sockets[i]) is Some
                &&& sockets[i]->0.peer_id != 0
                &&& sockets[i]->0.peer_id == id
                &&& sockets[i]->0.group_key@ == key
            };
        if i < rest.len() {
            assert(rest[i] == sockets[i]);
        }
    }
    assert(sockets[sockets.len() - 1] == sockets.last());
}

/// Taking up the sockets of a room connects exactly the peers that have one, besides those that are
/// connected already; and leaves infos, sessions and connections of every group as they were.
pub proof fn restoring_connects_just_the_sockets_peers(
    before: Map<Seq<char>, GroupView>,
    after: Map<Seq<char>, GroupView>,
    sockets: Seq<Option<WsAttachment>>,
    key: Seq<char>,
    id: u32,
)
    requires
        crate::relay_room::takes_up_all(before, after, sockets),
    ensures
        after.contains_key(key) && after[key].peers.contains(id) <==> (before.contains_key(key)
            && before[key].peers.contains(id)) || has_socket(sockets, key, id),
        before.contains_key(key) ==> {
            &&& after.contains_key(key)
            &&& after[key].peer_infos == before[key].peer_infos
            &&& after[key].sessions == before[key].sessions
            &&& after[key].peer_connections == before[key].peer_connections
        },
    decreases sockets.len(),
{
    if sockets.len() > 0 {
        let rest = sockets.drop_last();
        let att = sockets.last();
        let mid = choose|mid: Map<Seq<char>, GroupView>|
            crate::relay_room::takes_up_all(before, mid, rest)
                && #[trigger] crate::relay_room::takes_up(mid, after, att);
        restoring_connects_just_the_sockets_peers(before, mid, rest, key, id);
        sockets_grow(sockets, key, id);
        if att is Some && att->0.peer_id != 0 && !crate::relay_room::is_member(
            mid,
            att->0.group_key@,
            att->0.peer_id,
        ) {
            let a = att->0;
            let change = |g: GroupView| g.with_peer(a.peer_id).with_my_info(g.my_info);
            crate::group_laws::changes_start_from_the_group_on_record(
                mid,
                after,
                a.group_key@,
                change,
            );
            assert(crate::route_model::changes_group(mid, after, a.group_key@, change));
            if !mid.contains_key(a.group_key@) {
                let seed = choose|seed: GroupSeed|
                    after == mid.insert(a.group_key@, change(#[trigger] GroupView::fresh(seed)));
                assert(after[a.group_key@] == change(GroupView::fresh(seed)));
            } else {
                assert(after[a.group_key@] == change(mid[a.group_key@]));
            }
        } else {
            assert(after == mid);
        }
    } else {
        assert(!has_socket(sockets, key, id));
    }
}

/// Taking up a socket connects its peer, and gives the relay's own info the next version, exactly if
/// the peer had its handshake and is not connected; else it changes nothing.
pub proof fn sockets_are_taken_up_once(
    before: Map<Seq<char>, GroupView>,
    after: Map<Seq<char>, GroupView>,
    att: Option<WsAttachment>,
) -> (g: GroupView)
    requires
        crate::relay_room::takes_up(before, after, att),
    ensures
        ({
            let key = att->0.group_key@;
            let id = att->0.peer_id;
            if att is Some && id != 0 && !(before.contains_key(key) && before[key].peers.contains(
                id,
            )) {
                let h = after[key];
                &&& crate::sync_laws::starts_from(before, key, g)
                &&& after == before.insert(key, h)
                &&& h.peers == g.peers.insert(id)
                &&& h.peer_conn_versions == g.with_peer(id).peer_conn_versions
                &&& h.peer_removed_at == g.peer_removed_at.remove(id)
                &&& h.my_info_version == g.my_info_version.wrapping_add(1)
                &&& h.my_info == (RoutePeerInfoView { version: h.my_info_version, ..g.my_info })
                &&& h.peer_infos == g.peer_infos
                &&& h.sessions == g.sessions
                &&& h.peer_connections == g.peer_connections
            } else {
                after == before
            }
        }),
{
    if att is Some && att->0.peer_id != 0 && !crate::relay_room::is_member(
        before,
        att->0.group_key@,
        att->0.peer_id,
    ) {
        let a = att->0;
        let key = a.group_key@;
        let change = |g: GroupView| g.with_peer(a.peer_id).with_my_info(g.my_info);
        assert(crate::route_model::changes_group(before, after, key, change));
        crate::group_laws::changes_start_from_the_group_on_record(before, after, key, change);
        if before.contains_key(key) {
            assert(after[key] == change(before[key]));
            before[key]
        } else {
            let seed = choose|seed: GroupSeed|
                after == before.insert(key, change(#[trigger] GroupView::fresh(seed)));
            assert(after[key] == change(GroupView::fresh(seed)));
            GroupView::fresh(seed)
        }
    } else {
        GroupView::fresh(arbitrary())
    }
}

/// Whether a peer is connected in a group, in terms of the group.
pub proof fn members_are_connected_peers(
    groups: Map<Seq<char>, GroupView>,
    key: Seq<char>,
    id: u32,
)
    ensures
        crate::relay_room::is_member(groups, key, id) <==> groups.contains_key(key)
            && groups[key].peers.contains(id),
        groups.contains_key(key) && crate::route_model::lists(
            crate::route_model::members(groups, key),
            groups[key].peers,
        ) ==> (crate::relay_room::is_member(groups, key, id) <==> crate::route_model::members(
            groups,
            key,
        ).contains(id)),
        !groups.contains_key(key) ==> crate::route_model::members(groups, key).len() == 0,
{
    let list = crate::route_model::members(groups, key);
    assert(list.to_set().contains(id) == list.contains(id));
}

/// A handshake connects its peer, describes it in version 1 unless it is described already, and
/// gives the relay's own info two new versions. It leaves sessions and connections as they were, and
/// raises connection versions once for a peer that was not connected, and once for one that was not
/// described.
pub proof fn handshakes_add_just_their_peer(g: GroupView, id: u32, now_ms: u64)
    ensures
        ({
            let after = crate::relay_room::welcomed(g, id, now_ms);
            let next = g.my_info_version.wrapping_add(1).wrapping_add(1);
            let info = RoutePeerInfoView {
                peer_id: id,
                inst_id: Some(Uuid { part1: 0, part2: 0, part3: 0, part4: 0 }),
                cost: 0,
                ipv4_addr: None,
                hostname: None,
                last_update: Some(Timestamp { seconds: (now_ms / 1000) as i64, nanos: 0 }),
                version: 1,
                easytier_version: Seq::empty(),
                feature_flag: None,
                peer_route_id: 0,
                network_length: 24,
                others: Seq::empty(),
            };
            let known = g.peer_infos.contains_key(id);
            let joined = g.with_peer(id);
            &&& after.peers == g.peers.insert(id)
            &&& after.peer_removed_at == g.peer_removed_at.remove(id)
            &&& after.sessions == g.sessions
            &&& after.peer_connections == g.peer_connections
            &&& after.my_info_version == next
            &&& after.my_info == (RoutePeerInfoView { version: next, ..g.my_info })
            &&& after.peer_infos == (if known && g.peer_infos[id].version > 0 {
                g.peer_infos
            } else {
                g.peer_infos.insert(id, info)
            })
            &&& known ==> after.peer_conn_versions == joined.peer_conn_versions
            &&& !known ==> crate::group_laws::all_raised(
                g.peers.insert(id),
                g.peer_infos.insert(id, info),
                joined.peer_conn_versions,
                after.peer_conn_versions,
            )
        }),
{
    let joined = g.with_peer(id).with_my_info(g.my_info);
    crate::group_laws::describing_records_just_the_info(
        joined,
        id,
        crate::relay_room::newcomer_info(id, now_ms),
    );
}

// ---- Updates ----

/// Whether nothing of the group `key` went lost between `before` and `after`: its peers, versions and
/// connections, what the relay says of itself, and every info on record are as they were, and so are
/// all other groups.
pub open spec fn keeps_all(
    before: Map<Seq<char>, GroupView>,
    after: Map<Seq<char>, GroupView>,
    key: Seq<char>,
) -> bool {
    &&& forall|other: Seq<char>|
        other != key ==> (#[trigger] after.contains_key(other) <==> before.contains_key(other)) && (
        before.contains_key(other) ==> after[other] == before[other])
    &&& before.contains_key(key) ==> {
        let (g, h) = (before[key], after[key]);
        &&& after.contains_key(key)
        &&& h.peers == g.peers
        &&& h.peer_conn_versions == g.peer_conn_versions
        &&& h.my_info == g.my_info
        &&& h.my_info_version == g.my_info_version
        &&& h.peer_connections == g.peer_connections
        &&& h.peer_removed_at == g.peer_removed_at
        &&& forall|id: u32| #[trigger]
            g.peer_infos.contains_key(id) ==> h.peer_infos.contains_key(id) && h.peer_infos[id]
                == g.peer_infos[id]
    }
}

/// An update over a socket is a full one, for the socket's group and under what is attached to it; it
/// takes nothing from what is on record. Where there is none, the group has too many peers.
pub proof fn socket_updates_are_full(
    before: Map<Seq<char>, GroupView>,
    after: Map<Seq<char>, GroupView>,
    att: WsAttachment,
    target: u32,
    now_ms: u64,
    packet: Option<RpcPacketView>,
) -> (r: (WsPeerContext, u64, u32))
    requires
        crate::relay_room::updates_socket(before, after, att, target, now_ms, packet),
    ensures
        speaks_for(att, crate::text::decimal(r.1 as nat), r.0),
        packet matches Some(p) ==> crate::peer_manager::sends_update(
            before,
            after,
            r.0,
            target,
            true,
            now_ms,
            r.2,
            p,
        ),
        packet is None ==> crate::peer_manager::cannot_update(before, after, r.0, target),
        keeps_all(before, after, att.group_key@),
{
    let ctx = choose|ctx: WsPeerContext|
        {
            &&& #[trigger] crate::relay_room::context_of(att, ctx)
            &&& match packet {
                Some(p) => exists|transaction_id: u32| #[trigger]
                    crate::peer_manager::sends_update(
                        before,
                        after,
                        ctx,
                        target,
                        true,
                        now_ms,
                        transaction_id,
                        p,
                    ),
                None => crate::peer_manager::cannot_update(before, after, ctx, target),
            }
        };
    contexts_hold_what_is_attached(att, Seq::empty(), ctx);
    let n = choose|n: u64| speaks_for(att, #[trigger] crate::text::decimal(n as nat), ctx);
    match packet {
        Some(p) => {
            let tid = choose|transaction_id: u32| #[trigger]
                crate::peer_manager::sends_update(
                    before,
                    after,
                    ctx,
                    target,
                    true,
                    now_ms,
                    transaction_id,
                    p,
                );
            updates_keep_all(before, after, ctx, target, true, now_ms, tid, p);
            (ctx, n, tid)
        },
        None => {
            let g = crate::update_laws::only_too_many_peers_prevent_an_update(
                before,
                after,
                ctx,
                target,
            );
            (ctx, n, 0)
        },
    }
}

proof fn updates_keep_all(
    before: Map<Seq<char>, GroupView>,
    after: Map<Seq<char>, GroupView>,
    ctx: WsPeerContext,
    target: u32,
    force_full: bool,
    now_ms: u64,
    transaction_id: u32,
    packet: RpcPacketView,
)
    requires
        crate::peer_manager::sends_update(
            before,
            after,
            ctx,
            target,
            force_full,
            now_ms,
            transaction_id,
            packet,
        ),
    ensures
        keeps_all(before, after, ctx.group_key@),
{
    let g = crate::update_laws::updates_go_out_as_calls(
        before,
        after,
        ctx,
        target,
        force_full,
        now_ms,
        transaction_id,
        packet,
    );
    let sid: u64 = match crate::text::parsed(ctx.server_session_id@, 0xffff_ffff_ffff_ffff) {
        Some(n) => n as u64,
        None => 0,
    };
    let h = after[ctx.group_key@];
    assert(h == g.after_update(target, sid, force_full, now_ms));
    crate::update_laws::updates_record_what_was_sent(g, target, sid, force_full, now_ms, 0);
    assert forall|id: u32| #[trigger] g.peer_infos.contains_key(id) implies h.peer_infos.contains_key(
        id,
    ) && h.peer_infos[id] == g.peer_infos[id] by {
        crate::update_laws::updates_keep_what_is_on_record(
            g,
            target,
            sid,
            force_full,
            now_ms,
            id,
        );
    }
}

/// An update with what was drawn is one under the session and the transaction that were drawn, where
/// the socket has no session of its own; it is a full one too.
pub proof fn drawn_updates_use_what_was_drawn(
    before: Map<Seq<char>, GroupView>,
    after: Map<Seq<char>, GroupView>,
    att: WsAttachment,
    target: u32,
    session: Seq<char>,
    transaction_id: u32,
    now_ms: u64,
    packet: Option<RpcPacketView>,
) -> (ctx: WsPeerContext)
    requires
        crate::relay_room::updates_socket_with(
            before,
            after,
            att,
            target,
            session,
            transaction_id,
            now_ms,
            packet,
        ),
    ensures
        speaks_for(att, session, ctx),
        packet matches Some(p) ==> crate::peer_manager::sends_update(
            before,
            after,
            ctx,
            target,
            true,
            now_ms,
            transaction_id,
            p,
        ),
        packet is None ==> crate::peer_manager::cannot_update(before, after, ctx, target),
{
    let ctx = choose|ctx: WsPeerContext|
        {
            &&& #[trigger] crate::relay_room::context_with(att, session, ctx)
            &&& match packet {
                Some(p) => crate::peer_manager::sends_update(
                    before,
                    after,
                    ctx,
                    target,
                    true,
                    now_ms,
                    transaction_id,
                    p,
                ),
                None => crate::peer_manager::cannot_update(before, after, ctx, target),
            }
        };
    contexts_hold_what_is_attached(att, session, ctx);
    ctx
}

proof fn nothing_lost_twice_is_nothing_lost(
    a: Map<Seq<char>, GroupView>,
    b: Map<Seq<char>, GroupView>,
    c: Map<Seq<char>, GroupView>,
    key: Seq<char>,
)
    requires
        keeps_all(a, b, key),
        keeps_all(b, c, key),
    ensures
        keeps_all(a, c, key),
{
    assert forall|other: Seq<char>| other != key implies {
        &&& #[trigger] c.contains_key(other) <==> a.contains_key(other)
        &&& a.contains_key(other) ==> c[other] == a[other]
    } by {
        assert(c.contains_key(other) <==> b.contains_key(other));
        assert(b.contains_key(other) <==> a.contains_key(other));
        if a.contains_key(other) {
            assert(b[other] == a[other]);
            assert(c[other] == b[other]);
        }
    }
    if a.contains_key(key) {
        assert forall|id: u32| #[trigger] a[key].peer_infos.contains_key(id) implies
            c[key].peer_infos.contains_key(id) && c[key].peer_infos[id] == a[key].peer_infos[id] by {
            assert(b[key].peer_infos.contains_key(id));
        }
    }
}

/// How an update came about: the groups before and after it, the context it was drawn up under, the
/// number that stands for a session that is missing, and the transaction.
pub struct UpdateOrigin {
    pub before: Map<Seq<char>, GroupView>,
    pub after: Map<Seq<char>, GroupView>,
    pub ctx: WsPeerContext,
    pub session: u64,
    pub transaction_id: u32,
}

/// Whether a delivery goes over a socket of the group `group_key`, to that socket's peer, and is a
/// full update that came about as `origin` says, from groups of which nothing went lost since
/// `start`.
pub open spec fn delivers_update(
    start: Map<Seq<char>, GroupView>,
    sockets: Seq<Option<WsAttachment>>,
    group_key: Seq<char>,
    now_ms: u64,
    d: DeliveryView,
    origin: UpdateOrigin,
) -> bool {
    let place = d.recipient->0 as int;
    &&& d.recipient is Socket
    &&& place < sockets.len()
    &&& sockets[place] is Some
    &&& sockets[place]->0.group_key@ == group_key
    &&& d.to_peer == sockets[place]->0.peer_id
    &&& d.packet_type == PacketType::RpcReq
    &&& keeps_all(start, origin.before, group_key)
    &&& speaks_for(sockets[place]->0, crate::text::decimal(origin.session as nat), origin.ctx)
    &&& crate::peer_manager::sends_update(
        origin.before,
        origin.after,
        origin.ctx,
        sockets[place]->0.peer_id,
        true,
        now_ms,
        origin.transaction_id,
        d.packet,
    )
}

proof fn deliveries_stay_in_longer_lists(
    start: Map<Seq<char>, GroupView>,
    sockets: Seq<Option<WsAttachment>>,
    group_key: Seq<char>,
    now_ms: u64,
    d: DeliveryView,
    origin: UpdateOrigin,
)
    requires
        sockets.len() > 0,
        delivers_update(start, sockets.drop_last(), group_key, now_ms, d, origin),
    ensures
        delivers_update(start, sockets, group_key, now_ms, d, origin),
{
    let place = d.recipient->0 as int;
    assert(sockets.drop_last()[place] == sockets[place]);
}

/// Every packet of a broadcast is a full update for the peer of its socket, in the socket's group and
/// under what is attached to the socket, drawn up from a group of which nothing went lost since the
/// broadcast began; and nothing is lost when it ends.
pub proof fn broadcasts_send_full_updates(
    before: Map<Seq<char>, GroupView>,
    after: Map<Seq<char>, GroupView>,
    sockets: Seq<Option<WsAttachment>>,
    group_key: Seq<char>,
    exclude: u32,
    now_ms: u64,
    sent: Seq<DeliveryView>,
    k: int,
) -> (origin: UpdateOrigin)
    requires
        crate::relay_room::broadcasts(
            before,
            after,
            sockets,
            group_key,
            exclude,
            now_ms,
            sent,
        ),
        sockets.len() <= usize::MAX,
    ensures
        keeps_all(before, after, group_key),
        0 <= k < sent.len() ==> delivers_update(
            before,
            sockets,
            group_key,
            now_ms,
            sent[k],
            origin,
        ),
    decreases sockets.len(),
{
    if sockets.len() == 0 {
        arbitrary()
    } else {
        let rest = sockets.drop_last();
        if !crate::relay_room::hears(sockets.last(), group_key, exclude) {
            let origin = broadcasts_send_full_updates(
                before,
                after,
                rest,
                group_key,
                exclude,
                now_ms,
                sent,
                k,
            );
            if 0 <= k < sent.len() {
                deliveries_stay_in_longer_lists(
                    before,
                    sockets,
                    group_key,
                    now_ms,
                    sent[k],
                    origin,
                );
            }
            origin
        } else {
            let place = (sockets.len() - 1) as usize;
            let att = sockets.last()->0;
            let (mid, early) = choose|mid: Map<Seq<char>, GroupView>, early: Seq<DeliveryView>|
                crate::relay_room::broadcasts(
                    before,
                    mid,
                    rest,
                    group_key,
                    exclude,
                    now_ms,
                    early,
                ) && #[trigger] crate::relay_room::broadcast_step(
                    mid,
                    after,
                    att,
                    place,
                    now_ms,
                    early,
                    sent,
                );
            let packet = choose|packet: Option<RpcPacketView>|
                {
                    &&& #[trigger] crate::relay_room::updates_socket(
                        mid,
                        after,
                        att,
                        att.peer_id,
                        now_ms,
                        packet,
                    )
                    &&& sent == (match packet {
                        Some(p) => early.push(
                            DeliveryView {
                                recipient: Recipient::Socket(place),
                                to_peer: att.peer_id,
                                packet_type: PacketType::RpcReq,
                                packet: p,
                            },
                        ),
                        None => early,
                    })
                };
            let origin = broadcasts_send_full_updates(
                before,
                mid,
                rest,
                group_key,
                exclude,
                now_ms,
                early,
                k,
            );
            let u = socket_updates_are_full(mid, after, att, att.peer_id, now_ms, packet);
            nothing_lost_twice_is_nothing_lost(before, mid, after, group_key);
            assert(sockets[place as int] == sockets.last());
            if 0 <= k < early.len() {
                assert(sent[k] == early[k]);
                deliveries_stay_in_longer_lists(
                    before,
                    sockets,
                    group_key,
                    now_ms,
                    sent[k],
                    origin,
                );
                origin
            } else {
                UpdateOrigin {
                    before: mid,
                    after,
                    ctx: u.0,
                    session: u.1,
                    transaction_id: u.2,
                }
            }
        }
    }
}

/// Each packet of a broadcast with what was drawn goes out under the transaction that was drawn for
/// its socket.
pub proof fn draws_go_to_their_sockets(
    before: Map<Seq<char>, GroupView>,
    after: Map<Seq<char>, GroupView>,
    sockets: Seq<Option<WsAttachment>>,
    draws: Seq<UpdateDraw>,
    group_key: Seq<char>,
    exclude: u32,
    now_ms: u64,
    sent: Seq<DeliveryView>,
    k: int,
)
    requires
        crate::relay_room::broadcasts_with(
            before,
            after,
            sockets,
            draws,
            group_key,
            exclude,
            now_ms,
            sent,
        ),
        sockets.len() <= usize::MAX,
        0 <= k < sent.len(),
    ensures
        sent[k].recipient is Socket,
        sent[k].recipient->0 < sockets.len(),
        sent[k].packet.transaction_id == draws[sent[k].recipient->0 as int].transaction_id,
    decreases sockets.len(),
{
    if sockets.len() > 0 {
        let rest = sockets.drop_last();
        if !crate::relay_room::hears(sockets.last(), group_key, exclude) {
            draws_go_to_their_sockets(
                before,
                after,
                rest,
                draws,
                group_key,
                exclude,
                now_ms,
                sent,
                k,
            );
        } else {
            let place = (sockets.len() - 1) as usize;
            let att = sockets.last()->0;
            let draw = draws[sockets.len() - 1];
            let (mid, early) = choose|mid: Map<Seq<char>, GroupView>, early: Seq<DeliveryView>|
                crate::relay_room::broadcasts_with(
                    before,
                    mid,
                    rest,
                    draws,
                    group_key,
                    exclude,
                    now_ms,
                    early,
                ) && #[trigger] crate::relay_room::broadcast_step_with(
                    mid,
                    after,
                    att,
                    place,
                    draw,
                    now_ms,
                    early,
                    sent,
                );
            let packet = choose|packet: Option<RpcPacketView>|
                {
                    &&& #[trigger] crate::relay_room::updates_socket_with(
                        mid,
                        after,
                        att,
                        att.peer_id,
                        draw.session@,
                        draw.transaction_id,
                        now_ms,
                        packet,
                    )
                    &&& sent == (match packet {
                        Some(p) => early.push(
                            DeliveryView {
                                recipient: Recipient::Socket(place),
                                to_peer: att.peer_id,
                                packet_type: PacketType::RpcReq,
                                packet: p,
                            },
                        ),
                        None => early,
                    })
                };
            if k < early.len() {
                draws_go_to_their_sockets(
                    before,
                    mid,
                    rest,
                    draws,
                    group_key,
                    exclude,
                    now_ms,
                    early,
                    k,
                );
                assert(sent[k] == early[k]);
            } else {
                let ctx = drawn_updates_use_what_was_drawn(
                    mid,
                    after,
                    att,
                    att.peer_id,
                    draw.session@,
                    draw.transaction_id,
                    now_ms,
                    packet,
                );
                let p = packet->0;
                let g = crate::update_laws::updates_go_out_as_calls(
                    mid,
                    after,
                    ctx,
                    att.peer_id,
                    true,
                    now_ms,
                    draw.transaction_id,
                    p,
                );
            }
        }
    }
}

// ---- Actions ----

/// What carrying out an action sends: an answer goes back to the caller as it is, a route update goes
/// back to the caller if it can be drawn up, a broadcast goes to the others of the group, and no
/// action sends nothing. Only updates and broadcasts change anything.
pub proof fn actions_send_what_they_say(
    before: Map<Seq<char>, GroupView>,
    after: Map<Seq<char>, GroupView>,
    sockets: Seq<Option<WsAttachment>>,
    att: WsAttachment,
    action: RpcActionView,
    now_ms: u64,
    sent: Seq<DeliveryView>,
)
    requires
        crate::relay_room::carries_out(before, after, sockets, att, action, now_ms, sent),
    ensures
        action is Nothing ==> after == before && sent.len() == 0,
        action matches RpcActionView::SendTo { peer_id, packet } ==> {
            &&& after == before
            &&& sent.len() == 1
            &&& sent[0].recipient == Recipient::Sender
            &&& sent[0].to_peer == att.peer_id
            &&& sent[0].packet_type == PacketType::RpcResp
            &&& sent[0].packet == packet
        },
        action matches RpcActionView::PushRouteUpdate { peer_id, group_key } ==> {
            &&& sent.len() <= 1
            &&& sent.len() == 1 ==> {
                &&& sent[0].recipient == Recipient::Sender
                &&& sent[0].to_peer == peer_id
                &&& sent[0].packet_type == PacketType::RpcReq
                &&& crate::relay_room::updates_socket(
                    before,
                    after,
                    att,
                    peer_id,
                    now_ms,
                    Some(sent[0].packet),
                )
            }
            &&& sent.len() == 0 ==> crate::relay_room::updates_socket(
                before,
                after,
                att,
                peer_id,
                now_ms,
                None,
            )
        },
        action matches RpcActionView::BroadcastRouteUpdate { group_key, exclude_peer_id }
            ==> crate::relay_room::broadcasts(
            before,
            after,
            sockets,
            group_key,
            exclude_peer_id,
            now_ms,
            sent,
        ),
{
}

/// Several actions are carried out one after the other, and what they send is sent in their order.
pub proof fn actions_are_carried_out_in_turn(
    before: Map<Seq<char>, GroupView>,
    after: Map<Seq<char>, GroupView>,
    sockets: Seq<Option<WsAttachment>>,
    att: WsAttachment,
    actions: Seq<RpcActionView>,
    now_ms: u64,
    sent: Seq<DeliveryView>,
) -> (r: (Map<Seq<char>, GroupView>, Seq<DeliveryView>, Seq<DeliveryView>))
    requires
        crate::relay_room::carries_out_all(before, after, sockets, att, actions, now_ms, sent),
    ensures
        actions.len() == 0 ==> after == before && sent.len() == 0,
        actions.len() > 0 ==> {
            &&& crate::relay_room::carries_out_all(
                before,
                r.0,
                sockets,
                att,
                actions.take(actions.len() - 1),
                now_ms,
                r.1,
            )
            &&& crate::relay_room::carries_out(
                r.0,
                after,
                sockets,
                att,
                actions[actions.len() - 1],
                now_ms,
                r.2,
            )
            &&& sent == r.1 + r.2
        },
{
    if actions.len() == 0 {
        (before, sent, sent)
    } else {
        assert(actions.take(actions.len() - 1) =~= actions.drop_last());
        let (mid, early, late) = choose|
            mid: Map<Seq<char>, GroupView>,
            early: Seq<DeliveryView>,
            late: Seq<DeliveryView>,
        |
            {
                &&& crate::relay_room::carries_out_all(
                    before,
                    mid,
                    sockets,
                    att,
                    actions.drop_last(),
                    now_ms,
                    early,
                )
                &&& #[trigger] crate::relay_room::carries_out(
                    mid,
                    after,
                    sockets,
                    att,
                    actions.last(),
                    now_ms,
                    late,
                )
                &&& sent == #[trigger] (early + late)
            };
        (mid, early, late)
    }
}

/// A newcomer is announced to the others of its group first, and is then brought up to date itself,
/// over its own socket, if that can be.
pub proof fn newcomers_are_announced_first(
    before: Map<Seq<char>, GroupView>,
    after: Map<Seq<char>, GroupView>,
    sockets: Seq<Option<WsAttachment>>,
    att: WsAttachment,
    now_ms: u64,
    sent: Seq<DeliveryView>,
) -> (r: (Map<Seq<char>, GroupView>, Seq<DeliveryView>))
    requires
        crate::relay_room::carries_out_all(
            before,
            after,
            sockets,
            att,
            crate::relay_room::announcement(att),
            now_ms,
            sent,
        ),
    ensures
        crate::relay_room::broadcasts(
            before,
            r.0,
            sockets,
            att.group_key@,
            att.peer_id,
            now_ms,
            r.1,
        ),
        sent.len() == r.1.len() || sent.len() == r.1.len() + 1,
        sent.take(r.1.len() as int) == r.1,
        crate::relay_room::updates_socket(
            r.0,
            after,
            att,
            att.peer_id,
            now_ms,
            if sent.len() > r.1.len() {
                Some(sent.last().packet)
            } else {
                None
            },
        ),
        sent.len() > r.1.len() ==> sent.last().recipient == Recipient::Sender
            && sent.last().to_peer == att.peer_id && sent.last().packet_type == PacketType::RpcReq,
{
    let actions = crate::relay_room::announcement(att);
    let (mid, early, late) = actions_are_carried_out_in_turn(
        before,
        after,
        sockets,
        att,
        actions,
        now_ms,
        sent,
    );
    let first = actions.take(1);
    let (start, none, told) = actions_are_carried_out_in_turn(
        before,
        mid,
        sockets,
        att,
        first,
        now_ms,
        early,
    );
    let (b, e, l) = actions_are_carried_out_in_turn(
        before,
        start,
        sockets,
        att,
        first.take(0),
        now_ms,
        none,
    );
    assert(none =~= Seq::empty());
    assert(early =~= told);
    actions_send_what_they_say(before, mid, sockets, att, first[0], now_ms, told);
    actions_send_what_they_say(mid, after, sockets, att, actions[1], now_ms, late);
    assert(sent.take(early.len() as int) =~= early);
    if late.len() == 1 {
        assert(sent.last() == late[0]);
    }
    (mid, early)
}

/// An action can fail for want of random bytes exactly if it is an update for one peer, or a
/// broadcast that reaches a socket.
pub proof fn only_updates_need_random_bytes(
    sockets: Seq<Option<WsAttachment>>,
    action: RpcActionView,
)
    ensures
        crate::relay_room::can_fail(sockets, action) <==> action is PushRouteUpdate || (
        action matches RpcActionView::BroadcastRouteUpdate { group_key, exclude_peer_id }
            && exists|i: int|
            0 <= i < sockets.len() && (#[trigger] sockets[i]) is Some && sockets[i]->0.group_key@
                == group_key && sockets[i]->0.peer_id != exclude_peer_id),
{
    if let RpcActionView::BroadcastRouteUpdate { group_key, exclude_peer_id } = action {
        broadcasts_reach_the_others_of_the_group(sockets, None, group_key, exclude_peer_id);
    }
}

/// Where carrying out actions breaks off, it does so at one that can fail, and exactly those before
/// it were carried out.
pub proof fn broken_off_actions_stop_at_one_that_can_fail(
    before: Map<Seq<char>, GroupView>,
    after: Map<Seq<char>, GroupView>,
    sockets: Seq<Option<WsAttachment>>,
    att: WsAttachment,
    actions: Seq<RpcActionView>,
    now_ms: u64,
) -> (r: (int, Seq<DeliveryView>))
    requires
        crate::relay_room::breaks_off_among(before, after, sockets, att, actions, now_ms),
    ensures
        0 <= r.0 < actions.len(),
        crate::relay_room::can_fail(sockets, actions[r.0]),
        crate::relay_room::carries_out_all(
            before,
            after,
            sockets,
            att,
            actions.take(r.0),
            now_ms,
            r.1,
        ),
{
    choose|i: int, sent: Seq<DeliveryView>|
        {
            &&& 0 <= i < actions.len()
            &&& #[trigger] crate::relay_room::carries_out_all(
                before,
                after,
                sockets,
                att,
                actions.take(i),
                now_ms,
                sent,
            )
            &&& crate::relay_room::can_fail(sockets, actions[i])
        }
}

} // verus!
