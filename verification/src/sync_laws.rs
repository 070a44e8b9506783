//! What a SyncRouteInfo call of a peer brings about, in terms of what it says and what was known.

use vstd::prelude::*;

use crate::constants::MY_PEER_ID;
use crate::proto::{
    PayloadView, RoutePeerInfoView, RpcBodyView, RpcCompressionInfo, RpcPacketView,
    RpcResponseView, SyncRequestView, SyncRouteInfoResponse, Timestamp,
};
use crate::route_model::{GroupSeed, GroupView};
use crate::rpc_handler::RpcActionView;

verus! {

/// Whether `g` is the group that an event for `key` starts from: the group of that name, or one that
/// was just set up.
pub open spec fn starts_from(
    before: Map<Seq<char>, GroupView>,
    key: Seq<char>,
    g: GroupView,
) -> bool {
    if before.contains_key(key) {
        g == before[key]
    } else {
        exists|seed: GroupSeed| g == #[trigger] GroupView::fresh(seed)
    }
}

/// The peer infos that a request holds.
pub open spec fn described_in(req: SyncRequestView) -> Seq<RoutePeerInfoView> {
    match req.peer_infos {
        Some(infos) => infos,
        None => Seq::empty(),
    }
}

/// Whether one of `infos` is about the peer `id`.
pub open spec fn speaks_of(infos: Seq<RoutePeerInfoView>, id: u32) -> bool {
    exists|i: int| 0 <= i < infos.len() && (#[trigger] infos[i]).peer_id == id
}

/// Whether the info at `i` is the last one about its peer.
pub open spec fn is_last_word(infos: Seq<RoutePeerInfoView>, i: int) -> bool {
    &&& 0 <= i < infos.len()
    &&& forall|j: int| i < j < infos.len() ==> (#[trigger] infos[j]).peer_id != infos[i].peer_id
}

/// Whether the info at `i` is about a peer of which an info was known, or came earlier in the list,
/// and has a higher version than all of these.
pub open spec fn outdates(
    known: Map<u32, RoutePeerInfoView>,
    infos: Seq<RoutePeerInfoView>,
    i: int,
) -> bool {
    let id = infos[i].peer_id;
    let version = infos[i].version;
    &&& 0 <= i < infos.len()
    &&& known.contains_key(id) || exists|j: int|
        0 <= j < i && (#[trigger] infos[j]).peer_id == id
    &&& known.contains_key(id) ==> known[id].version < version
    &&& forall|j: int|
        0 <= j < i && (#[trigger] infos[j]).peer_id == id ==> infos[j].version < version
}

proof fn speaking_grows(infos: Seq<RoutePeerInfoView>, id: u32)
    requires
        infos.len() > 0,
    ensures
        speaks_of(infos, id) <==> speaks_of(infos.drop_last(), id) || infos.last().peer_id == id,
{
    let rest = infos.drop_last();
    if speaks_of(rest, id) {
        let i = choose|i: int| 0 <= i < rest.len() && (#[trigger] rest[i]).peer_id == id;
        assert(infos[i].peer_id == id);
    }
    if speaks_of(infos, id) {
        let i = choose|i: int| 0 <= i < infos.len() && (#[trigger] infos[i]).peer_id == id;
        if i < rest.len() {
            assert(rest[i].peer_id == id);
        }
    }
    assert(infos[infos.len() - 1] == infos.last());
}

/// Infos that come in one after the other leave, of each peer, the one with the highest version; of
/// several with that version the one that came first, where what was known comes before all. They
/// change nothing but infos and connection versions.
pub proof fn the_highest_version_stays(g: GroupView, infos: Seq<RoutePeerInfoView>, id: u32)
    ensures
        ({
            let after = g.with_infos(infos);
            let stays = after.peer_infos[id];
            &&& after.peer_infos.contains_key(id) <==> g.peer_infos.contains_key(id) || speaks_of(
                infos,
                id,
            )
            &&& g.peer_infos.contains_key(id) ==> stays.version >= g.peer_infos[id].version
            &&& forall|i: int|
                0 <= i < infos.len() && (#[trigger] infos[i]).peer_id == id ==> stays.version
                    >= infos[i].version
            &&& after.peer_infos.contains_key(id) ==> {
                ||| g.peer_infos.contains_key(id) && stays == g.peer_infos[id]
                ||| {
                    &&& g.peer_infos.contains_key(id) ==> g.peer_infos[id].version < stays.version
                    &&& exists|i: int|
                        {
                            &&& 0 <= i < infos.len()
                            &&& (#[trigger] infos[i]).peer_id == id
                            &&& stays == infos[i]
                            &&& forall|j: int|
                                0 <= j < i && (#[trigger] infos[j]).peer_id == id
                                    ==> infos[j].version < stays.version
                        }
                }
            }
            &&& after.peers == g.peers
            &&& after.sessions == g.sessions
            &&& after.my_info == g.my_info
            &&& after.my_info_version == g.my_info_version
            &&& after.peer_connections == g.peer_connections
            &&& after.peer_removed_at == g.peer_removed_at
        }),
    decreases infos.len(),
{
    if infos.len() > 0 {
        let rest = infos.drop_last();
        let last = infos.last();
        let n = infos.len() - 1;
        the_highest_version_stays(g, rest, id);
        speaking_grows(infos, id);
        let mid = g.with_infos(rest);
        let after = g.with_infos(infos);
        assert(after == mid.with_info(last.peer_id, last));
        assert(infos[n] == last);
        assert forall|i: int| 0 <= i < infos.len() && (#[trigger] infos[i]).peer_id
            == id implies after.peer_infos[id].version >= infos[i].version by {
            if i < n {
                assert(rest[i] == infos[i]);
            }
        }
        if after.peer_infos.contains_key(id) {
            if last.peer_id == id && mid.is_news(id, last) {
                assert forall|j: int| 0 <= j < n && (#[trigger] infos[j]).peer_id == id implies
                    infos[j].version < last.version by {
                    assert(rest[j] == infos[j]);
                    assert(speaks_of(rest, id));
                }
                assert(infos[n].peer_id == id && after.peer_infos[id] == infos[n]);
            } else {
                assert(after.peer_infos[id] == mid.peer_infos[id]);
                if !(g.peer_infos.contains_key(id) && mid.peer_infos[id] == g.peer_infos[id]) {
                    let i = choose|i: int|
                        {
                            &&& 0 <= i < rest.len()
                            &&& (#[trigger] rest[i]).peer_id == id
                            &&& mid.peer_infos[id] == rest[i]
                            &&& forall|j: int|
                                0 <= j < i && (#[trigger] rest[j]).peer_id == id ==> rest[j].version
                                    < mid.peer_infos[id].version
                        };
                    assert(infos[i] == rest[i]);
                    assert forall|j: int| 0 <= j < i && (#[trigger] infos[j]).peer_id == id implies
                        infos[j].version < mid.peer_infos[id].version by {
                        assert(rest[j] == infos[j]);
                    }
                }
            }
        }
    }
}

proof fn newer_is_outdating(g: GroupView, infos: Seq<RoutePeerInfoView>, i: int)
    requires
        0 <= i < infos.len(),
    ensures
        g.newer_at(infos, i) <==> outdates(g.peer_infos, infos, i),
{
    let id = infos[i].peer_id;
    let early = infos.take(i);
    the_highest_version_stays(g, early, id);
    let known = g.with_infos(early).peer_infos;
    assert forall|j: int| 0 <= j < i implies #[trigger] early[j] == infos[j] by {}
    if speaks_of(early, id) {
        let j = choose|j: int| 0 <= j < early.len() && (#[trigger] early[j]).peer_id == id;
        assert(infos[j].peer_id == id);
    }
    if exists|j: int| 0 <= j < i && (#[trigger] infos[j]).peer_id == id {
        let j = choose|j: int| 0 <= j < i && (#[trigger] infos[j]).peer_id == id;
        assert(early[j].peer_id == id);
    }
    if g.newer_at(infos, i) {
        assert forall|j: int| 0 <= j < i && (#[trigger] infos[j]).peer_id == id implies
            infos[j].version < infos[i].version by {
            assert(early[j].peer_id == id);
        }
    }
    if outdates(g.peer_infos, infos, i) {
        if !(g.peer_infos.contains_key(id) && known[id] == g.peer_infos[id]) {
            let j = choose|j: int|
                {
                    &&& 0 <= j < early.len()
                    &&& (#[trigger] early[j]).peer_id == id
                    &&& known[id] == early[j]
                    &&& forall|k: int|
                        0 <= k < j && (#[trigger] early[k]).peer_id == id ==> early[k].version
                            < known[id].version
                };
            assert(infos[j].peer_id == id);
        }
    }
}

/// What counts as news of a call: an info about a peer, other than the relay, that is not connected;
/// a later version of an info that was known; or other connections, in whichever form they are
/// reported, than those on record.
pub proof fn news_is_what_others_do_not_know(
    g: GroupView,
    from: u32,
    req: SyncRequestView,
    now_ms: u64,
)
    ensures
        ({
            let infos = described_in(req);
            let after = g.synced(from, req, now_ms);
            g.sync_brings_news(from, req, now_ms) <==> {
                ||| exists|i: int|
                    0 <= i < infos.len() && (#[trigger] infos[i]).peer_id != MY_PEER_ID
                        && !g.peers.contains(infos[i].peer_id)
                ||| exists|i: int| #[trigger] outdates(g.peer_infos, infos, i)
                ||| crate::group_laws::links_on_record(g.peer_connections, from)
                    != crate::group_laws::links_on_record(after.peer_connections, from)
            }
        }),
{
    let infos = described_in(req);
    assert(infos == GroupView::infos_in(req));
    let g1 = g.with_ack(from, req.my_session_id, !req.is_initiator, now_ms);
    assert forall|i: int| 0 <= i < infos.len() implies #[trigger] g1.newer_at(infos, i) == outdates(
        g.peer_infos,
        infos,
        i,
    ) by {
        newer_is_outdating(g1, infos, i);
    }
    if exists|i: int| #[trigger] outdates(g.peer_infos, infos, i) {
        let i = choose|i: int| #[trigger] outdates(g.peer_infos, infos, i);
        assert(g1.newer_at(infos, i));
    }
    if g1.brings_newer(infos) {
        let i = choose|i: int| 0 <= i < infos.len() && #[trigger] g1.newer_at(infos, i);
        assert(outdates(g.peer_infos, infos, i));
    }
    let g2 = g1.with_infos(infos);
    the_highest_version_stays(g1, infos, 0);
    crate::group_laws::reports_replace_just_the_links(g2, from, req.conn_info);
    let g3 = g.before_answer(from, req, now_ms);
    assert(g3 == g2.with_report(from, req.conn_info));
    let after = g.synced(from, req, now_ms);
    assert(after.peer_connections == g3.peer_connections);
}

proof fn the_last_word_stays(
    g: GroupView,
    from: u32,
    infos: Seq<RoutePeerInfoView>,
    now_ms: u64,
    id: u32,
)
    ensures
        ({
            let after = g.infos_after(from, infos, now_ms);
            let taken = g.peers.contains(id) || id == from;
            &&& !taken || !speaks_of(infos, id) ==> {
                &&& after.contains_key(id) <==> g.peer_infos.contains_key(id)
                &&& after[id] == g.peer_infos[id]
            }
            &&& forall|i: int|
                #[trigger] is_last_word(infos, i) && infos[i].peer_id == id && taken ==> {
                    &&& after.contains_key(id)
                    &&& after[id] == RoutePeerInfoView {
                        last_update: Some(
                            Timestamp { seconds: (now_ms / 1000) as i64, nanos: 0 },
                        ),
                        ..infos[i]
                    }
                }
        }),
    decreases infos.len(),
{
    if infos.len() > 0 {
        let rest = infos.drop_last();
        let n = infos.len() - 1;
        the_last_word_stays(g, from, rest, now_ms, id);
        speaking_grows(infos, id);
        let taken = g.peers.contains(id) || id == from;
        let after = g.infos_after(from, infos, now_ms);
        assert forall|i: int|
            #[trigger] is_last_word(infos, i) && infos[i].peer_id == id && taken implies
            after.contains_key(id) && after[id] == (RoutePeerInfoView {
            last_update: Some(Timestamp { seconds: (now_ms / 1000) as i64, nanos: 0 }),
            ..infos[i]
        }) by {
            if i < n {
                assert(infos[n].peer_id != id);
                assert(rest[i] == infos[i]);
                assert forall|j: int| i < j < rest.len() implies (#[trigger] rest[j]).peer_id
                    != rest[i].peer_id by {
                    assert(rest[j] == infos[j]);
                }
                assert(is_last_word(rest, i));
            }
        }
    }
}

/// What a call leaves on record of each peer. Of a connected peer, and of the caller, it is the last
/// info about it in the call, with the time of the call; of another peer the info with the highest
/// version. What the call does not speak of stays as it was.
pub proof fn calls_update_the_infos(
    g: GroupView,
    from: u32,
    req: SyncRequestView,
    now_ms: u64,
    id: u32,
)
    ensures
        ({
            let infos = described_in(req);
            let after = g.synced(from, req, now_ms).peer_infos;
            let taken = g.peers.contains(id) || id == from;
            &&& !speaks_of(infos, id) ==> {
                &&& after.contains_key(id) <==> g.peer_infos.contains_key(id)
                &&& g.peer_infos.contains_key(id) ==> after[id] == g.peer_infos[id]
            }
            &&& forall|i: int|
                #[trigger] is_last_word(infos, i) && infos[i].peer_id == id && taken ==> {
                    &&& after.contains_key(id)
                    &&& after[id] == RoutePeerInfoView {
                        last_update: Some(
                            Timestamp { seconds: (now_ms / 1000) as i64, nanos: 0 },
                        ),
                        ..infos[i]
                    }
                }
            &&& speaks_of(infos, id) && !taken ==> {
                &&& after.contains_key(id)
                &&& g.peer_infos.contains_key(id) ==> after[id].version >= g.peer_infos[id].version
                &&& forall|i: int|
                    0 <= i < infos.len() && (#[trigger] infos[i]).peer_id == id
                        ==> after[id].version >= infos[i].version
                &&& (g.peer_infos.contains_key(id) && after[id] == g.peer_infos[id]) || exists|
                    i: int,
                |
                    0 <= i < infos.len() && (#[trigger] infos[i]).peer_id == id && after[id]
                        == infos[i]
            }
        }),
{
    let infos = described_in(req);
    let g1 = g.with_ack(from, req.my_session_id, !req.is_initiator, now_ms);
    the_highest_version_stays(g1, infos, id);
    let g3 = g.before_answer(from, req, now_ms);
    assert(infos == GroupView::infos_in(req));
    let s = g3.with_session(
        from,
        g3.session(from).requested(req.my_session_id, req.is_initiator, now_ms),
    );
    the_last_word_stays(s, from, infos, now_ms, id);
    assert(s.peers == g.peers);
    if req.peer_infos is None {
        assert(!speaks_of(infos, id));
        assert forall|i: int| !#[trigger] is_last_word(infos, i) by {}
    }
}

proof fn known_infos_are_not_new(g: GroupView, from: u32, infos: Seq<RoutePeerInfoView>)
    requires
        forall|i: int|
            0 <= i < infos.len() ==> g.peer_infos.contains_key((#[trigger] infos[i]).peer_id),
    ensures
        !g.brings_new_info(from, infos),
{
}

/// What a call changes besides infos and versions: the caller's session is the one that the call
/// names, with the other role, touched now; its connections are those to other connected peers that
/// the call reports, if it reports any; everything else stays.
pub proof fn calls_touch_just_their_caller(
    g: GroupView,
    from: u32,
    req: SyncRequestView,
    now_ms: u64,
)
    ensures
        ({
            let after = g.synced(from, req, now_ms);
            let s = after.sessions[from];
            let links = crate::group_laws::links_on_record(after.peer_connections, from);
            &&& after.sessions == g.sessions.insert(from, s)
            &&& crate::group_laws::names_session(
                crate::group_laws::session_on_record(g.sessions, from),
                s,
                req.my_session_id,
            )
            &&& s.we_are_initiator == !req.is_initiator
            &&& s.last_touch_ms == now_ms
            &&& req.conn_info is None ==> after.peer_connections == g.peer_connections
            &&& req.conn_info matches Some(c) ==> {
                &&& forall|p: u32| #[trigger]
                    links.contains(p) <==> crate::group_laws::says(c, from, p) && p != MY_PEER_ID
                        && p != from && g.peers.contains(p)
                &&& forall|other: u32|
                    other != from ==> (#[trigger] after.peer_connections.contains_key(other)
                        <==> g.peer_connections.contains_key(other)) && (
                    g.peer_connections.contains_key(other) ==> after.peer_connections[other]
                        == g.peer_connections[other])
            }
            &&& after.peers == g.peers
            &&& after.my_info == g.my_info
            &&& after.my_info_version == g.my_info_version
            &&& after.peer_removed_at == g.peer_removed_at
        }),
{
    let infos = described_in(req);
    assert(infos == GroupView::infos_in(req));
    let g1 = g.with_ack(from, req.my_session_id, !req.is_initiator, now_ms);
    the_highest_version_stays(g1, infos, 0);
    let g2 = g1.with_infos(infos);
    crate::group_laws::reports_replace_just_the_links(g2, from, req.conn_info);
    let g3 = g2.with_report(from, req.conn_info);
    assert(g3 == g.before_answer(from, req, now_ms));
    let after = g.synced(from, req, now_ms);
    assert(after.sessions =~= g.sessions.insert(from, after.sessions[from]));
}

/// A call raises connection versions only for what it brings: each peer of which no info was known,
/// and other connections than those on record. Where it brings neither, all versions stay.
pub proof fn calls_raise_versions_only_for_changes(
    g: GroupView,
    from: u32,
    req: SyncRequestView,
    now_ms: u64,
)
    ensures
        ({
            let infos = described_in(req);
            let after = g.synced(from, req, now_ms);
            let described = g.with_infos(infos);
            let links_changed = crate::group_laws::links_on_record(g.peer_connections, from)
                != crate::group_laws::links_on_record(after.peer_connections, from);
            &&& links_changed ==> crate::group_laws::all_raised(
                g.peers,
                described.peer_infos,
                described.peer_conn_versions,
                after.peer_conn_versions,
            )
            &&& !links_changed ==> after.peer_conn_versions == described.peer_conn_versions
            &&& (forall|i: int|
                0 <= i < infos.len() ==> g.peer_infos.contains_key((#[trigger] infos[i]).peer_id))
                ==> described.peer_conn_versions == g.peer_conn_versions
        }),
{
    let infos = described_in(req);
    assert(infos == GroupView::infos_in(req));
    let g1 = g.with_ack(from, req.my_session_id, !req.is_initiator, now_ms);
    sessions_do_not_matter(g, g1, infos);
    let g2 = g1.with_infos(infos);
    the_highest_version_stays(g1, infos, 0);
    crate::group_laws::reports_replace_just_the_links(g2, from, req.conn_info);
    let g3 = g2.with_report(from, req.conn_info);
    let s = g3.with_session(
        from,
        g3.session(from).requested(req.my_session_id, req.is_initiator, now_ms),
    );
    assert forall|i: int| 0 <= i < infos.len() implies s.peer_infos.contains_key(
        (#[trigger] infos[i]).peer_id,
    ) by {
        the_highest_version_stays(g1, infos, infos[i].peer_id);
        assert(speaks_of(infos, infos[i].peer_id));
    }
    known_infos_are_not_new(s, from, infos);
    if forall|i: int|
        0 <= i < infos.len() ==> g.peer_infos.contains_key((#[trigger] infos[i]).peer_id) {
        known_peers_raise_nothing(g, infos);
    }
}

proof fn sessions_do_not_matter(g: GroupView, h: GroupView, infos: Seq<RoutePeerInfoView>)
    requires
        h == (GroupView { sessions: h.sessions, ..g }),
    ensures
        h.with_infos(infos) == (GroupView { sessions: h.sessions, ..g.with_infos(infos) }),
    decreases infos.len(),
{
    if infos.len() > 0 {
        let rest = infos.drop_last();
        sessions_do_not_matter(g, h, rest);
        let a = g.with_infos(rest).with_info(infos.last().peer_id, infos.last());
        let b = h.with_infos(rest).with_info(infos.last().peer_id, infos.last());
        assert(b.peer_conn_versions =~= a.peer_conn_versions);
        assert(b =~= GroupView { sessions: h.sessions, ..a });
    }
}

proof fn known_peers_raise_nothing(g: GroupView, infos: Seq<RoutePeerInfoView>)
    requires
        forall|i: int|
            0 <= i < infos.len() ==> g.peer_infos.contains_key((#[trigger] infos[i]).peer_id),
    ensures
        g.with_infos(infos).peer_conn_versions == g.peer_conn_versions,
    decreases infos.len(),
{
    if infos.len() > 0 {
        let rest = infos.drop_last();
        assert forall|i: int| 0 <= i < rest.len() implies g.peer_infos.contains_key(
            (#[trigger] rest[i]).peer_id,
        ) by {
            assert(rest[i] == infos[i]);
        }
        known_peers_raise_nothing(g, rest);
        assert(infos[infos.len() - 1] == infos.last());
        the_highest_version_stays(g, rest, infos.last().peer_id);
    }
}

/// Of infos that come in one after the other each raises the connection versions exactly if it is
/// the first about its peer.
pub proof fn each_new_peer_raises_versions(g: GroupView, infos: Seq<RoutePeerInfoView>)
    ensures
        infos.len() == 0 ==> g.with_infos(infos).peer_conn_versions == g.peer_conn_versions,
        infos.len() > 0 ==> {
            let id = infos.last().peer_id;
            let early = g.with_infos(infos.drop_last());
            let after = g.with_infos(infos);
            if g.peer_infos.contains_key(id) || speaks_of(infos.drop_last(), id) {
                after.peer_conn_versions == early.peer_conn_versions
            } else {
                crate::group_laws::all_raised(
                    g.peers,
                    after.peer_infos,
                    early.peer_conn_versions,
                    after.peer_conn_versions,
                )
            }
        },
{
    if infos.len() > 0 {
        let rest = infos.drop_last();
        let id = infos.last().peer_id;
        the_highest_version_stays(g, rest, id);
        crate::group_laws::describing_records_just_the_info(g.with_infos(rest), id, infos.last());
    }
}

/// What a SyncRouteInfo request by itself brings about: the sender's session is the one that it
/// names, touched now, and a sender that calls itself the initiator takes that role. Of each
/// connected peer, and of the sender, the last info in the request is kept with the time of the
/// request. Versions are raised, once, exactly if one of these peers had no info. Nothing else
/// changes.
pub proof fn requests_are_taken_over(
    g: GroupView,
    from: u32,
    req: SyncRequestView,
    now_ms: u64,
    id: u32,
)
    ensures
        ({
            let infos = described_in(req);
            let after = g.with_request(from, req, now_ms);
            let old_session = crate::group_laws::session_on_record(g.sessions, from);
            let s = after.sessions[from];
            let taken = g.peers.contains(id) || id == from;
            let is_first = exists|i: int|
                {
                    &&& 0 <= i < infos.len()
                    &&& g.peers.contains((#[trigger] infos[i]).peer_id) || infos[i].peer_id == from
                    &&& !g.peer_infos.contains_key(infos[i].peer_id)
                };
            &&& after.sessions == g.sessions.insert(from, s)
            &&& crate::group_laws::names_session(old_session, s, req.my_session_id)
            &&& s.we_are_initiator == (!req.is_initiator && old_session.we_are_initiator)
            &&& s.last_touch_ms == now_ms
            &&& !taken || !speaks_of(infos, id) ==> {
                &&& after.peer_infos.contains_key(id) <==> g.peer_infos.contains_key(id)
                &&& after.peer_infos[id] == g.peer_infos[id]
            }
            &&& forall|i: int|
                #[trigger] is_last_word(infos, i) && infos[i].peer_id == id && taken ==> {
                    &&& after.peer_infos.contains_key(id)
                    &&& after.peer_infos[id] == RoutePeerInfoView {
                        last_update: Some(
                            Timestamp { seconds: (now_ms / 1000) as i64, nanos: 0 },
                        ),
                        ..infos[i]
                    }
                }
            &&& if is_first {
                crate::group_laws::all_raised(
                    g.peers,
                    after.peer_infos,
                    g.peer_conn_versions,
                    after.peer_conn_versions,
                )
            } else {
                after.peer_conn_versions == g.peer_conn_versions
            }
            &&& after.peers == g.peers
            &&& after.my_info == g.my_info
            &&& after.my_info_version == g.my_info_version
            &&& after.peer_connections == g.peer_connections
            &&& after.peer_removed_at == g.peer_removed_at
        }),
{
    let infos = described_in(req);
    let s = g.with_session(
        from,
        g.session(from).requested(req.my_session_id, req.is_initiator, now_ms),
    );
    the_last_word_stays(s, from, infos, now_ms, id);
    if req.peer_infos is None {
        assert(!speaks_of(infos, id));
        assert forall|i: int| !#[trigger] is_last_word(infos, i) by {}
    }
    let is_first = exists|i: int|
        {
            &&& 0 <= i < infos.len()
            &&& g.peers.contains((#[trigger] infos[i]).peer_id) || infos[i].peer_id == from
            &&& !g.peer_infos.contains_key(infos[i].peer_id)
        };
    assert(is_first == s.brings_new_info(from, infos)) by {
        if is_first {
            let i = choose|i: int|
                {
                    &&& 0 <= i < infos.len()
                    &&& g.peers.contains((#[trigger] infos[i]).peer_id) || infos[i].peer_id == from
                    &&& !g.peer_infos.contains_key(infos[i].peer_id)
                };
            assert(s.accepts_info(from, infos[i].peer_id));
        }
    }
}

/// The answer to a request claims the other role, and names the session that the relay has opened
/// with the sender, or 1 where it has opened none.
pub proof fn answers_name_a_session(g: GroupView, from: u32, req: SyncRequestView)
    ensures
        g.response(from, req) == (SyncRouteInfoResponse {
            is_initiator: !req.is_initiator,
            session_id: match crate::group_laws::session_on_record(
                g.sessions,
                from,
            ).my_session_id {
                Some(sid) => sid,
                None => 1,
            },
            error: None,
        }),
{
}

/// What is told of infos that came in: peers were discovered exactly if one is about a peer, other
/// than the relay, that is not connected; and something is newer exactly if one outdates what was
/// known. Only their group changes, and none where there are none.
pub proof fn incoming_infos_are_told_apart(
    before: Map<Seq<char>, GroupView>,
    after: Map<Seq<char>, GroupView>,
    key: Seq<char>,
    infos: Seq<RoutePeerInfoView>,
    news: crate::peer_manager::InfoNews,
) -> (g: GroupView)
    requires
        crate::peer_manager::takes_infos(before, after, key, infos, news),
    ensures
        starts_from(before, key, g),
        infos.len() > 0 ==> after == before.insert(key, g.with_infos(infos)),
        infos.len() == 0 ==> after == before,
        news.discovered <==> exists|i: int|
            0 <= i < infos.len() && (#[trigger] infos[i]).peer_id != MY_PEER_ID
                && !g.peers.contains(infos[i].peer_id),
        news.newer <==> exists|i: int| #[trigger] outdates(g.peer_infos, infos, i),
{
    let seed = choose|seed: GroupSeed|
        {
            let g = #[trigger] crate::route_model::group_at(before, key, seed);
            infos.len() > 0 ==> {
                &&& after == before.insert(key, g.with_infos(infos))
                &&& news.discovered == g.brings_strangers(infos)
                &&& news.newer == g.brings_newer(infos)
            }
        };
    if infos.len() == 0 {
        assert(crate::route_model::group_at(before, key, arbitrary()).peers
            == crate::route_model::group_at(before, key, arbitrary()).peers);
    }
    let g = crate::route_model::group_at(before, key, seed);
    if !before.contains_key(key) {
        assert(g == GroupView::fresh(seed));
    }
    assert forall|i: int| 0 <= i < infos.len() implies #[trigger] g.newer_at(infos, i) == outdates(
        g.peer_infos,
        infos,
        i,
    ) by {
        newer_is_outdating(g, infos, i);
    }
    if exists|i: int| #[trigger] outdates(g.peer_infos, infos, i) {
        let i = choose|i: int| #[trigger] outdates(g.peer_infos, infos, i);
        assert(g.newer_at(infos, i));
    }
    if g.brings_newer(infos) {
        let i = choose|i: int| 0 <= i < infos.len() && #[trigger] g.newer_at(infos, i);
        assert(outdates(g.peer_infos, infos, i));
    }
    g
}

/// What is done after a call: the caller is answered under its own transaction, then brought up to
/// date; and exactly if the call brought news, among it any change of the caller's connections,
/// the other peers of the caller's group are told. No other group changes.
pub proof fn calls_are_answered_and_news_is_passed_on(
    before: Map<Seq<char>, GroupView>,
    after: Map<Seq<char>, GroupView>,
    packet: RpcPacketView,
    peer_id: u32,
    group_key: Seq<char>,
    req: SyncRequestView,
    now_ms: u64,
    actions: Seq<RpcActionView>,
) -> (g: GroupView)
    requires
        crate::rpc_handler::syncs(
            before,
            after,
            packet,
            peer_id,
            group_key,
            req,
            now_ms,
            actions,
        ),
    ensures
        starts_from(before, group_key, g),
        after == before.insert(group_key, g.synced(peer_id, req, now_ms)),
        2 <= actions.len() <= 3,
        actions[0] == (RpcActionView::SendTo {
            peer_id,
            packet: RpcPacketView {
                from_peer: MY_PEER_ID,
                to_peer: peer_id,
                transaction_id: packet.transaction_id,
                descriptor: packet.descriptor,
                body: RpcBodyView::Response(
                    RpcResponseView {
                        response: PayloadView::SyncRouteInfoResponse(
                            SyncRouteInfoResponse {
                                is_initiator: !req.is_initiator,
                                session_id: match crate::group_laws::session_on_record(
                                    g.sessions,
                                    peer_id,
                                ).my_session_id {
                                    Some(sid) => sid,
                                    None => 1,
                                },
                                error: None,
                            },
                        ),
                        error: None,
                        runtime_us: 0,
                    },
                ),
                is_request: false,
                total_pieces: 1,
                piece_idx: 0,
                trace_id: packet.trace_id,
                compression_info: Some(RpcCompressionInfo { algo: 1, accepted_algo: 1 }),
            },
        }),
        actions[1] == (RpcActionView::PushRouteUpdate { peer_id, group_key }),
        actions.len() == 3 ==> actions[2] == (RpcActionView::BroadcastRouteUpdate {
            group_key,
            exclude_peer_id: peer_id,
        }),
        actions.len() == 3 <==> {
            let infos = described_in(req);
            ||| exists|i: int|
                0 <= i < infos.len() && (#[trigger] infos[i]).peer_id != MY_PEER_ID
                    && !g.peers.contains(infos[i].peer_id)
            ||| exists|i: int| #[trigger] outdates(g.peer_infos, infos, i)
            ||| crate::group_laws::links_on_record(g.peer_connections, peer_id)
                != crate::group_laws::links_on_record(
                after[group_key].peer_connections,
                peer_id,
            )
        },
{
    let seed = choose|seed: GroupSeed|
        {
            let g = #[trigger] crate::route_model::group_at(before, group_key, seed);
            &&& after == before.insert(group_key, g.synced(peer_id, req, now_ms))
            &&& actions == crate::rpc_handler::sync_actions(
                packet,
                g.before_answer(peer_id, req, now_ms).response(peer_id, req),
                peer_id,
                group_key,
                g.sync_brings_news(peer_id, req, now_ms),
            )
        };
    let g = crate::route_model::group_at(before, group_key, seed);
    if !before.contains_key(group_key) {
        assert(g == GroupView::fresh(seed));
    }
    news_is_what_others_do_not_know(g, peer_id, req, now_ms);
    let infos = described_in(req);
    assert(infos == GroupView::infos_in(req));
    let g1 = g.with_ack(peer_id, req.my_session_id, !req.is_initiator, now_ms);
    the_highest_version_stays(g1, infos, 0);
    g
}

} // verus!
