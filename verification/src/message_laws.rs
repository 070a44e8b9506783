//! What packets, texts and messages look like, byte by byte and field by field.

use vstd::prelude::*;

use crate::constants::{PacketType, MY_PEER_ID};
use crate::gateway::RouteView;
use crate::packet::PacketHeader;
use crate::proto::{
    ConnInfo, ConnInfoView, ForeignNetworkInfo, HandshakeRequest, HandshakeView, Payload,
    PayloadView, PeerConnInfo, RouteConnBitmap, RoutePeerInfo, RoutePeerInfoView, RpcBody,
    RpcBodyView, RpcDescriptor, RpcPacket, RpcRequest, RpcResponse, SyncRouteInfoRequest,
};

verus! {

// ---- Packets ----

/// Where each field of a header stands on the wire: sender and receiver in the first eight bytes,
/// then type, flags, hops and a reserved byte, then the length, numbers least significant byte
/// first.
pub proof fn headers_are_laid_out(h: PacketHeader)
    ensures
        ({
            let b = h.wire();
            &&& b.len() == 16
            &&& b.subrange(0, 4) == crate::bytes::le32(h.from_peer_id)
            &&& b.subrange(4, 8) == crate::bytes::le32(h.to_peer_id)
            &&& b[8] == h.packet_type
            &&& b[9] == h.flags
            &&& b[10] == h.forward_counter
            &&& b[11] == h.reserved
            &&& b.subrange(12, 16) == crate::bytes::le32(h.len)
        }),
{
    let b = h.wire();
    assert(b.subrange(0, 4) =~= crate::bytes::le32(h.from_peer_id));
    assert(b.subrange(4, 8) =~= crate::bytes::le32(h.to_peer_id));
    assert(b.subrange(12, 16) =~= crate::bytes::le32(h.len));
}

/// What is read from the first sixteen bytes of a packet, whatever they are.
pub proof fn headers_are_read_from_their_places(b: Seq<u8>)
    requires
        b.len() >= 16,
    ensures
        ({
            let h = PacketHeader::read(b);
            &&& h.from_peer_id == b[0] + 0x100 * b[1] + 0x1_0000 * b[2] + 0x100_0000 * b[3]
            &&& h.to_peer_id == b[4] + 0x100 * b[5] + 0x1_0000 * b[6] + 0x100_0000 * b[7]
            &&& h.packet_type == b[8]
            &&& h.flags == b[9]
            &&& h.forward_counter == b[10]
            &&& h.reserved == b[11]
            &&& h.len == b[12] + 0x100 * b[13] + 0x1_0000 * b[14] + 0x100_0000 * b[15]
        }),
{
    crate::digest_laws::four_bytes_are_a_number(b.subrange(0, 4));
    crate::digest_laws::four_bytes_are_a_number(b.subrange(4, 8));
    crate::digest_laws::four_bytes_are_a_number(b.subrange(12, 16));
}

/// The number of each packet type, and that no other number has a type.
pub proof fn packet_types_have_fixed_numbers(t: PacketType, v: u8)
    ensures
        t.code() == (match t {
            PacketType::Invalid => 0u8,
            PacketType::Data => 1,
            PacketType::HandShake => 2,
            PacketType::RoutePacket => 3,
            PacketType::Ping => 4,
            PacketType::Pong => 5,
            PacketType::TaRpc => 6,
            PacketType::Route => 7,
            PacketType::RpcReq => 8,
            PacketType::RpcResp => 9,
            PacketType::ForeignNetworkPacket => 10,
            PacketType::KcpSrc => 11,
            PacketType::KcpDst => 12,
            PacketType::NoiseHandshakeMsg1 => 13,
            PacketType::NoiseHandshakeMsg2 => 14,
            PacketType::NoiseHandshakeMsg3 => 15,
            PacketType::QuicSrc => 16,
            PacketType::QuicDst => 17,
            PacketType::RelayHandshake => 20,
            PacketType::RelayHandshakeAck => 21,
        }),
        PacketType::is_known(v) <==> 0 < v < 18 || v == 20 || v == 21,
{
}

/// A fresh packet carries its payload, unchanged, behind a header that names sender, receiver, type
/// and the payload's length, with no flags and one hop.
pub proof fn fresh_packets_carry_their_payload(
    from: u32,
    to: u32,
    packet_type: PacketType,
    payload: Seq<u8>,
)
    ensures
        ({
            let p = crate::packet::framed(from, to, packet_type, payload);
            &&& p.len() == payload.len() + 16
            &&& p.subrange(0, 4) == crate::bytes::le32(from)
            &&& p.subrange(4, 8) == crate::bytes::le32(to)
            &&& p[8] == packet_type.code()
            &&& p[9] == 0
            &&& p[10] == 1
            &&& p[11] == 0
            &&& p.subrange(12, 16) == crate::bytes::le32(payload.len() as u32)
            &&& p.subrange(16, p.len() as int) == payload
        }),
{
    let p = crate::packet::framed(from, to, packet_type, payload);
    let h = crate::packet::fresh_header(from, to, packet_type, payload.len() as u32);
    headers_are_laid_out(h);
    assert(p.subrange(0, 4) =~= h.wire().subrange(0, 4));
    assert(p.subrange(4, 8) =~= h.wire().subrange(4, 8));
    assert(p.subrange(12, 16) =~= h.wire().subrange(12, 16));
    assert(p.subrange(16, p.len() as int) =~= payload);
}

/// A wrapped packet is a fresh packet with its body but for the first flag, which says whether
/// encryption covers it; and a fresh header is as long as every other.
pub proof fn wrapped_packets_are_flagged(
    from: u32,
    to: u32,
    packet_type: PacketType,
    body: Seq<u8>,
    covered: bool,
)
    ensures
        crate::crypto::wrapped(from, to, packet_type, body, covered) == crate::packet::framed(
            from,
            to,
            packet_type,
            body,
        ).update(
            9,
            if covered {
                1u8
            } else {
                0u8
            },
        ),
        crate::packet::fresh_header(from, to, packet_type, body.len() as u32) == (PacketHeader {
            from_peer_id: from,
            to_peer_id: to,
            packet_type: packet_type.code(),
            flags: 0,
            forward_counter: 1,
            reserved: 0,
            len: body.len() as u32,
        }),
{
    let h = crate::packet::fresh_header(from, to, packet_type, body.len() as u32);
    headers_are_laid_out(h);
    assert(crate::crypto::wrapped(from, to, packet_type, body, covered)
        =~= crate::packet::framed(from, to, packet_type, body).update(
        9,
        if covered {
            1u8
        } else {
            0u8
        },
    ));
}

/// Which key encrypts a packet: none without encryption and for handshakes, else the short key where
/// it is there, else the long key where it is there.
pub proof fn packets_are_encrypted_with_the_short_key_first(
    crypto: crate::crypto::WsCrypto,
    packet_type: PacketType,
)
    ensures
        crypto.covers(packet_type) <==> crypto.enabled && packet_type != PacketType::HandShake,
        crypto.key_for(packet_type) == (if !crypto.enabled || packet_type == PacketType::HandShake {
            None
        } else if crypto.key128@.len() != 0 {
            Some(crypto.key128@)
        } else if crypto.key256@.len() != 0 {
            Some(crypto.key256@)
        } else {
            None
        }),
{
}

/// Where an encrypted payload is cut: the last twelve bytes are the nonce, all before them is the
/// ciphertext with its tag of sixteen bytes.
pub proof fn encrypted_payloads_end_in_their_nonce(payload: Seq<u8>)
    requires
        payload.len() >= 28,
    ensures
        crate::crypto::TAG_LEN == 16,
        crate::crypto::NONCE_LEN == 12,
        crate::crypto::sealed_nonce(payload).len() == 12,
        crate::crypto::sealed_text(payload) + crate::crypto::sealed_nonce(payload) == payload,
{
    assert(crate::crypto::sealed_text(payload) + crate::crypto::sealed_nonce(payload) =~= payload);
}

/// What a (de)compression leaves: its outcome where there is one, else what it was given.
pub proof fn failed_compression_leaves_the_data(outcome: Seq<u8>, data: Seq<u8>)
    ensures
        crate::compress::or_unchanged(Some(outcome), data) == outcome,
        crate::compress::or_unchanged(None, data) == data,
{
}

// ---- Texts ----

/// A number's decimal text is the text of its tens and the digit of its ones; below ten it is one
/// digit.
pub proof fn decimals_end_in_their_ones(n: nat)
    ensures
        crate::text::decimal(n).len() > 0,
        crate::text::decimal(n).last() as u32 == 48 + n % 10,
        n < 10 ==> crate::text::decimal(n).len() == 1,
        n >= 10 ==> crate::text::decimal(n).drop_last() == crate::text::decimal(n / 10),
{
    if n >= 10 {
        assert(crate::text::decimal(n).drop_last() =~= crate::text::decimal(n / 10));
    }
}

/// The number that decimal digits stand for.
pub open spec fn digits_worth(s: Seq<char>) -> nat
    decreases s.len(),
{
    if s.len() == 0 {
        0
    } else {
        10 * digits_worth(s.drop_last()) + ((s.last() as u32 - 48) as nat)
    }
}

/// Whether a text is decimal digits, at least one, that are worth no more than `max`.
pub open spec fn spells_number(digits: Seq<char>, max: nat) -> bool {
    &&& digits.len() > 0
    &&& forall|i: int| 0 <= i < digits.len() ==> '0' <= (#[trigger] digits[i]) && digits[i] <= '9'
    &&& digits_worth(digits) <= max
}

/// A text reads as a number exactly if it is digits, at least one, after at most one plus sign, and
/// worth no more than the largest number allowed; and it reads as what they are worth.
pub proof fn digits_read_as_what_they_are_worth(s: Seq<char>, max: nat)
    ensures
        ({
            let digits = if s.len() > 0 && s[0] == '+' {
                s.subrange(1, s.len() as int)
            } else {
                s
            };
            crate::text::parsed(s, max) == (if spells_number(digits, max) {
                Some(digits_worth(digits))
            } else {
                None
            })
        }),
{
    if s.len() > 0 && s[0] == '+' {
        assert(s.subrange(1, s.len() as int) =~= s.drop_first());
    }
    let digits = crate::text::unsigned_part(s);
    worth_is_value(digits);
    assert(spells_number(digits, max) == (crate::text::is_number(digits)
        && crate::text::number_value(digits) <= max)) by {
        if crate::text::is_number(digits) {
            assert forall|i: int| 0 <= i < digits.len() implies '0' <= (#[trigger] digits[i])
                && digits[i] <= '9' by {
                assert(crate::text::is_digit(digits[i]));
            }
        }
    }
}

proof fn worth_is_value(s: Seq<char>)
    ensures
        crate::text::number_value(s) == digits_worth(s),
    decreases s.len(),
{
    if s.len() > 0 {
        worth_is_value(s.drop_last());
    }
}

/// Each byte stands in hexadecimal as the digits of its sixteens and its ones.
pub proof fn bytes_stand_as_two_digits(b: Seq<u8>, i: int)
    requires
        0 <= i < b.len(),
    ensures
        ({
            let digits: Seq<char> = seq![
                '0', '1', '2', '3', '4', '5', '6', '7', '8', '9', 'a', 'b', 'c', 'd', 'e', 'f',
            ];
            let t = crate::text::hex_lower(b);
            &&& t.len() == 2 * b.len()
            &&& t[2 * i] == digits[b[i] as int / 16]
            &&& t[2 * i + 1] == digits[b[i] as int % 16]
        }),
{
    let t = crate::text::hex_lower(b);
    assert(t[2 * i] == crate::text::hex_char((b[i] / 16) as nat));
    assert(t[2 * i + 1] == crate::text::hex_char((b[i] % 16) as nat));
}

/// One text stands before another exactly if it has the smaller character at the first place where
/// they differ, or is cut off there.
pub proof fn texts_stand_by_their_first_difference(a: Seq<char>, b: Seq<char>)
    ensures
        crate::text::text_less(a, b) <==> exists|k: int|
            {
                &&& 0 <= k <= a.len()
                &&& k < b.len()
                &&& #[trigger] a.take(k) == b.take(k)
                &&& k == a.len() || a[k] < b[k]
            },
    decreases a.len(),
{
    if a.len() > 0 && b.len() > 0 && a[0] == b[0] {
        let (x, y) = (a.skip(1), b.skip(1));
        texts_stand_by_their_first_difference(x, y);
        if crate::text::text_less(x, y) {
            let k = choose|k: int|
                {
                    &&& 0 <= k <= x.len()
                    &&& k < y.len()
                    &&& #[trigger] x.take(k) == y.take(k)
                    &&& k == x.len() || x[k] < y[k]
                };
            assert forall|j: int| 0 <= j < k + 1 implies a[j] == b[j] by {
                if j > 0 {
                    assert(x.take(k)[j - 1] == y.take(k)[j - 1]);
                }
            }
            assert(a.take(k + 1) =~= b.take(k + 1));
        }
        if exists|k: int|
            {
                &&& 0 <= k <= a.len()
                &&& k < b.len()
                &&& #[trigger] a.take(k) == b.take(k)
                &&& k == a.len() || a[k] < b[k]
            } {
            let k = choose|k: int|
                {
                    &&& 0 <= k <= a.len()
                    &&& k < b.len()
                    &&& #[trigger] a.take(k) == b.take(k)
                    &&& k == a.len() || a[k] < b[k]
                };
            assert(k > 0);
            assert forall|j: int| 0 <= j < k - 1 implies x[j] == y[j] by {
                assert(a.take(k)[j + 1] == b.take(k)[j + 1]);
            }
            assert(x.take(k - 1) =~= y.take(k - 1));
        }
    } else if a.len() > 0 && b.len() > 0 {
        if a[0] < b[0] {
            assert(a.take(0) =~= b.take(0));
        }
        if exists|k: int|
            {
                &&& 0 <= k <= a.len()
                &&& k < b.len()
                &&& #[trigger] a.take(k) == b.take(k)
                &&& k == a.len() || a[k] < b[k]
            } {
            let k = choose|k: int|
                {
                    &&& 0 <= k <= a.len()
                    &&& k < b.len()
                    &&& #[trigger] a.take(k) == b.take(k)
                    &&& k == a.len() || a[k] < b[k]
                };
            if k > 0 {
                assert(a.take(k)[0] == b.take(k)[0]);
            }
        }
    } else if a.len() == 0 && b.len() > 0 {
        assert(a.take(0) =~= b.take(0));
    }
}

/// A list of strings is spoken of text by text; and it is in order exactly if each text stands before
/// all later ones.
pub proof fn lists_of_texts_are_seen_whole(list: Seq<String>, i: int, j: int)
    ensures
        crate::text::texts_of(list).len() == list.len(),
        0 <= i < list.len() ==> crate::text::texts_of(list)[i] == list[i]@,
        crate::text::in_order(crate::text::texts_of(list)) && 0 <= i < j < list.len()
            ==> crate::text::text_less(list[i]@, list[j]@),
{
    let texts = crate::text::texts_of(list);
    if 0 <= i < j < list.len() {
        assert(texts[i] == list[i]@ && texts[j] == list[j]@);
    }
}

/// A string that may be missing is spoken of by its text.
pub proof fn missing_texts_stay_missing(s: Option<&str>)
    ensures
        s is None ==> crate::gateway::str_of(s) is None,
        s matches Some(t) ==> crate::gateway::str_of(s) == Some(t@),
{
}

/// The text that identifies a bit map names each peer and its version in decimal, with a colon
/// between the two and commas between the peers, and then, behind a bar, the bits in hexadecimal.
pub proof fn signatures_spell_the_bit_map_out(
    ps: Seq<crate::proto::PeerIdVersion>,
    bitmap: Seq<u8>,
)
    ensures
        crate::conn_bitmap::signature(ps, bitmap) == crate::conn_bitmap::peers_text(ps) + seq!['|']
            + crate::text::hex_lower(bitmap),
        ps.len() == 0 ==> crate::conn_bitmap::peers_text(ps).len() == 0,
        ps.len() > 0 ==> {
            let last = ps[ps.len() - 1];
            let text = crate::text::decimal(last.peer_id as nat) + seq![':'] + crate::text::decimal(
                last.version as nat,
            );
            let early = crate::conn_bitmap::peers_text(ps.take(ps.len() - 1));
            crate::conn_bitmap::peers_text(ps) == (if ps.len() == 1 {
                text
            } else {
                early + seq![','] + text
            })
        },
{
    assert(crate::conn_bitmap::signature(ps, bitmap) =~= crate::conn_bitmap::peers_text(ps) + seq![
        '|',
    ] + crate::text::hex_lower(bitmap));
    if ps.len() > 0 {
        let last = ps[ps.len() - 1];
        assert(ps.take(ps.len() - 1) =~= ps.drop_last());
        let text = crate::text::decimal(last.peer_id as nat) + seq![':'] + crate::text::decimal(
            last.version as nat,
        );
        assert(crate::conn_bitmap::peer_text(last) =~= text);
        let early = crate::conn_bitmap::peers_text(ps.take(ps.len() - 1));
        assert(early.push(',') + text =~= early + seq![','] + text);
    }
}

// ---- Handshakes and requests ----

/// A handshake is admitted exactly if it has the magic number and its network is either not known or
/// known by the handshake's digest in hexadecimal. Its group is named by the network and the digest,
/// with a colon between them.
pub proof fn handshakes_need_the_digest_on_record(
    known: Map<Seq<char>, Seq<char>>,
    req: HandshakeView,
)
    ensures
        crate::handlers::admits(known, req) <==> req.magic == 0xd1e1a5e1 && (!known.contains_key(
            req.network_name,
        ) || known[req.network_name] == crate::text::hex_lower(req.network_secret_digest)),
        crate::handlers::group_key_of(req.network_name, req.network_secret_digest)
            == req.network_name + seq![':'] + crate::text::hex_lower(req.network_secret_digest),
{
    assert(crate::handlers::group_key_of(req.network_name, req.network_secret_digest)
        =~= req.network_name + seq![':'] + crate::text::hex_lower(req.network_secret_digest));
}

/// The digests on record are the texts that the registry holds, each under its network's name.
pub proof fn registries_hold_one_digest_for_each_network(
    registry: Map<Seq<char>, String>,
    name: Seq<char>,
)
    ensures
        crate::handlers::digests(registry).contains_key(name) <==> registry.contains_key(name),
        registry.contains_key(name) ==> crate::handlers::digests(registry)[name] == registry[name]@,
{
}

/// What the relay says in its half of every handshake.
pub proof fn the_relay_introduces_itself(i: int)
    ensures
        ({
            let h = crate::handlers::server_handshake();
            &&& h.magic == 0xd1e1a5e1
            &&& h.my_peer_id == 10000001
            &&& h.version == 1
            &&& h.features.len() == 1
            &&& h.features[0] == "node-server-v1"@
            &&& h.network_name == "public_server"@
            &&& h.network_secret_digest.len() == 32
            &&& 0 <= i < 32 ==> h.network_secret_digest[i] == 0
        }),
{
}

/// The relay's own number, and the length of a header, whatever packet they stand in.
pub proof fn the_relay_has_a_fixed_number(h: PacketHeader)
    ensures
        MY_PEER_ID == 10000001,
        crate::constants::HEADER_SIZE == h.wire().len(),
        crate::constants::HEADER_SIZE == 16,
        crate::constants::MAGIC == 0xd1e1a5e1,
        crate::constants::VERSION == 1,
{
}

/// Where a request goes. The health path is answered. The endpoint is `rest` behind one slash, with
/// or without another at its end, where `rest` is what is configured without its leading slashes, or
/// `ws`. A request there needs the right upgrade header, and goes to the room that the first
/// parameter `room` names, or to the default room. All else is not found.
pub proof fn requests_are_routed_by_path_and_header(
    path: Seq<char>,
    configured: Option<Seq<char>>,
    upgrade: Option<Seq<char>>,
    query: Seq<(String, String)>,
    route: RouteView,
    slashes: nat,
    rest: Seq<char>,
)
    requires
        rest.len() > 0 ==> rest[0] != '/',
        configured == Some(Seq::new(slashes, |i: int| '/') + rest) || (configured is None && rest
            == "ws"@),
    ensures
        ({
            let endpoint = seq!['/'] + rest;
            let reached = path == endpoint || path == endpoint + seq!['/'];
            crate::gateway::routes_to(path, configured, upgrade, query, route) <==> {
                if path == "/healthz"@ {
                    route is Healthy
                } else if !reached {
                    route is NotFound
                } else if upgrade != Some("websocket"@) {
                    route is ExpectedUpgrade
                } else {
                    &&& route is Room
                    &&& (exists|i: int|
                        {
                            &&& 0 <= i < query.len()
                            &&& (#[trigger] query[i]).0@ == "room"@
                            &&& forall|j: int| 0 <= j < i ==> (#[trigger] query[j]).0@ != "room"@
                            &&& route == RouteView::Room(query[i].1@)
                        }) || ((forall|j: int|
                        0 <= j < query.len() ==> (#[trigger] query[j]).0@ != "room"@) && route
                        == RouteView::Room("default"@))
                }
            }
        }),
{
    reveal_strlit("/");
    reveal_strlit("ws");
    slashes_are_cut(slashes, rest);
    if configured is None {
        slashes_are_cut(0, rest);
        assert(Seq::new(0, |i: int| '/') + rest =~= rest);
    }
    let endpoint = seq!['/'] + rest;
    assert("/"@ =~= seq!['/']);
    assert(crate::gateway::ws_path_of(configured) =~= endpoint);
    if route is Room {
        let room = route->Room_0;
        if crate::gateway::names_room(query, room) {
            if exists|i: int|
                #[trigger] crate::gateway::is_first_named(query, "room"@, i) && query[i].1@ == room {
                let i = choose|i: int|
                    #[trigger] crate::gateway::is_first_named(query, "room"@, i) && query[i].1@
                        == room;
                assert(query[i].0@ == "room"@);
                assert(route == RouteView::Room(query[i].1@));
            } else {
                assert forall|j: int| 0 <= j < query.len() implies (#[trigger] query[j]).0@
                    != "room"@ by {
                    if query[j].0@ == "room"@ {
                        first_exists(query, "room"@, j);
                    }
                }
            }
        }
        if exists|i: int|
            {
                &&& 0 <= i < query.len()
                &&& (#[trigger] query[i]).0@ == "room"@
                &&& forall|j: int| 0 <= j < i ==> (#[trigger] query[j]).0@ != "room"@
                &&& route == RouteView::Room(query[i].1@)
            } {
            let i = choose|i: int|
                {
                    &&& 0 <= i < query.len()
                    &&& (#[trigger] query[i]).0@ == "room"@
                    &&& forall|j: int| 0 <= j < i ==> (#[trigger] query[j]).0@ != "room"@
                    &&& route == RouteView::Room(query[i].1@)
                };
            assert(crate::gateway::is_first_named(query, "room"@, i));
            assert(crate::gateway::names_room(query, room));
        }
        if forall|j: int| 0 <= j < query.len() ==> (#[trigger] query[j]).0@ != "room"@ {
            assert forall|i: int| !(#[trigger] crate::gateway::is_first_named(
                query,
                "room"@,
                i,
            )) by {
                if 0 <= i < query.len() {
                    assert(query[i].0@ != "room"@);
                }
            }
        }
    }
}

proof fn first_exists(query: Seq<(String, String)>, name: Seq<char>, k: int)
    requires
        0 <= k < query.len(),
        query[k].0@ == name,
    ensures
        exists|i: int| #[trigger] crate::gateway::is_first_named(query, name, i),
    decreases k,
{
    if forall|j: int| 0 <= j < k ==> (#[trigger] query[j]).0@ != name {
        assert(crate::gateway::is_first_named(query, name, k));
    } else {
        let j = choose|j: int| 0 <= j < k && (#[trigger] query[j]).0@ == name;
        first_exists(query, name, j);
    }
}

proof fn slashes_are_cut(slashes: nat, rest: Seq<char>)
    requires
        rest.len() > 0 ==> rest[0] != '/',
    ensures
        crate::gateway::without_slashes(Seq::new(slashes, |i: int| '/') + rest) == rest,
    decreases slashes,
{
    let s = Seq::new(slashes, |i: int| '/') + rest;
    if slashes > 0 {
        let m = (slashes - 1) as nat;
        slashes_are_cut(m, rest);
        assert(s.skip(1) =~= Seq::new(m, |i: int| '/') + rest);
    } else {
        assert(s =~= rest);
    }
}

// ---- Messages ----

/// A peer info is spoken of with all of its fields.
pub proof fn peer_infos_are_seen_whole(info: RoutePeerInfo)
    ensures
        info@.peer_id == info.peer_id,
        info@.inst_id == info.inst_id,
        info@.cost == info.cost,
        info@.ipv4_addr == info.ipv4_addr,
        info.hostname is None ==> info@.hostname is None,
        info.hostname matches Some(h) ==> info@.hostname == Some(h@),
        info@.last_update == info.last_update,
        info@.version == info.version,
        info@.easytier_version == info.easytier_version@,
        info@.feature_flag == info.feature_flag,
        info@.peer_route_id == info.peer_route_id,
        info@.network_length == info.network_length,
        info@.others == info.others@,
{
}

/// An info at its default holds nothing.
pub proof fn blank_infos_hold_nothing(info: RoutePeerInfo)
    requires
        info@ == RoutePeerInfoView::blank(),
    ensures
        info.peer_id == 0,
        info.inst_id is None,
        info.cost == 0,
        info.ipv4_addr is None,
        info.hostname is None,
        info.last_update is None,
        info.version == 0,
        info.easytier_version@.len() == 0,
        info.feature_flag is None,
        info.peer_route_id == 0,
        info.network_length == 0,
        info.others@.len() == 0,
{
}

/// A point in time is spoken of by its whole second.
pub proof fn times_are_whole_seconds(now_ms: u64)
    ensures
        crate::proto::Timestamp::at(now_ms).seconds == now_ms / 1000,
        crate::proto::Timestamp::at(now_ms).nanos == 0,
{
}

/// The fields of the relay's own info that can be set, each to what the text spells, with all other
/// fields kept; and why others, or texts that are no numbers, are refused.
pub proof fn own_fields_are_set_one_at_a_time(
    info: RoutePeerInfoView,
    field: Seq<char>,
    value: Seq<char>,
)
    ensures
        ({
            let r = info.with_field(field, value);
            let number = crate::text::parsed(value, 0xffff_ffff);
            &&& field == "hostname"@ ==> r == Ok::<RoutePeerInfoView, Seq<char>>(
                RoutePeerInfoView { hostname: Some(value), ..info },
            )
            &&& field == "network_length"@ && number is Some ==> r == Ok::<
                RoutePeerInfoView,
                Seq<char>,
            >(RoutePeerInfoView { network_length: number->0 as u32, ..info })
            &&& field == "network_length"@ && number is None ==> r == Err::<
                RoutePeerInfoView,
                Seq<char>,
            >("invalid network_length"@)
            &&& field == "ipv4_addr"@ && number is Some ==> r == Ok::<RoutePeerInfoView, Seq<char>>(
                RoutePeerInfoView {
                    ipv4_addr: Some(crate::proto::Ipv4Addr { addr: number->0 as u32 }),
                    ..info
                },
            )
            &&& field == "ipv4_addr"@ && number is None ==> r == Err::<
                RoutePeerInfoView,
                Seq<char>,
            >("invalid ipv4_addr"@)
            &&& field != "hostname"@ && field != "network_length"@ && field != "ipv4_addr"@ ==> r
                == Err::<RoutePeerInfoView, Seq<char>>("unknown field"@)
        }),
{
    reveal_strlit("hostname");
    reveal_strlit("network_length");
    reveal_strlit("ipv4_addr");
    assert("hostname"@.len() == 8 && "network_length"@.len() == 14 && "ipv4_addr"@.len() == 9);
}

/// A request to take over route information is spoken of with all that it holds.
pub proof fn sync_requests_are_seen_whole(req: SyncRouteInfoRequest, i: int)
    ensures
        req@.my_peer_id == req.my_peer_id,
        req@.my_session_id == req.my_session_id,
        req@.is_initiator == req.is_initiator,
        req@.peer_infos is Some <==> req.peer_infos is Some,
        req.peer_infos matches Some(p) ==> {
            &&& req@.peer_infos->0.len() == p.items@.len()
            &&& 0 <= i < p.items@.len() ==> req@.peer_infos->0[i] == p.items@[i]@
        },
        req@.conn_info is Some <==> req.conn_info is Some,
        req.conn_info matches Some(c) ==> req@.conn_info == Some(c@),
        req@.foreign_network_infos is Some <==> req.foreign_network_infos is Some,
        req.foreign_network_infos matches Some(f) ==> {
            &&& req@.foreign_network_infos->0.len() == f.infos@.len()
            &&& 0 <= i < f.infos@.len() ==> req@.foreign_network_infos->0[i] == f.infos@[i]@
        },
{
}

/// Reported connections are spoken of in the form, and with all, that they were reported in.
pub proof fn reports_are_seen_whole(c: ConnInfo, b: RouteConnBitmap, e: PeerConnInfo, i: int)
    ensures
        c matches ConnInfo::ConnBitmap(m) ==> c@ == ConnInfoView::ConnBitmap(m@),
        c matches ConnInfo::ConnPeerList(l) ==> {
            &&& c@ is ConnPeerList
            &&& c@->ConnPeerList_0.len() == l.peer_conn_infos@.len()
            &&& 0 <= i < l.peer_conn_infos@.len() ==> c@->ConnPeerList_0[i]
                == l.peer_conn_infos@[i]@
        },
        b@.peer_ids == b.peer_ids@,
        b@.bitmap == b.bitmap@,
        e@.peer_id == e.peer_id,
        e@.connected_peer_ids == e.connected_peer_ids@,
        crate::route_group::conn_info_of(Some(c)) == Some(c@),
        crate::route_group::conn_info_of(None) is None,
{
}

/// A foreign network is spoken of with all of its fields.
pub proof fn foreign_networks_are_seen_whole(f: ForeignNetworkInfo)
    ensures
        f@.key is Some <==> f.key is Some,
        f.key matches Some(k) ==> f@.key->0.peer_id == k.peer_id && f@.key->0.network_name
            == k.network_name@,
        f@.value is Some <==> f.value is Some,
        f.value matches Some(v) ==> {
            &&& f@.value->0.foreign_peer_ids == v.foreign_peer_ids@
            &&& f@.value->0.last_update == v.last_update
            &&& f@.value->0.version == v.version
            &&& f@.value->0.network_secret_digest == v.network_secret_digest@
            &&& f@.value->0.my_peer_id_for_this_network == v.my_peer_id_for_this_network
        },
{
}

/// A handshake is spoken of with all of its fields.
pub proof fn handshakes_are_seen_whole(h: HandshakeRequest, i: int)
    ensures
        h@.magic == h.magic,
        h@.my_peer_id == h.my_peer_id,
        h@.version == h.version,
        h@.features.len() == h.features@.len(),
        0 <= i < h.features@.len() ==> h@.features[i] == h.features@[i]@,
        h@.network_name == h.network_name@,
        h@.network_secret_digest == h.network_secret_digest@,
{
}

/// An RPC packet is spoken of with all of its fields, down to the message that it carries.
pub proof fn rpc_packets_are_seen_whole(
    p: RpcPacket,
    d: RpcDescriptor,
    q: RpcRequest,
    a: RpcResponse,
)
    ensures
        p@.from_peer == p.from_peer,
        p@.to_peer == p.to_peer,
        p@.transaction_id == p.transaction_id,
        p@.descriptor is Some <==> p.descriptor is Some,
        p.descriptor matches Some(x) ==> p@.descriptor == Some(x@),
        p@.is_request == p.is_request,
        p@.total_pieces == p.total_pieces,
        p@.piece_idx == p.piece_idx,
        p@.trace_id == p.trace_id,
        p@.compression_info == p.compression_info,
        p.body matches RpcBody::Bytes(b) ==> p@.body == RpcBodyView::Bytes(b@),
        p.body matches RpcBody::Request(m) ==> p@.body == RpcBodyView::Request(m@),
        p.body matches RpcBody::Response(m) ==> p@.body == RpcBodyView::Response(m@),
        d@.domain_name == d.domain_name@,
        d@.proto_name == d.proto_name@,
        d@.service_name == d.service_name@,
        d@.method_index == d.method_index,
        q@.descriptor is Some <==> q.descriptor is Some,
        q.descriptor matches Some(x) ==> q@.descriptor == Some(x@),
        q@.request == q.request@,
        q@.timeout_ms == q.timeout_ms,
        a@.response == a.response@,
        a@.error is Some <==> a.error is Some,
        a.error matches Some(e) ==> a@.error == Some(e@),
        a@.runtime_us == a.runtime_us,
{
}

/// A message that travels as bytes is spoken of as the bytes, or as the message that they encode.
pub proof fn payloads_are_seen_whole(p: Payload)
    ensures
        p matches Payload::Bytes(b) ==> p@ == PayloadView::Bytes(b@),
        p matches Payload::SyncRouteInfoRequest(m) ==> p@ == PayloadView::SyncRouteInfoRequest(m@),
        p matches Payload::SyncRouteInfoResponse(m) ==> p@ == PayloadView::SyncRouteInfoResponse(m),
{
}

/// A group is spoken of with everything that is kept of it, and a session with everything that is
/// kept of it.
pub proof fn groups_are_seen_whole(
    g: crate::route_group::RouteGroupData,
    s: crate::route_group::SessionState,
    id: u32,
)
    ensures
        g@.peers == g.peers@,
        g@.peer_infos.contains_key(id) <==> g.peer_infos@.contains_key(id),
        g.peer_infos@.contains_key(id) ==> g@.peer_infos[id] == g.peer_infos@[id]@,
        g@.sessions.contains_key(id) <==> g.sessions@.contains_key(id),
        g.sessions@.contains_key(id) ==> g@.sessions[id] == g.sessions@[id]@,
        g@.peer_conn_versions == g.peer_conn_versions@,
        g@.my_info == g.my_info@,
        g@.my_info_version == g.my_info_version,
        g@.peer_connections.contains_key(id) <==> g.peer_connections@.contains_key(id),
        g.peer_connections@.contains_key(id) ==> g@.peer_connections[id]
            == g.peer_connections@[id]@,
        g@.peer_removed_at == g.peer_removed_at@,
        s@.my_session_id == s.my_session_id,
        s@.dst_session_id == s.dst_session_id,
        s@.we_are_initiator == s.we_are_initiator,
        s@.peer_info_ver_map == s.peer_info_ver_map@,
        s@.conn_bitmap_ver_map == s.conn_bitmap_ver_map@,
        s@.foreign_net_ver == s.foreign_net_ver,
        s@.last_touch_ms == s.last_touch_ms,
        s@.last_conn_bitmap_sig is Some <==> s.last_conn_bitmap_sig is Some,
        s.last_conn_bitmap_sig matches Some(t) ==> s@.last_conn_bitmap_sig == Some(t@),
{
}

/// A blank state has no group, no peer centre and no known network.
pub proof fn blank_states_know_nothing<C>(
    state: crate::global_state::GlobalState<C>,
    name: Seq<char>,
)
    requires
        state.is_blank(),
    ensures
        !state.peer_manager.route_state@.contains_key(name),
        !state.peer_center_map@.contains_key(name),
        !state.network_digest_registry@.contains_key(name),
{
}

/// What a seed is made from: for each part of the instance id the first four of its own eight bytes,
/// and for the route id all eight of its own, least significant byte first.
pub proof fn seeds_are_read_from_their_bytes(b: crate::route_state::SeedBytes)
    requires
        b.complete(),
    ensures
        ({
            let s = b.seed();
            &&& s.inst_id.part1 == b.part1@[0] + 0x100 * b.part1@[1] + 0x1_0000 * b.part1@[2]
                + 0x100_0000 * b.part1@[3]
            &&& s.inst_id.part2 == b.part2@[0] + 0x100 * b.part2@[1] + 0x1_0000 * b.part2@[2]
                + 0x100_0000 * b.part2@[3]
            &&& s.inst_id.part3 == b.part3@[0] + 0x100 * b.part3@[1] + 0x1_0000 * b.part3@[2]
                + 0x100_0000 * b.part3@[3]
            &&& s.inst_id.part4 == b.part4@[0] + 0x100 * b.part4@[1] + 0x1_0000 * b.part4@[2]
                + 0x100_0000 * b.part4@[3]
            &&& s.peer_route_id == crate::bytes::from_le64(b.route@, 0)
            &&& b.part1@.len() == 8 && b.part2@.len() == 8 && b.part3@.len() == 8
                && b.part4@.len() == 8 && b.route@.len() == 8
        }),
{
    crate::digest_laws::four_bytes_are_a_number(b.part1@.take(4));
    crate::digest_laws::four_bytes_are_a_number(b.part2@.take(4));
    crate::digest_laws::four_bytes_are_a_number(b.part3@.take(4));
    crate::digest_laws::four_bytes_are_a_number(b.part4@.take(4));
}

} // verus!
