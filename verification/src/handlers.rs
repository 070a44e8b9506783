//! Handshakes and pings.

use vstd::prelude::*;

use crate::constants::{PacketType, MAGIC, MY_PEER_ID, VERSION};
use crate::name_map::NameMap;
use crate::packet::frame_packet;
use crate::proto::{HandshakeRequest, HandshakeView};
use crate::text::hex_encode;

verus! {

/// Outcome of a handshake.
#[derive(Debug)]
pub struct HandshakeOutcome {
    /// The peer_id assigned to this websocket.
    pub peer_id: u32,
    /// The group key (network_name:digest_hex).
    pub group_key: String,
    /// The domain (network) name.
    pub domain_name: String,
    /// The answer to send back to the client.
    pub response: HandshakeRequest,
}

/// The digest of each network, in hexadecimal, by the network's name.
pub open spec fn digests(registry: Map<Seq<char>, String>) -> Map<Seq<char>, Seq<char>> {
    registry.map_values(|d: String| d@)
}

/// The key of the group of all peers of a network with the same digest.
pub open spec fn group_key_of(network_name: Seq<char>, digest: Seq<u8>) -> Seq<char> {
    network_name.push(':') + crate::text::hex_lower(digest)
}

/// Whether a handshake is admitted: it starts with the right magic number, and its digest is the
/// one that its network is known by, if the network is known.
pub open spec fn admits(known: Map<Seq<char>, Seq<char>>, req: HandshakeView) -> bool {
    &&& req.magic == MAGIC
    &&& known.contains_key(req.network_name) ==> known[req.network_name] == crate::text::hex_lower(
        req.network_secret_digest,
    )
}

/// The relay's answer to a handshake.
pub open spec fn server_handshake() -> HandshakeView {
    HandshakeView {
        magic: MAGIC,
        my_peer_id: MY_PEER_ID,
        version: VERSION,
        features: seq!["node-server-v1"@],
        network_name: "public_server"@,
        network_secret_digest: Seq::new(32, |i: int| 0u8),
    }
}

fn server_hello() -> (r: HandshakeRequest)
    ensures
        r@ == server_handshake(),
{
    let mut features: Vec<String> = Vec::new();
    features.push("node-server-v1".to_string());
    let digest: Vec<u8> = vec![0; 32];
    let r = HandshakeRequest {
        magic: MAGIC,
        my_peer_id: MY_PEER_ID,
        version: VERSION,
        features,
        network_name: "public_server".to_string(),
        network_secret_digest: digest,
    };
    assert(r@.features =~= server_handshake().features);
    assert(r@.network_secret_digest =~= server_handshake().network_secret_digest);
    r
}

/// Handle a handshake request from a client. The first digest that a network is seen with is the
/// one that it is known by from then on.
/// Returns None if the connection should be closed.
pub fn handle_handshake(
    request: &Result<HandshakeRequest, String>,
    network_digest_registry: &mut NameMap<String>,
) -> (r: Option<HandshakeOutcome>)
    ensures
        ({
            let known = digests(old(network_digest_registry)@);
            match (request, r) {
                (Ok(req), Some(outcome)) => {
                    &&& admits(known, req@)
                    &&& outcome.peer_id == req.my_peer_id
                    &&& outcome.group_key@ == group_key_of(
                        req.network_name@,
                        req.network_secret_digest@,
                    )
                    &&& outcome.domain_name@ == req.network_name@
                    &&& outcome.response@ == server_handshake()
                    &&& digests(final(network_digest_registry)@) == known.insert(
                        req.network_name@,
                        crate::text::hex_lower(req.network_secret_digest@),
                    )
                },
                (Ok(req), None) => !admits(known, req@) && final(network_digest_registry)@ == old(
                    network_digest_registry,
                )@,
                (Err(_), Some(_)) => false,
                (Err(_), None) => final(network_digest_registry)@ == old(network_digest_registry)@,
            }
        }),
{
    let req = match request {
        Ok(req) => req,
        Err(_) => {
            return None;
        },
    };
    if req.magic != MAGIC {
        return None;
    }
    let ghost before = network_digest_registry@;
    let client_digest = hex_encode(req.network_secret_digest.as_slice());
    let name = req.network_name.as_str();
    let known = match network_digest_registry.get(name) {
        Some(existing) => {
            if *existing != client_digest {
                assert(digests(before).contains_key(req.network_name@));
                return None;
            }
            true
        },
        None => false,
    };
    if !known {
        network_digest_registry.insert(name.to_owned(), client_digest.clone());
    }
    proof {
        let after = network_digest_registry@;
        let goal = digests(before).insert(req.network_name@, client_digest@);
        assert(digests(after) =~= goal);
    }
    let mut group_key = name.to_owned();
    proof {
        reveal_strlit(":");
    }
    group_key.append(":");
    group_key.append(client_digest.as_str());
    assert(group_key@ =~= group_key_of(req.network_name@, req.network_secret_digest@));
    Some(
        HandshakeOutcome {
            peer_id: req.my_peer_id,
            group_key,
            domain_name: req.network_name.clone(),
            response: server_hello(),
        },
    )
}

/// The packet that carries the encoded answer to a handshake of `peer_id`.
pub fn handshake_packet(peer_id: u32, encoded_response: &[u8]) -> (r: Vec<u8>)
    ensures
        r@ == crate::packet::framed(
            MY_PEER_ID,
            peer_id,
            PacketType::HandShake,
            encoded_response@,
        ),
{
    frame_packet(MY_PEER_ID, peer_id, PacketType::HandShake, encoded_response)
}

/// Handle a ping request. Returns the pong response bytes.
pub fn handle_ping(from_peer_id: u32, payload: &[u8]) -> (r: Vec<u8>)
    ensures
        r@ == crate::packet::framed(MY_PEER_ID, from_peer_id, PacketType::Pong, payload@),
{
    frame_packet(MY_PEER_ID, from_peer_id, PacketType::Pong, payload)
}

/// Two handshakes lead to the same group only if they name the same network with the same digest.
pub proof fn group_keys_tell_networks_apart(n1: Seq<char>, d1: Seq<u8>, n2: Seq<char>, d2: Seq<u8>)
    requires
        group_key_of(n1, d1) == group_key_of(n2, d2),
    ensures
        n1 == n2,
        d1 == d2,
{
    assert forall|t: Seq<u8>| !(#[trigger] crate::text::hex_lower(t)).contains(':') by {
        let h = crate::text::hex_lower(t);
        assert forall|i: int| 0 <= i < h.len() implies h[i] != ':' by {}
    }
    crate::text::last_mark_splits(
        n1,
        crate::text::hex_lower(d1),
        n2,
        crate::text::hex_lower(d2),
        ':',
    );
    crate::text::hex_is_injective(d1, d2);
}

/// Once a network was admitted with a digest, a handshake for it with another digest is refused,
/// and one with the same digest is admitted.
pub proof fn networks_keep_their_digest(
    known: Map<Seq<char>, Seq<char>>,
    first: HandshakeView,
    later: HandshakeView,
)
    requires
        admits(known, first),
        later.network_name == first.network_name,
        later.magic == MAGIC,
    ensures
        admits(
            known.insert(first.network_name, crate::text::hex_lower(first.network_secret_digest)),
            later,
        ) <==> later.network_secret_digest == first.network_secret_digest,
{
    if crate::text::hex_lower(later.network_secret_digest) == crate::text::hex_lower(
        first.network_secret_digest,
    ) {
        crate::text::hex_is_injective(later.network_secret_digest, first.network_secret_digest);
    }
}

/// An admitted handshake leaves the digests of all known networks, its own among them, as they
/// were.
pub proof fn known_digests_never_change(
    known: Map<Seq<char>, Seq<char>>,
    req: HandshakeView,
    name: Seq<char>,
)
    requires
        admits(known, req),
        known.contains_key(name),
    ensures
        known.insert(req.network_name, crate::text::hex_lower(req.network_secret_digest))[name]
            == known[name],
{
}

/// A pong carries the ping's payload back to the peer that sent it.
pub proof fn pongs_echo_pings(from_peer_id: u32, payload: Seq<u8>)
    ensures
        ({
            let pong = crate::packet::framed(MY_PEER_ID, from_peer_id, PacketType::Pong, payload);
            let header = crate::packet::PacketHeader::read(pong);
            &&& header.from_peer_id == MY_PEER_ID
            &&& header.to_peer_id == from_peer_id
            &&& header.packet_type == PacketType::Pong.code()
            &&& pong.skip(crate::constants::HEADER_SIZE as int) == payload
        }),
{
    crate::packet::header_survives_the_wire(
        crate::packet::fresh_header(
            MY_PEER_ID,
            from_peer_id,
            PacketType::Pong,
            payload.len() as u32,
        ),
        payload,
    );
}

} // verus!
