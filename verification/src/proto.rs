//! The messages of the protocol, as plain values.
//!
//! A message that holds text, bytes or lists has a view: the same message over mathematical
//! sequences. Turning messages into bytes and back is left to the host.

use vstd::prelude::*;

verus! {

/// A 128-bit instance id.
#[derive(Debug, Clone, Copy, PartialEq, Eq, Structural)]
pub struct Uuid {
    pub part1: u32,
    pub part2: u32,
    pub part3: u32,
    pub part4: u32,
}

/// An IPv4 address.
#[derive(Debug, Clone, Copy, PartialEq, Eq, Structural)]
pub struct Ipv4Addr {
    pub addr: u32,
}

/// A point in time, from the Unix epoch on.
#[derive(Debug, Clone, Copy, PartialEq, Eq, Structural)]
pub struct Timestamp {
    pub seconds: i64,
    pub nanos: i32,
}

impl Timestamp {
    /// The whole second in which the millisecond `now_ms` falls.
    pub open spec fn at(now_ms: u64) -> Timestamp {
        Timestamp { seconds: (now_ms / 1000) as i64, nanos: 0 }
    }

    /// The whole second in which the millisecond `now_ms` falls.
    pub fn at_ms(now_ms: u64) -> (r: Timestamp)
        ensures
            r == Timestamp::at(now_ms),
    {
        Timestamp { seconds: (now_ms / 1000) as i64, nanos: 0 }
    }
}

/// What a peer offers and asks for.
#[derive(Debug, Clone, Copy, PartialEq, Eq, Structural)]
pub struct PeerFeatureFlag {
    pub is_public_server: bool,
    pub avoid_relay_data: bool,
    pub kcp_input: bool,
    pub no_relay_kcp: bool,
    pub support_conn_list_sync: bool,
    pub quic_input: bool,
    pub no_relay_quic: bool,
    pub is_credential_peer: bool,
    pub need_p2p: bool,
    pub disable_p2p: bool,
    pub ipv6_public_addr_provider: bool,
}

/// What the network knows of one peer.
#[derive(Debug)]
pub struct RoutePeerInfo {
    pub peer_id: u32,
    pub inst_id: Option<Uuid>,
    pub cost: u32,
    pub ipv4_addr: Option<Ipv4Addr>,
    pub hostname: Option<String>,
    pub last_update: Option<Timestamp>,
    pub version: u32,
    pub easytier_version: String,
    pub feature_flag: Option<PeerFeatureFlag>,
    pub peer_route_id: u64,
    pub network_length: u32,
    /// The encoding of all other fields, which no rule here reads; empty where they have their
    /// default values.
    pub others: Vec<u8>,
}

/// `RoutePeerInfo` over sequences.
#[verifier::ext_equal]
pub struct RoutePeerInfoView {
    pub peer_id: u32,
    pub inst_id: Option<Uuid>,
    pub cost: u32,
    pub ipv4_addr: Option<Ipv4Addr>,
    pub hostname: Option<Seq<char>>,
    pub last_update: Option<Timestamp>,
    pub version: u32,
    pub easytier_version: Seq<char>,
    pub feature_flag: Option<PeerFeatureFlag>,
    pub peer_route_id: u64,
    pub network_length: u32,
    pub others: Seq<u8>,
}

/// The characters of a string, if there is one.
pub open spec fn text_of(s: Option<String>) -> Option<Seq<char>> {
    match s {
        Some(t) => Some(t@),
        None => None,
    }
}

impl View for RoutePeerInfo {
    type V = RoutePeerInfoView;

    open spec fn view(&self) -> RoutePeerInfoView {
        RoutePeerInfoView {
            peer_id: self.peer_id,
            inst_id: self.inst_id,
            cost: self.cost,
            ipv4_addr: self.ipv4_addr,
            hostname: text_of(self.hostname),
            last_update: self.last_update,
            version: self.version,
            easytier_version: self.easytier_version@,
            feature_flag: self.feature_flag,
            peer_route_id: self.peer_route_id,
            network_length: self.network_length,
            others: self.others@,
        }
    }
}

impl RoutePeerInfoView {
    /// The info with every field at its default value.
    pub open spec fn blank() -> RoutePeerInfoView {
        RoutePeerInfoView {
            peer_id: 0,
            inst_id: None,
            cost: 0,
            ipv4_addr: None,
            hostname: None,
            last_update: None,
            version: 0,
            easytier_version: Seq::empty(),
            feature_flag: None,
            peer_route_id: 0,
            network_length: 0,
            others: Seq::empty(),
        }
    }

    /// The info with the field of this name set to what `value` spells, or why that cannot be.
    pub open spec fn with_field(self, field: Seq<char>, value: Seq<char>) -> Result<
        RoutePeerInfoView,
        Seq<char>,
    > {
        let number = crate::text::parsed(value, u32::MAX as nat);
        if field == "hostname"@ {
            Ok(RoutePeerInfoView { hostname: Some(value), ..self })
        } else if field == "network_length"@ {
            match number {
                Some(n) => Ok(RoutePeerInfoView { network_length: n as u32, ..self }),
                None => Err("invalid network_length"@),
            }
        } else if field == "ipv4_addr"@ {
            match number {
                Some(n) => Ok(
                    RoutePeerInfoView { ipv4_addr: Some(Ipv4Addr { addr: n as u32 }), ..self },
                ),
                None => Err("invalid ipv4_addr"@),
            }
        } else {
            Err("unknown field"@)
        }
    }
}

impl Default for RoutePeerInfo {
    fn default() -> (r: Self)
        ensures
            r@ == RoutePeerInfoView::blank(),
    {
        RoutePeerInfo {
            peer_id: 0,
            inst_id: None,
            cost: 0,
            ipv4_addr: None,
            hostname: None,
            last_update: None,
            version: 0,
            easytier_version: String::new(),
            feature_flag: None,
            peer_route_id: 0,
            network_length: 0,
            others: Vec::new(),
        }
    }
}

impl Clone for RoutePeerInfo {
    fn clone(&self) -> (r: Self)
        ensures
            r@ == self@,
    {
        RoutePeerInfo {
            peer_id: self.peer_id,
            inst_id: self.inst_id,
            cost: self.cost,
            ipv4_addr: self.ipv4_addr,
            hostname: match &self.hostname {
                Some(h) => Some(h.clone()),
                None => None,
            },
            last_update: self.last_update,
            version: self.version,
            easytier_version: self.easytier_version.clone(),
            feature_flag: self.feature_flag,
            peer_route_id: self.peer_route_id,
            network_length: self.network_length,
            others: crate::bytes::copy_bytes(self.others.as_slice()),
        }
    }
}

/// A list of peer infos.
#[derive(Debug)]
pub struct RoutePeerInfos {
    pub items: Vec<RoutePeerInfo>,
}

impl View for RoutePeerInfos {
    type V = Seq<RoutePeerInfoView>;

    open spec fn view(&self) -> Seq<RoutePeerInfoView> {
        self.items@.map_values(|i: RoutePeerInfo| i@)
    }
}

/// A peer and the version of its connections.
#[derive(Debug, Clone, Copy, PartialEq, Eq, Structural)]
pub struct PeerIdVersion {
    pub peer_id: u32,
    pub version: u32,
}

/// Which peers are connected: bit `row * n + column` of `bitmap`, least significant bit of each
/// byte first, stands for the pair of the peers at these places among the `n` in `peer_ids`.
#[derive(Debug)]
pub struct RouteConnBitmap {
    pub peer_ids: Vec<PeerIdVersion>,
    pub bitmap: Vec<u8>,
}

/// `RouteConnBitmap` over sequences.
#[verifier::ext_equal]
pub struct RouteConnBitmapView {
    pub peer_ids: Seq<PeerIdVersion>,
    pub bitmap: Seq<u8>,
}

impl View for RouteConnBitmap {
    type V = RouteConnBitmapView;

    open spec fn view(&self) -> RouteConnBitmapView {
        RouteConnBitmapView { peer_ids: self.peer_ids@, bitmap: self.bitmap@ }
    }
}

/// The peers that one peer is connected to.
#[derive(Debug)]
pub struct PeerConnInfo {
    pub peer_id: Option<PeerIdVersion>,
    pub connected_peer_ids: Vec<u32>,
}

/// `PeerConnInfo` over sequences.
#[verifier::ext_equal]
pub struct PeerConnInfoView {
    pub peer_id: Option<PeerIdVersion>,
    pub connected_peer_ids: Seq<u32>,
}

impl View for PeerConnInfo {
    type V = PeerConnInfoView;

    open spec fn view(&self) -> PeerConnInfoView {
        PeerConnInfoView { peer_id: self.peer_id, connected_peer_ids: self.connected_peer_ids@ }
    }
}

/// The connections of several peers, one entry for each.
#[derive(Debug)]
pub struct RouteConnPeerList {
    pub peer_conn_infos: Vec<PeerConnInfo>,
}

/// Connections as a peer reports them.
#[derive(Debug)]
pub enum ConnInfo {
    ConnBitmap(RouteConnBitmap),
    ConnPeerList(RouteConnPeerList),
}

/// `ConnInfo` over sequences.
#[verifier::ext_equal]
pub enum ConnInfoView {
    ConnBitmap(RouteConnBitmapView),
    ConnPeerList(Seq<PeerConnInfoView>),
}

impl View for ConnInfo {
    type V = ConnInfoView;

    open spec fn view(&self) -> ConnInfoView {
        match self {
            ConnInfo::ConnBitmap(b) => ConnInfoView::ConnBitmap(b@),
            ConnInfo::ConnPeerList(l) => ConnInfoView::ConnPeerList(
                l.peer_conn_infos@.map_values(|i: PeerConnInfo| i@),
            ),
        }
    }
}

/// Which network of which peer an entry is about.
#[derive(Debug)]
pub struct ForeignNetworkRouteInfoKey {
    pub peer_id: u32,
    pub network_name: String,
}

/// The peers of a network that are reached through a relay.
#[derive(Debug)]
pub struct ForeignNetworkRouteInfoEntry {
    pub foreign_peer_ids: Vec<u32>,
    pub last_update: Option<Timestamp>,
    pub version: u32,
    pub network_secret_digest: Vec<u8>,
    pub my_peer_id_for_this_network: u32,
}

/// One foreign network.
#[derive(Debug)]
pub struct ForeignNetworkInfo {
    pub key: Option<ForeignNetworkRouteInfoKey>,
    pub value: Option<ForeignNetworkRouteInfoEntry>,
}

/// A list of foreign networks.
#[derive(Debug)]
pub struct RouteForeignNetworkInfos {
    pub infos: Vec<ForeignNetworkInfo>,
}

/// `ForeignNetworkRouteInfoKey` over sequences.
#[verifier::ext_equal]
pub struct ForeignKeyView {
    pub peer_id: u32,
    pub network_name: Seq<char>,
}

/// `ForeignNetworkRouteInfoEntry` over sequences.
#[verifier::ext_equal]
pub struct ForeignEntryView {
    pub foreign_peer_ids: Seq<u32>,
    pub last_update: Option<Timestamp>,
    pub version: u32,
    pub network_secret_digest: Seq<u8>,
    pub my_peer_id_for_this_network: u32,
}

/// `ForeignNetworkInfo` over sequences.
#[verifier::ext_equal]
pub struct ForeignInfoView {
    pub key: Option<ForeignKeyView>,
    pub value: Option<ForeignEntryView>,
}

impl View for ForeignNetworkInfo {
    type V = ForeignInfoView;

    open spec fn view(&self) -> ForeignInfoView {
        ForeignInfoView {
            key: match self.key {
                Some(k) => Some(
                    ForeignKeyView { peer_id: k.peer_id, network_name: k.network_name@ },
                ),
                None => None,
            },
            value: match self.value {
                Some(e) => Some(
                    ForeignEntryView {
                        foreign_peer_ids: e.foreign_peer_ids@,
                        last_update: e.last_update,
                        version: e.version,
                        network_secret_digest: e.network_secret_digest@,
                        my_peer_id_for_this_network: e.my_peer_id_for_this_network,
                    },
                ),
                None => None,
            },
        }
    }
}

/// Asks a peer to take over route information.
#[derive(Debug)]
pub struct SyncRouteInfoRequest {
    pub my_peer_id: u32,
    pub my_session_id: u64,
    pub is_initiator: bool,
    pub peer_infos: Option<RoutePeerInfos>,
    pub conn_info: Option<ConnInfo>,
    pub foreign_network_infos: Option<RouteForeignNetworkInfos>,
}

/// `SyncRouteInfoRequest` over sequences.
#[verifier::ext_equal]
pub struct SyncRequestView {
    pub my_peer_id: u32,
    pub my_session_id: u64,
    pub is_initiator: bool,
    pub peer_infos: Option<Seq<RoutePeerInfoView>>,
    pub conn_info: Option<ConnInfoView>,
    pub foreign_network_infos: Option<Seq<ForeignInfoView>>,
}

impl View for SyncRouteInfoRequest {
    type V = SyncRequestView;

    open spec fn view(&self) -> SyncRequestView {
        SyncRequestView {
            my_peer_id: self.my_peer_id,
            my_session_id: self.my_session_id,
            is_initiator: self.is_initiator,
            peer_infos: match self.peer_infos {
                Some(p) => Some(p@),
                None => None,
            },
            conn_info: match self.conn_info {
                Some(c) => Some(c@),
                None => None,
            },
            foreign_network_infos: match self.foreign_network_infos {
                Some(f) => Some(f.infos@.map_values(|i: ForeignNetworkInfo| i@)),
                None => None,
            },
        }
    }
}

/// Answers a `SyncRouteInfoRequest`.
#[derive(Debug, Clone, Copy, PartialEq, Eq, Structural)]
pub struct SyncRouteInfoResponse {
    pub is_initiator: bool,
    pub session_id: u64,
    pub error: Option<i32>,
}

/// Opens a connection; also the answer to such a message.
#[derive(Debug)]
pub struct HandshakeRequest {
    pub magic: u32,
    pub my_peer_id: u32,
    pub version: u32,
    pub features: Vec<String>,
    pub network_name: String,
    pub network_secret_digest: Vec<u8>,
}

/// `HandshakeRequest` over sequences.
#[verifier::ext_equal]
pub struct HandshakeView {
    pub magic: u32,
    pub my_peer_id: u32,
    pub version: u32,
    pub features: Seq<Seq<char>>,
    pub network_name: Seq<char>,
    pub network_secret_digest: Seq<u8>,
}

impl View for HandshakeRequest {
    type V = HandshakeView;

    open spec fn view(&self) -> HandshakeView {
        HandshakeView {
            magic: self.magic,
            my_peer_id: self.my_peer_id,
            version: self.version,
            features: self.features@.map_values(|f: String| f@),
            network_name: self.network_name@,
            network_secret_digest: self.network_secret_digest@,
        }
    }
}

/// Which method of which service an RPC is for.
#[derive(Debug)]
pub struct RpcDescriptor {
    pub domain_name: String,
    pub proto_name: String,
    pub service_name: String,
    pub method_index: u32,
}

/// `RpcDescriptor` over sequences.
#[verifier::ext_equal]
pub struct RpcDescriptorView {
    pub domain_name: Seq<char>,
    pub proto_name: Seq<char>,
    pub service_name: Seq<char>,
    pub method_index: u32,
}

impl View for RpcDescriptor {
    type V = RpcDescriptorView;

    open spec fn view(&self) -> RpcDescriptorView {
        RpcDescriptorView {
            domain_name: self.domain_name@,
            proto_name: self.proto_name@,
            service_name: self.service_name@,
            method_index: self.method_index,
        }
    }
}

impl Clone for RpcDescriptor {
    fn clone(&self) -> (r: Self)
        ensures
            r@ == self@,
    {
        RpcDescriptor {
            domain_name: self.domain_name.clone(),
            proto_name: self.proto_name.clone(),
            service_name: self.service_name.clone(),
            method_index: self.method_index,
        }
    }
}

/// The view of a descriptor, if there is one.
pub open spec fn descriptor_of(d: Option<RpcDescriptor>) -> Option<RpcDescriptorView> {
    match d {
        Some(d) => Some(d@),
        None => None,
    }
}

/// How an RPC body is compressed, and how the answer may be.
#[derive(Debug, Clone, Copy, PartialEq, Eq, Structural)]
pub struct RpcCompressionInfo {
    pub algo: i32,
    pub accepted_algo: i32,
}

/// A message that travels as the bytes of another message's field: the bytes themselves, or the
/// message whose encoding stands there.
#[derive(Debug)]
pub enum Payload {
    Bytes(Vec<u8>),
    SyncRouteInfoRequest(SyncRouteInfoRequest),
    SyncRouteInfoResponse(SyncRouteInfoResponse),
}

/// `Payload` over sequences.
#[verifier::ext_equal]
pub enum PayloadView {
    Bytes(Seq<u8>),
    SyncRouteInfoRequest(SyncRequestView),
    SyncRouteInfoResponse(SyncRouteInfoResponse),
}

impl View for Payload {
    type V = PayloadView;

    open spec fn view(&self) -> PayloadView {
        match self {
            Payload::Bytes(b) => PayloadView::Bytes(b@),
            Payload::SyncRouteInfoRequest(m) => PayloadView::SyncRouteInfoRequest(m@),
            Payload::SyncRouteInfoResponse(m) => PayloadView::SyncRouteInfoResponse(*m),
        }
    }
}

/// The body of an RPC packet that asks for something.
#[derive(Debug)]
pub struct RpcRequest {
    pub descriptor: Option<RpcDescriptor>,
    pub request: Payload,
    pub timeout_ms: i32,
}

/// `RpcRequest` over sequences.
#[verifier::ext_equal]
pub struct RpcRequestView {
    pub descriptor: Option<RpcDescriptorView>,
    pub request: PayloadView,
    pub timeout_ms: i32,
}

impl View for RpcRequest {
    type V = RpcRequestView;

    open spec fn view(&self) -> RpcRequestView {
        RpcRequestView {
            descriptor: descriptor_of(self.descriptor),
            request: self.request@,
            timeout_ms: self.timeout_ms,
        }
    }
}

/// The body of an RPC packet that answers a request.
#[derive(Debug)]
pub struct RpcResponse {
    pub response: Payload,
    /// The encoding of the error, if there is one.
    pub error: Option<Vec<u8>>,
    pub runtime_us: u64,
}

/// `RpcResponse` over sequences.
#[verifier::ext_equal]
pub struct RpcResponseView {
    pub response: PayloadView,
    pub error: Option<Seq<u8>>,
    pub runtime_us: u64,
}

impl View for RpcResponse {
    type V = RpcResponseView;

    open spec fn view(&self) -> RpcResponseView {
        RpcResponseView {
            response: self.response@,
            error: match self.error {
                Some(e) => Some(e@),
                None => None,
            },
            runtime_us: self.runtime_us,
        }
    }
}

/// What an RPC packet carries: bytes as they arrived, or the message whose encoding stands there.
#[derive(Debug)]
pub enum RpcBody {
    Bytes(Vec<u8>),
    Request(RpcRequest),
    Response(RpcResponse),
}

/// `RpcBody` over sequences.
#[verifier::ext_equal]
pub enum RpcBodyView {
    Bytes(Seq<u8>),
    Request(RpcRequestView),
    Response(RpcResponseView),
}

impl View for RpcBody {
    type V = RpcBodyView;

    open spec fn view(&self) -> RpcBodyView {
        match self {
            RpcBody::Bytes(b) => RpcBodyView::Bytes(b@),
            RpcBody::Request(m) => RpcBodyView::Request(m@),
            RpcBody::Response(m) => RpcBodyView::Response(m@),
        }
    }
}

/// A remote procedure call, or the answer to one.
#[derive(Debug)]
pub struct RpcPacket {
    pub from_peer: u32,
    pub to_peer: u32,
    pub transaction_id: i64,
    pub descriptor: Option<RpcDescriptor>,
    pub body: RpcBody,
    pub is_request: bool,
    pub total_pieces: u32,
    pub piece_idx: u32,
    pub trace_id: i32,
    pub compression_info: Option<RpcCompressionInfo>,
}

/// `RpcPacket` over sequences.
#[verifier::ext_equal]
pub struct RpcPacketView {
    pub from_peer: u32,
    pub to_peer: u32,
    pub transaction_id: i64,
    pub descriptor: Option<RpcDescriptorView>,
    pub body: RpcBodyView,
    pub is_request: bool,
    pub total_pieces: u32,
    pub piece_idx: u32,
    pub trace_id: i32,
    pub compression_info: Option<RpcCompressionInfo>,
}

impl View for RpcPacket {
    type V = RpcPacketView;

    open spec fn view(&self) -> RpcPacketView {
        RpcPacketView {
            from_peer: self.from_peer,
            to_peer: self.to_peer,
            transaction_id: self.transaction_id,
            descriptor: descriptor_of(self.descriptor),
            body: self.body@,
            is_request: self.is_request,
            total_pieces: self.total_pieces,
            piece_idx: self.piece_idx,
            trace_id: self.trace_id,
            compression_info: self.compression_info,
        }
    }
}

} // verus!
