//! Protocol constants and packet types.

use vstd::prelude::*;

verus! {

/// Magic number used in EasyTier handshake protocol.
pub const MAGIC: u32 = 0xd1e1a5e1;

/// Protocol version.
pub const VERSION: u32 = 1;

/// Server's own Peer ID.
pub const MY_PEER_ID: u32 = 10000001;

/// Size of the binary packet header in bytes.
pub const HEADER_SIZE: usize = 16;

/// Packet types for EasyTier protocol.
#[derive(Debug, Clone, Copy, PartialEq, Eq, Structural)]
pub enum PacketType {
    Invalid,
    Data,
    HandShake,
    /// Deprecated.
    RoutePacket,
    Ping,
    Pong,
    /// Deprecated.
    TaRpc,
    /// Deprecated.
    Route,
    RpcReq,
    RpcResp,
    ForeignNetworkPacket,
    KcpSrc,
    KcpDst,
    NoiseHandshakeMsg1,
    NoiseHandshakeMsg2,
    NoiseHandshakeMsg3,
    QuicSrc,
    QuicDst,
    RelayHandshake,
    RelayHandshakeAck,
}

impl PacketType {
    /// The number that stands for this type in a packet header.
    pub open spec fn code(self) -> u8 {
        match self {
            PacketType::Invalid => 0,
            PacketType::Data => 1,
            PacketType::HandShake => 2,
            PacketType::RoutePacket => 3,
            PacketType::Ping => 4,
            PacketType::Pong => 5,
            PacketType::TaRpc => 6,
            PacketType::Route => 7,
            PacketType::RpcReq => 8,
            PacketType::RpcResp => 9,
            PacketType::ForeignNetworkPacket => 10,
            PacketType::KcpSrc => 11,
            PacketType::KcpDst => 12,
            PacketType::NoiseHandshakeMsg1 => 13,
            PacketType::NoiseHandshakeMsg2 => 14,
            PacketType::NoiseHandshakeMsg3 => 15,
            PacketType::QuicSrc => 16,
            PacketType::QuicDst => 17,
            PacketType::RelayHandshake => 20,
            PacketType::RelayHandshakeAck => 21,
        }
    }

    /// Whether `v` is the number of some type other than `Invalid`.
    pub open spec fn is_known(v: u8) -> bool {
        1 <= v <= 17 || v == 20 || v == 21
    }

    /// The type that the number `v` stands for; `Invalid` for every number that is not assigned.
    pub fn from_u8(v: u8) -> (r: Self)
        ensures
            Self::is_known(v) ==> r.code() == v,
            !Self::is_known(v) ==> r == PacketType::Invalid,
    {
        match v {
            1 => PacketType::Data,
            2 => PacketType::HandShake,
            3 => PacketType::RoutePacket,
            4 => PacketType::Ping,
            5 => PacketType::Pong,
            6 => PacketType::TaRpc,
            7 => PacketType::Route,
            8 => PacketType::RpcReq,
            9 => PacketType::RpcResp,
            10 => PacketType::ForeignNetworkPacket,
            11 => PacketType::KcpSrc,
            12 => PacketType::KcpDst,
            13 => PacketType::NoiseHandshakeMsg1,
            14 => PacketType::NoiseHandshakeMsg2,
            15 => PacketType::NoiseHandshakeMsg3,
            16 => PacketType::QuicSrc,
            17 => PacketType::QuicDst,
            20 => PacketType::RelayHandshake,
            21 => PacketType::RelayHandshakeAck,
            _ => PacketType::Invalid,
        }
    }

    /// The number that stands for this type in a packet header.
    pub fn to_u8(self) -> (r: u8)
        ensures
            r == self.code(),
    {
        match self {
            PacketType::Invalid => 0,
            PacketType::Data => 1,
            PacketType::HandShake => 2,
            PacketType::RoutePacket => 3,
            PacketType::Ping => 4,
            PacketType::Pong => 5,
            PacketType::TaRpc => 6,
            PacketType::Route => 7,
            PacketType::RpcReq => 8,
            PacketType::RpcResp => 9,
            PacketType::ForeignNetworkPacket => 10,
            PacketType::KcpSrc => 11,
            PacketType::KcpDst => 12,
            PacketType::NoiseHandshakeMsg1 => 13,
            PacketType::NoiseHandshakeMsg2 => 14,
            PacketType::NoiseHandshakeMsg3 => 15,
            PacketType::QuicSrc => 16,
            PacketType::QuicDst => 17,
            PacketType::RelayHandshake => 20,
            PacketType::RelayHandshakeAck => 21,
        }
    }
}

/// Two types with the same number are the same type, so a type survives being written to a
/// header and read back: whatever `from_u8` returns for `a.code()` is `a` itself.
pub proof fn packet_type_code_is_injective(a: PacketType, b: PacketType)
    requires
        a.code() == b.code(),
    ensures
        a == b,
        a == PacketType::Invalid || PacketType::is_known(a.code()),
{
}

} // verus!
