//! The binary packet header.

use vstd::prelude::*;

use crate::bytes::{push_le32, read_le32};
use crate::constants::{PacketType, HEADER_SIZE, MY_PEER_ID};

verus! {

/// The header that stands before the payload of every packet.
#[derive(Debug, Clone, Copy, PartialEq, Eq, Structural)]
pub struct PacketHeader {
    pub from_peer_id: u32,
    pub to_peer_id: u32,
    pub packet_type: u8,
    pub flags: u8,
    pub forward_counter: u8,
    pub reserved: u8,
    pub len: u32,
}

impl PacketHeader {
    /// The header as it stands on the wire: the two peer ids, four single bytes and the payload
    /// length, each number least significant byte first.
    pub open spec fn wire(self) -> Seq<u8> {
        crate::bytes::le32(self.from_peer_id) + crate::bytes::le32(self.to_peer_id) + seq![
            self.packet_type,
            self.flags,
            self.forward_counter,
            self.reserved,
        ] + crate::bytes::le32(self.len)
    }

    /// The header that the first sixteen bytes of `b` hold.
    pub open spec fn read(b: Seq<u8>) -> PacketHeader {
        PacketHeader {
            from_peer_id: crate::bytes::from_le32(b.subrange(0, 4)),
            to_peer_id: crate::bytes::from_le32(b.subrange(4, 8)),
            packet_type: b[8],
            flags: b[9],
            forward_counter: b[10],
            reserved: b[11],
            len: crate::bytes::from_le32(b.subrange(12, 16)),
        }
    }

    /// Reads a header from the start of `bytes`; `None` when there are fewer bytes than a header
    /// has.
    pub fn from_bytes(bytes: &[u8]) -> (r: Option<Self>)
        ensures
            r == (if bytes@.len() < HEADER_SIZE {
                None
            } else {
                Some(Self::read(bytes@))
            }),
    {
        if bytes.len() < HEADER_SIZE {
            return None;
        }
        Some(
            PacketHeader {
                from_peer_id: read_le32(bytes, 0),
                to_peer_id: read_le32(bytes, 4),
                packet_type: bytes[8],
                flags: bytes[9],
                forward_counter: bytes[10],
                reserved: bytes[11],
                len: read_le32(bytes, 12),
            },
        )
    }

    /// Writes the header.
    pub fn to_bytes(&self) -> (r: Vec<u8>)
        ensures
            r@ == self.wire(),
            r@.len() == HEADER_SIZE,
    {
        let mut buf: Vec<u8> = Vec::with_capacity(HEADER_SIZE);
        push_le32(&mut buf, self.from_peer_id);
        push_le32(&mut buf, self.to_peer_id);
        buf.push(self.packet_type);
        buf.push(self.flags);
        buf.push(self.forward_counter);
        buf.push(self.reserved);
        push_le32(&mut buf, self.len);
        assert(buf@ =~= self.wire());
        buf
    }

    /// The packet type that the header names.
    pub fn packet_type_enum(&self) -> (r: PacketType)
        ensures
            PacketType::is_known(self.packet_type) ==> r.code() == self.packet_type,
            !PacketType::is_known(self.packet_type) ==> r == PacketType::Invalid,
    {
        PacketType::from_u8(self.packet_type)
    }
}

/// The header of a fresh packet: no flags, one hop.
pub open spec fn fresh_header(
    from_peer_id: u32,
    to_peer_id: u32,
    packet_type: PacketType,
    payload_len: u32,
) -> PacketHeader {
    PacketHeader {
        from_peer_id,
        to_peer_id,
        packet_type: packet_type.code(),
        flags: 0,
        forward_counter: 1,
        reserved: 0,
        len: payload_len,
    }
}

/// Parse a 16-byte packet header from a buffer. Returns None if buffer is too short.
pub fn parse_header(bytes: &[u8]) -> (r: Option<PacketHeader>)
    ensures
        r == (if bytes@.len() < HEADER_SIZE {
            None
        } else {
            Some(PacketHeader::read(bytes@))
        }),
{
    PacketHeader::from_bytes(bytes)
}

/// Create a 16-byte packet header.
pub fn create_header(
    from_peer_id: u32,
    to_peer_id: u32,
    packet_type: PacketType,
    payload_len: u32,
) -> (r: Vec<u8>)
    ensures
        r@ == fresh_header(from_peer_id, to_peer_id, packet_type, payload_len).wire(),
        r@.len() == HEADER_SIZE,
{
    let header = PacketHeader {
        from_peer_id,
        to_peer_id,
        packet_type: packet_type.to_u8(),
        flags: 0,
        forward_counter: 1,
        reserved: 0,
        len: payload_len,
    };
    header.to_bytes()
}

/// Create a header for server response (from MY_PEER_ID to target).
pub fn create_server_header(to_peer_id: u32, packet_type: PacketType, payload_len: u32) -> (r: Vec<
    u8,
>)
    ensures
        r@ == fresh_header(MY_PEER_ID, to_peer_id, packet_type, payload_len).wire(),
        r@.len() == HEADER_SIZE,
{
    create_header(MY_PEER_ID, to_peer_id, packet_type, payload_len)
}

/// A fresh packet: its header, then `payload`. The length field holds the payload's length
/// modulo 2^32.
pub open spec fn framed(
    from_peer_id: u32,
    to_peer_id: u32,
    packet_type: PacketType,
    payload: Seq<u8>,
) -> Seq<u8> {
    fresh_header(from_peer_id, to_peer_id, packet_type, payload.len() as u32).wire() + payload
}

/// Puts a fresh header before `payload`.
pub fn frame_packet(
    from_peer_id: u32,
    to_peer_id: u32,
    packet_type: PacketType,
    payload: &[u8],
) -> (r: Vec<u8>)
    ensures
        r@ == framed(from_peer_id, to_peer_id, packet_type, payload@),
{
    let mut full = create_header(from_peer_id, to_peer_id, packet_type, payload.len() as u32);
    crate::bytes::append_bytes(&mut full, payload);
    full
}

/// A header that was written is read back as it was, whatever follows it.
pub proof fn header_survives_the_wire(h: PacketHeader, payload: Seq<u8>)
    ensures
        h.wire().len() == HEADER_SIZE,
        PacketHeader::read(h.wire() + payload) == h,
        (h.wire() + payload).skip(HEADER_SIZE as int) == payload,
{
    let b = h.wire() + payload;
    assert(b.subrange(0, 4) =~= crate::bytes::le32(h.from_peer_id));
    assert(b.subrange(4, 8) =~= crate::bytes::le32(h.to_peer_id));
    assert(b.subrange(12, 16) =~= crate::bytes::le32(h.len));
    crate::bytes::le32_round_trip(h.from_peer_id);
    crate::bytes::le32_round_trip(h.to_peer_id);
    crate::bytes::le32_round_trip(h.len);
    assert(b.skip(HEADER_SIZE as int) =~= payload);
}

/// Writing the header that was read from a buffer gives the buffer's first sixteen bytes.
pub proof fn read_header_is_rewritten_alike(b: Seq<u8>)
    requires
        b.len() >= HEADER_SIZE,
    ensures
        PacketHeader::read(b).wire() == b.take(HEADER_SIZE as int),
{
    crate::bytes::from_le32_round_trip(b.subrange(0, 4));
    crate::bytes::from_le32_round_trip(b.subrange(4, 8));
    crate::bytes::from_le32_round_trip(b.subrange(12, 16));
    let w = PacketHeader::read(b).wire();
    let t = b.take(HEADER_SIZE as int);
    assert(w =~= b.subrange(0, 4) + b.subrange(4, 8) + seq![b[8], b[9], b[10], b[11]] + b.subrange(
        12,
        16,
    ));
    assert(w =~= t);
}

} // verus!
