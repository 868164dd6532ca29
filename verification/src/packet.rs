//! The packet that travels over the mixnet.

use vstd::prelude::*;

use crate::addr::{array_from, NYM_ADDR_SIZE};
use crate::wire::{
    packet_at, packet_of, packet_wire, postcard_from_bytes, postcard_to_allocvec, PacketView,
    MAX_FIELD_BYTES,
};

verus! {

/// A packet carried over the Nym mixnet transport.
///
/// Contains the source address, optional segment size for GSO batching,
/// and the payload data.
#[derive(Debug, Clone)]
pub struct NymPacket {
    /// Source Nym address (96 bytes in a packet that this transport sends).
    pub from: Vec<u8>,
    /// Segment size for GSO batching (optional).
    pub segment_size: Option<u16>,
    /// Raw packet payload.
    pub data: Vec<u8>,
}

impl View for NymPacket {
    type V = PacketView;

    open spec fn view(&self) -> PacketView {
        packet_of(self.from@, self.segment_size, self.data@)
    }
}

/// The source address of a packet, if it has the size of one.
pub open spec fn source_of(packet: PacketView) -> Option<Seq<u8>> {
    if packet.from.len() == NYM_ADDR_SIZE {
        Some(packet.from)
    } else {
        None
    }
}

impl NymPacket {
    /// Creates a new packet.
    pub fn new(from: [u8; NYM_ADDR_SIZE], segment_size: Option<u16>, data: Vec<u8>) -> (r: Self)
        ensures
            r@ == packet_of(from@, segment_size, data@),
            r.from@ == from@,
            r.segment_size == segment_size,
            r.data@ == data@,
    {
        NymPacket { from: vstd::slice::slice_to_vec(&from), segment_size, data }
    }

    /// The source address if valid (96 bytes).
    pub fn source_addr(&self) -> (r: Option<[u8; NYM_ADDR_SIZE]>)
        ensures
            match r {
                Some(bytes) => source_of(self@) == Some(bytes@),
                None => source_of(self@) is None,
            },
            r is Some <==> self.from@.len() == NYM_ADDR_SIZE,
            r matches Some(bytes) ==> bytes@ == self.from@,
    {
        array_from(self.from.as_slice())
    }

    /// Serializes the packet using postcard. [`NymPacket::from_bytes`] reads it back.
    pub fn to_bytes(&self) -> (r: Vec<u8>)
        requires
            self.from@.len() + self.data@.len() <= MAX_FIELD_BYTES,
        ensures
            r@ == packet_wire(self@),
            packet_at(r@) == Some(self@),
    {
        let wire = postcard_to_allocvec(
            self.from.as_slice(),
            self.segment_size,
            self.data.as_slice(),
        ).unwrap();
        proof {
            crate::wire::law_read_undoes_write(self@, Seq::empty());
            assert(wire@ + Seq::<u8>::empty() =~= wire@);
        }
        wire
    }

    /// Deserializes a packet from bytes.
    pub fn from_bytes(bytes: &[u8]) -> (r: Option<Self>)
        ensures
            match r {
                Some(packet) => packet_at(bytes@) == Some(packet@),
                None => packet_at(bytes@) is None,
            },
    {
        match postcard_from_bytes(bytes) {
            Ok((from, segment_size, data)) => Some(NymPacket { from, segment_size, data }),
            Err(_) => None,
        }
    }
}


/// The view of a packet has the packet's own three fields.
pub proof fn law_packet_shows_its_fields(packet: NymPacket)
    ensures
        packet@.from == packet.from@,
        packet@.segment_size == packet.segment_size,
        packet@.data == packet.data@,
{
}

/// A packet has a source exactly where that has the size of an address, and then it is
/// what the packet says it is from, byte for byte.
pub proof fn law_source_is_where_it_is_from(packet: PacketView)
    ensures
        source_of(packet) is Some <==> packet.from.len() == NYM_ADDR_SIZE,
        source_of(packet) matches Some(source) ==> source.len() == packet.from.len() && forall|
            i: int,
        |
            0 <= i < source.len() ==> source[i] == packet.from[i],
{
}

} // verus!
