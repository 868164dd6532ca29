//! Laws that relate several parts of the transport.

use vstd::prelude::*;

use crate::addr::{
    custom_addr_of, is_nym, nym_bytes, recipient_at, recipient_of, NYM_ADDR_SIZE,
    NYM_TRANSPORT_ID,
};
use crate::custom_addr::CustomAddrView;
use crate::packet::source_of;
use crate::recipient::recipient_accepts;
use crate::recv::{
    delivers, law_data_is_placed_as_it_is, placed, recv_step, stride_of, ChannelView, Delivery,
    RecvStep,
};
use crate::send::{carried_size, payload_of};
use crate::wire::{law_read_undoes_write, packet_of, packet_wire};

verus! {

/// A Nym address survives the way through a custom address, which is one of the Nym
/// transport.
pub proof fn law_custom_addr_round_trip(bytes: Seq<u8>)
    requires
        bytes.len() == NYM_ADDR_SIZE,
    ensures
        is_nym(custom_addr_of(bytes)),
        nym_bytes(custom_addr_of(bytes)) == Some(bytes),
{
}

/// A custom address is that of a Nym address exactly where one can be read from it, and
/// then it is the custom address of what was read.
pub proof fn law_nym_addr_round_trip(addr: CustomAddrView)
    ensures
        is_nym(addr) <==> nym_bytes(addr) is Some,
        nym_bytes(addr) matches Some(bytes) ==> custom_addr_of(bytes) == addr,
{
}

/// An address of another transport, or of another size, names no recipient.
pub proof fn law_foreign_addr_names_nobody(addr: CustomAddrView)
    requires
        addr.id != NYM_TRANSPORT_ID || addr.data.len() != NYM_ADDR_SIZE,
    ensures
        nym_bytes(addr) is None,
        recipient_at(addr) is None,
{
}

/// A recipient survives the way through a Nym address and through a custom address, and
/// bytes that are no recipient do not become one on the way.
pub proof fn law_recipient_round_trip(bytes: Seq<u8>)
    requires
        bytes.len() == NYM_ADDR_SIZE,
    ensures
        recipient_accepts(bytes) ==> recipient_of(bytes) == Some(bytes),
        !recipient_accepts(bytes) ==> recipient_at(custom_addr_of(bytes)) is None,
        recipient_at(custom_addr_of(bytes)) == recipient_of(bytes),
{
}

/// Two addresses with the same custom address are the same address.
pub proof fn law_custom_addr_is_injective(a: Seq<u8>, b: Seq<u8>)
    requires
        custom_addr_of(a) == custom_addr_of(b),
    ensures
        a == b,
{
}

/// What is sent is received: the payload of a send, as a message at the other end, fills
/// the next slot with the contents that were sent, under the sender's address and with
/// its segment size, or all of the contents as one segment where sixteen bits do not
/// hold the size. It is skipped where the buffer has too little room.
pub proof fn law_sent_is_received(
    local: Seq<u8>,
    segment_size: Option<usize>,
    contents: Seq<u8>,
    filled: usize,
    room: nat,
)
    requires
        local.len() == NYM_ADDR_SIZE,
        contents.len() <= usize::MAX,
    ensures
        ({
            let packet = packet_of(local, carried_size(segment_size), contents);
            let message = ChannelView::Message(payload_of(local, segment_size, contents));
            &&& contents.len() <= room ==> recv_step(filled, message, room) == RecvStep::Fill(
                packet,
            )
            &&& contents.len() > room ==> recv_step(filled, message, room) is Skip
            &&& source_of(packet) == Some(local)
            &&& packet.data == contents
            &&& stride_of(packet) == match segment_size {
                Some(size) => if size <= u16::MAX {
                    size as nat
                } else {
                    contents.len()
                },
                None => contents.len(),
            }
        }),
{
    let packet = packet_of(local, carried_size(segment_size), contents);
    law_read_undoes_write(packet, Seq::empty());
    assert(packet_wire(packet) + Seq::<u8>::empty() =~= packet_wire(packet));
}


/// What is sent is what the receiver gets in its buffer: for every delivery of the packet in
/// a buffer with room for it, the first bytes of the buffer, as many as the delivery says,
/// are the contents that were sent, all of them and in order, and the rest of the buffer is
/// as it was. The delivery names the sender's address, and as the stride the segment size,
/// or else the number of bytes.
pub proof fn law_sent_contents_are_delivered(
    local: Seq<u8>,
    segment_size: Option<usize>,
    contents: Seq<u8>,
    delivery: Delivery,
    filled: usize,
    buf: Seq<u8>,
)
    requires
        local.len() == NYM_ADDR_SIZE,
        contents.len() <= buf.len(),
        buf.len() <= usize::MAX,
        ({
            let message = ChannelView::Message(payload_of(local, segment_size, contents));
            recv_step(filled, message, buf.len()) matches RecvStep::Fill(packet) ==> delivers(
                delivery,
                filled,
                packet,
            )
        }),
    ensures
        ({
            let message = ChannelView::Message(payload_of(local, segment_size, contents));
            &&& recv_step(filled, message, buf.len()) matches RecvStep::Fill(packet)
            &&& delivery.slot == filled
            &&& delivery.len == contents.len()
            &&& placed(buf, packet.data).len() == buf.len()
            &&& placed(buf, packet.data).take(delivery.len as int) == contents
            &&& placed(buf, packet.data).skip(delivery.len as int) == buf.skip(delivery.len as int)
            &&& delivery.source@.id == NYM_TRANSPORT_ID
            &&& delivery.source@.data == local
            &&& delivery.stride == match segment_size {
                Some(size) => if size <= 0xffff {
                    size as nat
                } else {
                    contents.len()
                },
                None => contents.len(),
            }
        }),
{
    law_sent_is_received(local, segment_size, contents, filled, buf.len());
    law_data_is_placed_as_it_is(buf, contents);
    assert(placed(buf, contents).take(contents.len() as int) =~= contents);
    assert(placed(buf, contents).skip(contents.len() as int) =~= buf.skip(contents.len() as int));
}

} // verus!
