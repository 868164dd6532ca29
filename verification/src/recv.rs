//! What to do with each message that comes in while a batch of buffers is filled.
//!
//! The caller polls the channel of received messages and carries out the actions; a
//! [`RecvBatch`] decides. It starts with [`RecvBatch::next`], which is also asked after
//! each delivery and each message that is skipped, and turns each reply of the channel
//! into an action.

use vstd::prelude::*;

use crate::addr::{custom_addr_of, NymAddr, NYM_ADDR_SIZE, NYM_TRANSPORT_ID};
use crate::custom_addr::CustomAddr;
use crate::packet::{source_of, NymPacket};
use crate::wire::{packet_at, PacketView};

verus! {

/// What the channel of received messages replied to a poll.
pub enum ChannelEvent<'a> {
    /// No message is there yet.
    Pending,
    /// The channel is closed and empty.
    Closed,
    /// The next message.
    Message(&'a [u8]),
}

/// What the channel replied, as mathematical values.
pub enum ChannelView {
    Pending,
    Closed,
    Message(Seq<u8>),
}

impl<'a> View for ChannelEvent<'a> {
    type V = ChannelView;

    open spec fn view(&self) -> ChannelView {
        match self {
            ChannelEvent::Pending => ChannelView::Pending,
            ChannelEvent::Closed => ChannelView::Closed,
            ChannelEvent::Message(message) => ChannelView::Message(message@),
        }
    }
}

/// How filling a batch ends.
#[derive(Debug, Clone, Copy, PartialEq, Eq, Structural)]
pub enum RecvOutcome {
    /// Nothing was delivered and the channel has nothing more for now.
    Pending,
    /// The channel is closed.
    Closed,
    /// This many slots are filled.
    Ready(usize),
}

impl RecvOutcome {
    /// What went wrong, in words, where something did.
    pub fn error_text(&self) -> (r: Option<String>)
        ensures
            match r {
                Some(text) => self is Closed && text@ == "packet channel closed"@,
                None => !(self is Closed),
            },
    {
        match self {
            RecvOutcome::Closed => Some("packet channel closed".to_owned()),
            _ => None,
        }
    }
}

/// A packet whose data has been placed in the buffer of a slot.
#[derive(Debug)]
pub struct Delivery {
    /// The slot that was filled.
    pub slot: usize,
    /// How many bytes of its buffer hold data.
    pub len: usize,
    /// How many bytes each datagram in the buffer has, but perhaps the last.
    pub stride: usize,
    /// Where the packet came from.
    pub source: CustomAddr,
}

/// Why a message is not delivered.
#[derive(Debug, Clone, Copy, PartialEq, Eq, Structural)]
pub enum SkipReason {
    /// It is no packet.
    Malformed,
    /// The packet's source does not have the size of an address.
    InvalidSource,
    /// The buffer of the slot has less room than the packet has data.
    BufferTooSmall {
        /// The bytes that the buffer has.
        room: usize,
        /// The bytes that the packet has.
        len: usize,
    },
}

/// What the caller is to do next.
#[derive(Debug)]
pub enum RecvAction {
    /// Poll the channel.
    Poll,
    /// Disregard the message, then ask [`RecvBatch::next`].
    Skip(SkipReason),
    /// Record the delivery in its slot, then ask [`RecvBatch::next`].
    Deliver(Delivery),
    /// Return.
    Return(RecvOutcome),
}

/// The decision on one reply of the channel.
pub enum RecvStep {
    Skip(SkipReason),
    Fill(PacketView),
    Finish(RecvOutcome),
}

/// The packet in a message, if it can be delivered: it is well formed, its source has
/// the size of an address and its data fits in the room that the buffer has.
pub open spec fn deliverable(message: Seq<u8>, room: nat) -> Option<PacketView> {
    match packet_at(message) {
        Some(packet) => if source_of(packet) is Some && packet.data.len() <= room {
            Some(packet)
        } else {
            None
        },
        None => None,
    }
}

/// Why the packet in a message cannot be delivered in `room` bytes.
pub open spec fn skip_reason(message: Seq<u8>, room: nat) -> SkipReason {
    match packet_at(message) {
        Some(packet) => if source_of(packet) is None {
            SkipReason::InvalidSource
        } else {
            SkipReason::BufferTooSmall { room: room as usize, len: packet.data.len() as usize }
        },
        None => SkipReason::Malformed,
    }
}

/// The datagram size of a packet: its segment size, or all of its data.
pub open spec fn stride_of(packet: PacketView) -> nat {
    match packet.segment_size {
        Some(size) => size as nat,
        None => packet.data.len(),
    }
}

/// The decision on a reply of the channel, when `filled` slots are filled and the
/// buffer of the next one has `room` bytes.
pub open spec fn recv_step(filled: usize, event: ChannelView, room: nat) -> RecvStep {
    match event {
        ChannelView::Pending => RecvStep::Finish(
            if filled == 0 {
                RecvOutcome::Pending
            } else {
                RecvOutcome::Ready(filled)
            },
        ),
        ChannelView::Closed => RecvStep::Finish(RecvOutcome::Closed),
        ChannelView::Message(message) => match deliverable(message, room) {
            Some(packet) => RecvStep::Fill(packet),
            None => RecvStep::Skip(skip_reason(message, room)),
        },
    }
}

/// The delivery of a packet in a slot.
pub open spec fn delivers(delivery: Delivery, slot: usize, packet: PacketView) -> bool {
    &&& delivery.slot == slot
    &&& delivery.len == packet.data.len()
    &&& delivery.stride == stride_of(packet)
    &&& delivery.source@ == custom_addr_of(packet.from)
}

/// What a delivery says of a packet, field by field.
pub open spec fn reports(delivery: Delivery, slot: usize, packet: PacketView) -> bool {
    &&& delivery.slot == slot
    &&& delivery.len == packet.data.len()
    &&& packet.segment_size matches Some(size) ==> delivery.stride == size
    &&& packet.segment_size is None ==> delivery.stride == delivery.len
    &&& delivery.source@.id == NYM_TRANSPORT_ID
    &&& delivery.source@.data == packet.from
    &&& packet.from.len() == NYM_ADDR_SIZE
}

/// The buffer has the data at its front, byte for byte, and is as it was after that.
pub open spec fn holds(buf: Seq<u8>, before: Seq<u8>, data: Seq<u8>) -> bool {
    &&& buf.len() == before.len()
    &&& data.len() <= buf.len()
    &&& forall|i: int| 0 <= i < data.len() ==> buf[i] == data[i]
    &&& forall|i: int| data.len() <= i < buf.len() ==> buf[i] == before[i]
}

/// A buffer with data placed at its front.
pub open spec fn placed(buf: Seq<u8>, data: Seq<u8>) -> Seq<u8> {
    data + buf.skip(data.len() as int)
}

/// The progress in filling a batch of slots.
#[derive(Debug, Clone, Copy)]
pub struct RecvBatch {
    limit: usize,
    filled: usize,
}

impl RecvBatch {
    /// The number of slots in the batch.
    pub closed spec fn limit(self) -> usize {
        self.limit
    }

    /// The number of slots that are filled.
    pub closed spec fn filled_slots(self) -> usize {
        self.filled
    }

    #[verifier::type_invariant]
    spec fn within_limit(self) -> bool {
        self.filled <= self.limit
    }

    /// A batch over as many slots as have a buffer, a meta entry and an address entry.
    pub fn new(bufs: usize, metas: usize, addrs: usize) -> (r: Self)
        ensures
            r.filled_slots() == 0,
            r.limit() <= bufs,
            r.limit() <= metas,
            r.limit() <= addrs,
            r.limit() == bufs || r.limit() == metas || r.limit() == addrs,
    {
        let mut limit: usize = bufs;
        if metas < limit {
            limit = metas;
        }
        if addrs < limit {
            limit = addrs;
        }
        RecvBatch { limit, filled: 0 }
    }

    /// How many slots are filled; the next delivery goes to the slot with this index.
    pub fn filled(&self) -> (r: usize)
        ensures
            r == self.filled_slots(),
            r <= self.limit(),
    {
        proof {
            use_type_invariant(self);
        }
        self.filled
    }

    /// Polls while slots are left to fill.
    pub fn next(&self) -> (r: RecvAction)
        ensures
            self.filled_slots() < self.limit() ==> r == RecvAction::Poll,
            self.filled_slots() >= self.limit() ==> r == RecvAction::Return(
                RecvOutcome::Ready(self.filled_slots()),
            ),
    {
        if self.filled < self.limit {
            RecvAction::Poll
        } else {
            RecvAction::Return(RecvOutcome::Ready(self.filled))
        }
    }

    /// Decides on a reply of the channel. `buf` is the buffer of the next slot; the data
    /// of a packet that is delivered has been copied to its front.
    pub fn on_event(&mut self, event: ChannelEvent<'_>, buf: &mut [u8]) -> (r: RecvAction)
        requires
            old(self).filled_slots() < old(self).limit(),
        ensures
            final(self).limit() == old(self).limit(),
            match recv_step(old(self).filled_slots(), event@, old(buf)@.len()) {
                RecvStep::Skip(reason) => {
                    &&& r == RecvAction::Skip(reason)
                    &&& final(self).filled_slots() == old(self).filled_slots()
                    &&& final(buf)@ == old(buf)@
                },
                RecvStep::Fill(packet) => {
                    &&& r matches RecvAction::Deliver(delivery)
                    &&& delivers(delivery, old(self).filled_slots(), packet)
                    &&& final(self).filled_slots() == old(self).filled_slots() + 1
                    &&& final(buf)@ == placed(old(buf)@, packet.data)
                },
                RecvStep::Finish(outcome) => {
                    &&& r == RecvAction::Return(outcome)
                    &&& final(self).filled_slots() == old(self).filled_slots()
                    &&& final(buf)@ == old(buf)@
                },
            },
            final(buf)@.len() == old(buf)@.len(),
            r matches RecvAction::Deliver(delivery) ==> {
                &&& event@ matches ChannelView::Message(message)
                &&& packet_at(message) matches Some(packet)
                &&& reports(delivery, old(self).filled_slots(), packet)
                &&& holds(final(buf)@, old(buf)@, packet.data)
            },
    {
        match event {
            ChannelEvent::Pending => if self.filled == 0 {
                RecvAction::Return(RecvOutcome::Pending)
            } else {
                RecvAction::Return(RecvOutcome::Ready(self.filled))
            },
            ChannelEvent::Closed => RecvAction::Return(RecvOutcome::Closed),
            ChannelEvent::Message(message) => self.on_message(message, buf),
        }
    }

    fn on_message(&mut self, message: &[u8], buf: &mut [u8]) -> (r: RecvAction)
        requires
            old(self).filled_slots() < old(self).limit(),
        ensures
            final(self).limit() == old(self).limit(),
            match deliverable(message@, old(buf)@.len()) {
                Some(packet) => {
                    &&& r matches RecvAction::Deliver(delivery)
                    &&& delivers(delivery, old(self).filled_slots(), packet)
                    &&& final(self).filled_slots() == old(self).filled_slots() + 1
                    &&& final(buf)@ == placed(old(buf)@, packet.data)
                },
                None => {
                    &&& r == RecvAction::Skip(skip_reason(message@, old(buf)@.len()))
                    &&& final(self).filled_slots() == old(self).filled_slots()
                    &&& final(buf)@ == old(buf)@
                },
            },
    {
        let packet = match NymPacket::from_bytes(message) {
            Some(packet) => packet,
            None => return RecvAction::Skip(SkipReason::Malformed),
        };
        let source = match packet.source_addr() {
            Some(bytes) => NymAddr(bytes),
            None => return RecvAction::Skip(SkipReason::InvalidSource),
        };
        if buf.len() < packet.data.len() {
            return RecvAction::Skip(
                SkipReason::BufferTooSmall { room: buf.len(), len: packet.data.len() },
            );
        }
        copy_to_front(packet.data.as_slice(), buf);
        proof {
            law_data_is_placed_as_it_is(old(buf)@, packet.data@);
        }
        let len: usize = packet.data.len();
        let stride: usize = match packet.segment_size {
            Some(size) => size as usize,
            None => len,
        };
        let slot: usize = self.filled;
        self.filled = slot + 1;
        RecvAction::Deliver(Delivery { slot, len, stride, source: source.to_custom_addr() })
    }
}

fn copy_to_front(data: &[u8], buf: &mut [u8])
    requires
        data@.len() <= old(buf)@.len(),
    ensures
        final(buf)@ == placed(old(buf)@, data@),
        forall|i: int| 0 <= i < data@.len() ==> final(buf)@[i] == data@[i],
        forall|i: int| data@.len() <= i < old(buf)@.len() ==> final(buf)@[i] == old(buf)@[i],
        final(buf)@.len() == old(buf)@.len(),
{
    let mut i: usize = 0;
    while i < data.len()
        invariant
            i <= data@.len() <= buf@.len(),
            buf@.len() == old(buf)@.len(),
            forall|j: int| 0 <= j < i ==> buf@[j] == data@[j],
            forall|j: int| i <= j < buf@.len() ==> buf@[j] == old(buf)@[j],
        decreases data@.len() - i,
    {
        buf[i] = data[i];
        i += 1;
    }
    assert(buf@ =~= placed(old(buf)@, data@));
}

/// What a batch has come to: the packets delivered, in the order of their slots, and
/// how it ended, if it has ended.
pub struct RecvRun {
    pub delivered: Seq<PacketView>,
    pub outcome: Option<RecvOutcome>,
}

/// What a batch of `limit` slots comes to, whose buffers have these rooms and in which
/// `done` has been delivered, when the channel replies with these events.
pub open spec fn recv_run(
    limit: usize,
    rooms: Seq<nat>,
    done: Seq<PacketView>,
    events: Seq<ChannelView>,
) -> RecvRun
    decreases events.len(),
{
    let filled = done.len() as usize;
    if done.len() >= limit {
        RecvRun { delivered: done, outcome: Some(RecvOutcome::Ready(filled)) }
    } else if events.len() == 0 {
        RecvRun { delivered: done, outcome: None }
    } else {
        match recv_step(filled, events[0], rooms[done.len() as int]) {
            RecvStep::Skip(_) => recv_run(limit, rooms, done, events.skip(1)),
            RecvStep::Fill(packet) => recv_run(limit, rooms, done.push(packet), events.skip(1)),
            RecvStep::Finish(outcome) => RecvRun { delivered: done, outcome: Some(outcome) },
        }
    }
}

/// The packets that can be delivered in `room` bytes, of the messages that come before
/// the channel first has none.
pub open spec fn packets_in(events: Seq<ChannelView>, room: nat) -> Seq<PacketView>
    decreases events.len(),
{
    if events.len() == 0 {
        Seq::empty()
    } else {
        match events[0] {
            ChannelView::Message(message) => match deliverable(message, room) {
                Some(packet) => seq![packet] + packets_in(events.skip(1), room),
                None => packets_in(events.skip(1), room),
            },
            _ => Seq::empty(),
        }
    }
}

/// A batch that reports a number of filled slots has delivered that many packets, at
/// least one unless it has no slots, and never more than it has slots. A batch that is
/// pending has delivered none.
pub proof fn law_outcome_counts_deliveries(
    limit: usize,
    rooms: Seq<nat>,
    events: Seq<ChannelView>,
)
    ensures
        ({
            let run = recv_run(limit, rooms, Seq::empty(), events);
            &&& run.delivered.len() <= limit
            &&& match run.outcome {
                Some(RecvOutcome::Ready(n)) => n == run.delivered.len() && (n > 0 || limit == 0),
                Some(RecvOutcome::Pending) => run.delivered.len() == 0 && limit > 0,
                Some(RecvOutcome::Closed) => run.delivered.len() < limit,
                None => run.delivered.len() < limit,
            }
        }),
{
    lemma_outcome(limit, rooms, Seq::empty(), events);
}

/// Each packet delivered comes from one message, in the order in which the messages
/// came, no message is delivered twice, and each packet fits in the buffer of its slot.
pub proof fn law_delivered_in_order(limit: usize, rooms: Seq<nat>, events: Seq<ChannelView>) -> (at:
    Seq<int>)
    ensures
        ({
            let delivered = recv_run(limit, rooms, Seq::empty(), events).delivered;
            &&& at.len() == delivered.len()
            &&& forall|i: int, j: int| 0 <= i < j < at.len() ==> at[i] < at[j]
            &&& forall|i: int|
                0 <= i < at.len() ==> 0 <= #[trigger] at[i] < events.len() && {
                    &&& events[at[i]] matches ChannelView::Message(message)
                    &&& deliverable(message, rooms[i]) == Some(delivered[i])
                }
        }),
{
    lemma_in_order(limit, rooms, Seq::empty(), events)
}

/// No message is passed over that can be delivered: each message that comes before the
/// batch has ended is delivered in the slot that was next, where the room of that slot's
/// buffer allows it, and changes nothing where it cannot be delivered there. What was
/// delivered before it stays.
pub proof fn law_nothing_passed_over(
    limit: usize,
    rooms: Seq<nat>,
    events: Seq<ChannelView>,
    at: int,
)
    requires
        0 <= at < events.len(),
        events[at] is Message,
        recv_run(limit, rooms, Seq::empty(), events.take(at)).outcome is None,
    ensures
        ({
            let before = recv_run(limit, rooms, Seq::empty(), events.take(at)).delivered;
            let after = recv_run(limit, rooms, Seq::empty(), events.take(at + 1)).delivered;
            let all = recv_run(limit, rooms, Seq::empty(), events).delivered;
            let slot = before.len() as int;
            &&& slot < limit
            &&& after == match deliverable(events[at]->Message_0, rooms[slot]) {
                Some(packet) => before.push(packet),
                None => before,
            }
            &&& after.len() <= all.len()
            &&& all.take(after.len() as int) == after
        }),
{
    let none = Seq::<PacketView>::empty();
    let before = recv_run(limit, rooms, none, events.take(at)).delivered;
    let step = seq![events[at]];
    assert(events.take(at + 1) =~= events.take(at) + step);
    lemma_goes_on(limit, rooms, none, events.take(at), step);
    assert(step.skip(1) =~= Seq::empty());
    reveal_with_fuel(recv_run, 3);
    let run = recv_run(limit, rooms, none, events.take(at + 1));
    assert(events =~= events.take(at + 1) + events.skip(at + 1));
    if run.outcome is None {
        lemma_goes_on(limit, rooms, none, events.take(at + 1), events.skip(at + 1));
        let rest = lemma_in_order(limit, rooms, run.delivered, events.skip(at + 1));
    } else {
        law_ended_is_ended(limit, rooms, none, events.take(at + 1), events.skip(at + 1));
        assert(run.delivered.take(run.delivered.len() as int) =~= run.delivered);
    }
}

/// Where all buffers have the same room, what is delivered is exactly what can be
/// delivered of the messages that come before the channel has none, up to the number of
/// slots: nothing is passed over but what cannot be delivered.
pub proof fn law_equal_rooms_take_all(
    limit: usize,
    rooms: Seq<nat>,
    room: nat,
    events: Seq<ChannelView>,
)
    requires
        forall|i: int| 0 <= i < limit ==> rooms[i] == room,
    ensures
        ({
            let packets = packets_in(events, room);
            let most = if packets.len() < limit {
                packets.len() as int
            } else {
                limit as int
            };
            recv_run(limit, rooms, Seq::empty(), events).delivered == packets.take(most)
        }),
{
    lemma_delivered(limit, rooms, room, Seq::empty(), events);
    let packets = packets_in(events, room);
    assert(Seq::<PacketView>::empty() + packets =~= packets);
}

/// Once a batch has ended, what the channel would reply next makes no difference: it is
/// left in the channel.
pub proof fn law_ended_is_ended(
    limit: usize,
    rooms: Seq<nat>,
    done: Seq<PacketView>,
    events: Seq<ChannelView>,
    more: Seq<ChannelView>,
)
    requires
        recv_run(limit, rooms, done, events).outcome is Some,
    ensures
        recv_run(limit, rooms, done, events + more) == recv_run(limit, rooms, done, events),
    decreases events.len(),
{
    if done.len() < limit {
        assert((events + more).skip(1) =~= events.skip(1) + more);
        match recv_step(done.len() as usize, events[0], rooms[done.len() as int]) {
            RecvStep::Skip(_) => law_ended_is_ended(limit, rooms, done, events.skip(1), more),
            RecvStep::Fill(packet) => law_ended_is_ended(
                limit,
                rooms,
                done.push(packet),
                events.skip(1),
                more,
            ),
            RecvStep::Finish(_) => {},
        }
    }
}

proof fn lemma_outcome(
    limit: usize,
    rooms: Seq<nat>,
    done: Seq<PacketView>,
    events: Seq<ChannelView>,
)
    requires
        done.len() <= limit,
    ensures
        ({
            let run = recv_run(limit, rooms, done, events);
            &&& done.len() <= run.delivered.len() <= limit
            &&& match run.outcome {
                Some(RecvOutcome::Ready(n)) => n == run.delivered.len() && (n > 0 || limit == 0),
                Some(RecvOutcome::Pending) => run.delivered.len() == 0 && limit > 0,
                Some(RecvOutcome::Closed) => run.delivered.len() < limit,
                None => run.delivered.len() < limit,
            }
        }),
    decreases events.len(),
{
    if done.len() < limit && events.len() > 0 {
        match recv_step(done.len() as usize, events[0], rooms[done.len() as int]) {
            RecvStep::Skip(_) => lemma_outcome(limit, rooms, done, events.skip(1)),
            RecvStep::Fill(packet) => lemma_outcome(
                limit,
                rooms,
                done.push(packet),
                events.skip(1),
            ),
            RecvStep::Finish(_) => {},
        }
    }
}

/// A batch that has not ended goes on from what it has delivered.
proof fn lemma_goes_on(
    limit: usize,
    rooms: Seq<nat>,
    done: Seq<PacketView>,
    events: Seq<ChannelView>,
    more: Seq<ChannelView>,
)
    requires
        done.len() <= limit,
        recv_run(limit, rooms, done, events).outcome is None,
    ensures
        recv_run(limit, rooms, done, events).delivered.len() < limit,
        recv_run(limit, rooms, done, events + more) == recv_run(
            limit,
            rooms,
            recv_run(limit, rooms, done, events).delivered,
            more,
        ),
    decreases events.len(),
{
    if events.len() == 0 {
        assert(events + more =~= more);
    } else {
        assert((events + more).skip(1) =~= events.skip(1) + more);
        match recv_step(done.len() as usize, events[0], rooms[done.len() as int]) {
            RecvStep::Skip(_) => lemma_goes_on(limit, rooms, done, events.skip(1), more),
            RecvStep::Fill(packet) => lemma_goes_on(
                limit,
                rooms,
                done.push(packet),
                events.skip(1),
                more,
            ),
            RecvStep::Finish(_) => {},
        }
    }
}

proof fn lemma_in_order(
    limit: usize,
    rooms: Seq<nat>,
    done: Seq<PacketView>,
    events: Seq<ChannelView>,
) -> (at: Seq<int>)
    requires
        done.len() <= limit,
    ensures
        ({
            let delivered = recv_run(limit, rooms, done, events).delivered;
            &&& delivered.len() == done.len() + at.len()
            &&& delivered.take(done.len() as int) == done
            &&& forall|i: int, j: int| 0 <= i < j < at.len() ==> at[i] < at[j]
            &&& forall|i: int|
                0 <= i < at.len() ==> 0 <= #[trigger] at[i] < events.len() && {
                    &&& events[at[i]] matches ChannelView::Message(message)
                    &&& deliverable(message, rooms[done.len() + i]) == Some(
                        delivered[done.len() + i],
                    )
                }
        }),
    decreases events.len(),
{
    let delivered = recv_run(limit, rooms, done, events).delivered;
    if done.len() < limit && events.len() > 0 {
        match recv_step(done.len() as usize, events[0], rooms[done.len() as int]) {
            RecvStep::Skip(_) => {
                let rest = lemma_in_order(limit, rooms, done, events.skip(1));
                rest.map_values(|i: int| i + 1)
            },
            RecvStep::Fill(packet) => {
                let rest = lemma_in_order(limit, rooms, done.push(packet), events.skip(1));
                let at = seq![0int] + rest.map_values(|i: int| i + 1);
                let n = done.len() as int;
                assert(delivered.take(n + 1)[n] == delivered[n]);
                assert(delivered.take(n + 1).take(n) =~= delivered.take(n));
                assert(done.push(packet).take(n) =~= done);
                assert forall|i: int| 0 <= i < at.len() implies 0 <= #[trigger] at[i]
                    < events.len() && {
                    &&& events[at[i]] matches ChannelView::Message(message)
                    &&& deliverable(message, rooms[done.len() + i]) == Some(
                        delivered[done.len() + i],
                    )
                } by {
                    if i > 0 {
                        assert(at[i] == rest[i - 1] + 1);
                        assert(events.skip(1)[rest[i - 1]] == events[at[i]]);
                        assert(done.push(packet).len() + (i - 1) == done.len() + i);
                    }
                }
                at
            },
            RecvStep::Finish(_) => {
                assert(delivered.take(done.len() as int) =~= done);
                Seq::empty()
            },
        }
    } else {
        assert(delivered.take(done.len() as int) =~= done);
        Seq::empty()
    }
}

proof fn lemma_delivered(
    limit: usize,
    rooms: Seq<nat>,
    room: nat,
    done: Seq<PacketView>,
    events: Seq<ChannelView>,
)
    requires
        done.len() <= limit,
        forall|i: int| 0 <= i < limit ==> rooms[i] == room,
    ensures
        ({
            let packets = done + packets_in(events, room);
            let most = if packets.len() < limit {
                packets.len() as int
            } else {
                limit as int
            };
            recv_run(limit, rooms, done, events).delivered == packets.take(most)
        }),
    decreases events.len(),
{
    let packets = done + packets_in(events, room);
    if done.len() >= limit {
        assert(packets.take(limit as int) =~= done);
    } else if events.len() == 0 {
        assert(packets.take(packets.len() as int) =~= done);
    } else {
        match recv_step(done.len() as usize, events[0], rooms[done.len() as int]) {
            RecvStep::Skip(_) => lemma_delivered(limit, rooms, room, done, events.skip(1)),
            RecvStep::Fill(packet) => {
                lemma_delivered(limit, rooms, room, done.push(packet), events.skip(1));
                assert(packets =~= done.push(packet) + packets_in(events.skip(1), room));
            },
            RecvStep::Finish(_) => assert(packets.take(packets.len() as int) =~= done),
        }
    }
}


/// Data that is placed in a buffer with room for it is there byte for byte from the front
/// on, every later byte is as it was, and the buffer is as long as it was.
pub proof fn law_data_is_placed_as_it_is(buf: Seq<u8>, data: Seq<u8>)
    requires
        data.len() <= buf.len(),
    ensures
        placed(buf, data).len() == buf.len(),
        forall|i: int| 0 <= i < data.len() ==> placed(buf, data)[i] == data[i],
        forall|i: int| data.len() <= i < buf.len() ==> placed(buf, data)[i] == buf[i],
{
}

/// A delivery says of the packet how many bytes of data it has, its segment size or else
/// that number, and the address that the packet says it is from, under the id of the Nym
/// transport.
pub proof fn law_delivery_reports_the_packet(delivery: Delivery, slot: usize, packet: PacketView)
    requires
        delivers(delivery, slot, packet),
    ensures
        delivery.slot == slot,
        delivery.len == packet.data.len(),
        packet.segment_size matches Some(size) ==> delivery.stride == size,
        packet.segment_size is None ==> delivery.stride == packet.data.len(),
        delivery.source@.id == NYM_TRANSPORT_ID,
        delivery.source@.data.len() == packet.from.len(),
        forall|i: int| 0 <= i < packet.from.len() ==> delivery.source@.data[i] == packet.from[i],
{
}

/// A message can be delivered exactly where it has a packet whose source has the size of an
/// address and whose data is no longer than the room, and then it is that packet.
pub proof fn law_what_can_be_delivered(message: Seq<u8>, room: nat)
    ensures
        deliverable(message, room) is Some <==> {
            &&& packet_at(message) matches Some(packet)
            &&& packet.from.len() == NYM_ADDR_SIZE
            &&& packet.data.len() <= room
        },
        deliverable(message, room) is Some ==> deliverable(message, room) == packet_at(message),
{
}

/// The reason for which a message is skipped is the first that holds: it is no packet, its
/// source does not have the size of an address, or its data is longer than the room.
pub proof fn law_skip_reason_holds(message: Seq<u8>, room: usize)
    requires
        deliverable(message, room as nat) is None,
        packet_at(message) matches Some(packet) ==> packet.data.len() <= usize::MAX,
    ensures
        skip_reason(message, room as nat) is Malformed <==> packet_at(message) is None,
        skip_reason(message, room as nat) is InvalidSource <==> {
            &&& packet_at(message) matches Some(packet)
            &&& packet.from.len() != NYM_ADDR_SIZE
        },
        skip_reason(message, room as nat) matches SkipReason::BufferTooSmall { room: had, len }
            ==> {
            &&& packet_at(message) matches Some(packet)
            &&& len == packet.data.len()
            &&& had == room
            &&& had < len
        },
{
}

/// The stride of a packet is its segment size, also where that is larger than the data, and
/// without one all of the data.
pub proof fn law_stride_is_the_segment_size(from: Seq<u8>, size: u16, data: Seq<u8>)
    ensures
        stride_of(PacketView { from, segment_size: Some(size), data }) == size,
        stride_of(PacketView { from, segment_size: None, data }) == data.len(),
{
}

/// A reply of the channel decides as it should: without a message the batch ends, with what
/// it has or pending where it has nothing; a closed channel ends it in any case; and with a
/// message it goes on, delivering the packet where that can be.
pub proof fn law_reply_decides(filled: usize, room: nat, message: Seq<u8>)
    ensures
        filled > 0 ==> recv_step(filled, ChannelView::Pending, room) == RecvStep::Finish(
            RecvOutcome::Ready(filled),
        ),
        recv_step(0, ChannelView::Pending, room) == RecvStep::Finish(RecvOutcome::Pending),
        recv_step(filled, ChannelView::Closed, room) == RecvStep::Finish(RecvOutcome::Closed),
        !(recv_step(filled, ChannelView::Message(message), room) is Finish),
        recv_step(filled, ChannelView::Message(message), room) is Fill <==> {
            &&& packet_at(message) matches Some(packet)
            &&& packet.from.len() == NYM_ADDR_SIZE
            &&& packet.data.len() <= room
        },
        recv_step(filled, ChannelView::Message(message), room) matches RecvStep::Fill(packet)
            ==> packet_at(message) == Some(packet),
{
}

/// The view of a reply is the reply, with the bytes of its message.
pub proof fn law_reply_shows_its_message(message: &[u8])
    ensures
        ChannelEvent::Pending@ == ChannelView::Pending,
        ChannelEvent::Closed@ == ChannelView::Closed,
        ChannelEvent::Message(message)@ == ChannelView::Message(message@),
{
}

} // verus!
