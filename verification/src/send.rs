//! What to do on each poll to send a packet.
//!
//! Packets leave through a bounded queue. When it is full, the packet waits in a slot
//! as a send that goes on across polls, behind a lock that another poll may hold. The
//! next poll may be about that packet or about another one: a poll reports a packet as
//! sent only where the queue has taken that packet. The caller looks at the slot, the
//! queue and the lock and carries out the actions; a [`SendAttempt`] decides.

use vstd::multiset::Multiset;
use vstd::prelude::*;

use crate::addr::{from_custom_addr, recipient_at, NymAddr, NYM_ADDR_SIZE};
use crate::custom_addr::CustomAddr;
use crate::packet::NymPacket;
use crate::recipient::Recipient;
use crate::wire::{
    law_read_undoes_write, packet_at, packet_of, packet_wire, PacketView, MAX_FIELD_BYTES,
};

verus! {

/// Message to send via the mixnet.
#[derive(Debug, Clone)]
pub struct OutgoingPacket {
    /// Who it is for.
    pub recipient: Recipient,
    /// The encoded packet.
    pub payload: Vec<u8>,
}

/// What an outgoing packet holds, as mathematical values.
#[verifier::ext_equal]
pub struct OutgoingView {
    pub recipient: Seq<u8>,
    pub payload: Seq<u8>,
}

impl View for OutgoingPacket {
    type V = OutgoingView;

    open spec fn view(&self) -> OutgoingView {
        OutgoingView { recipient: self.recipient@, payload: self.payload@ }
    }
}

/// Checks if two packets have the same payload for the same recipient.
pub fn same_packet(a: &OutgoingPacket, b: &OutgoingPacket) -> (r: bool)
    ensures
        r == (a@ == b@),
        r <==> a.recipient@ == b.recipient@ && a.payload@ == b.payload@,
{
    same_bytes(&a.recipient.to_bytes(), &b.recipient.to_bytes()) && same_bytes(
        a.payload.as_slice(),
        b.payload.as_slice(),
    )
}

fn same_bytes(a: &[u8], b: &[u8]) -> (r: bool)
    ensures
        r == (a@ == b@),
{
    if a.len() != b.len() {
        return false;
    }
    let mut i: usize = 0;
    while i < a.len()
        invariant
            i <= a@.len(),
            a@.len() == b@.len(),
            forall|j: int| 0 <= j < i ==> a@[j] == b@[j],
        decreases a@.len() - i,
    {
        if a[i] != b[i] {
            return false;
        }
        i += 1;
    }
    assert(a@ =~= b@);
    true
}

/// Why a packet was not sent.
#[derive(Debug, Clone, Copy, PartialEq, Eq, Structural)]
pub enum SendError {
    /// The destination is not the address of a recipient.
    InvalidAddress,
    /// The outgoing queue is closed.
    ChannelClosed,
    /// The queue is full and another poll has, or holds, the slot for a waiting packet.
    WouldBlock,
}

impl SendError {
    /// What went wrong, in words; none are needed where the send may be tried again.
    pub fn error_text(&self) -> (r: Option<String>)
        ensures
            match r {
                Some(text) => {
                    ||| self is InvalidAddress && text@ == "invalid Nym address"@
                    ||| self is ChannelClosed && text@ == "send channel closed"@
                },
                None => self is WouldBlock,
            },
    {
        match self {
            SendError::InvalidAddress => Some("invalid Nym address".to_owned()),
            SendError::ChannelClosed => Some("send channel closed".to_owned()),
            SendError::WouldBlock => None,
        }
    }
}

/// The segment size as a packet carries it: left out where sixteen bits do not hold it.
pub open spec fn carried_size(segment_size: Option<usize>) -> Option<u16> {
    match segment_size {
        Some(size) => if size <= u16::MAX {
            Some(size as u16)
        } else {
            None
        },
        None => None,
    }
}

/// The payload that carries `contents` from the address with these bytes.
pub open spec fn payload_of(
    local: Seq<u8>,
    segment_size: Option<usize>,
    contents: Seq<u8>,
) -> Seq<u8> {
    packet_wire(packet_of(local, carried_size(segment_size), contents))
}

/// Builds the packet that carries `contents` from `local` to `dst`.
pub fn prepare_send(
    local: &NymAddr,
    dst: &CustomAddr,
    segment_size: Option<usize>,
    contents: &[u8],
) -> (r: Result<OutgoingPacket, SendError>)
    requires
        NYM_ADDR_SIZE + contents@.len() <= MAX_FIELD_BYTES,
    ensures
        match r {
            Ok(packet) => {
                &&& recipient_at(dst@) == Some(packet.recipient@)
                &&& packet.payload@ == payload_of(local@, segment_size, contents@)
            },
            Err(e) => recipient_at(dst@) is None && e == SendError::InvalidAddress,
        },
{
    prepare_for(from_custom_addr(dst), local, segment_size, contents)
}

/// Builds the packet that carries `contents` from `local` to the recipient, if the
/// destination has named one.
pub fn prepare_for(
    recipient: Option<Recipient>,
    local: &NymAddr,
    segment_size: Option<usize>,
    contents: &[u8],
) -> (r: Result<OutgoingPacket, SendError>)
    requires
        NYM_ADDR_SIZE + contents@.len() <= MAX_FIELD_BYTES,
    ensures
        match r {
            Ok(packet) => {
                &&& recipient == Some(packet.recipient)
                &&& packet.payload@ == payload_of(local@, segment_size, contents@)
            },
            Err(e) => recipient is None && e == SendError::InvalidAddress,
        },
{
    let recipient = match recipient {
        Some(recipient) => recipient,
        None => return Err(SendError::InvalidAddress),
    };
    let size: Option<u16> = match segment_size {
        Some(size) => if size <= u16::MAX as usize {
            Some(size as u16)
        } else {
            None
        },
        None => None,
    };
    let packet = NymPacket::new(local.0, size, vstd::slice::slice_to_vec(contents));
    Ok(OutgoingPacket { recipient, payload: packet.to_bytes() })
}

/// What the outgoing queue replied to an offer of a packet.
#[derive(Debug, Clone, Copy, PartialEq, Eq, Structural)]
pub enum QueueReply {
    /// It took the packet.
    Taken,
    /// It is full.
    Full,
    /// It is closed.
    Closed,
}

/// How far the send in the slot is.
#[derive(Debug, Clone, Copy, PartialEq, Eq, Structural)]
pub enum WaitingSend {
    /// The queue took the packet.
    Taken,
    /// The queue was closed.
    Closed,
    /// The queue is still full.
    Waiting,
}

/// What the caller found or got in reply to an action.
#[derive(Debug, Clone, Copy, PartialEq, Eq, Structural)]
pub enum SendEvent {
    /// No send is in the slot, or another poll holds its lock.
    Vacant,
    /// The send in the slot was polled, and it is of the packet that this poll is to send.
    Polled(WaitingSend),
    /// The send in the slot was polled, and it is of another packet.
    PolledOther(WaitingSend),
    /// The destination names no recipient.
    Refused,
    /// The packet was offered to the queue.
    Offered(QueueReply),
    /// The lock of the slot was free and is taken, and no send is in the slot.
    Locked,
    /// The lock of the slot was free, but a send has come into the slot.
    Occupied,
    /// Another poll holds the lock of the slot.
    Busy,
}

/// How a poll ends.
#[derive(Debug, Clone, Copy, PartialEq, Eq, Structural)]
pub enum SendOutcome {
    /// The send in the slot, of this packet or of another, goes on and wakes the caller.
    Pending,
    /// The packet is on its way.
    Sent,
    /// The packet was not sent.
    Failed(SendError),
}

/// What the caller is to do next.
#[derive(Debug, Clone, Copy, PartialEq, Eq, Structural)]
pub enum SendAction {
    /// Offer the packet to the queue.
    Offer,
    /// Empty the slot, then offer the packet to the queue.
    ClearAndOffer,
    /// Try to take the lock of the slot.
    Lock,
    /// Put a send of the packet in the slot and poll it.
    StoreAndPoll,
    /// Return, and leave the slot as it is.
    Return(SendOutcome),
    /// Empty the slot and return.
    ClearAndReturn(SendOutcome),
}

/// Which event a poll awaits.
#[derive(Debug, Clone, Copy, PartialEq, Eq, Structural)]
pub enum SendStage {
    /// What the slot holds.
    Resuming,
    /// How the offer went.
    Offering,
    /// Whether the lock is free.
    Locking,
    /// How far the send in the slot is.
    Waiting,
    /// None.
    Done,
}

/// The event is one that a poll can meet at this stage.
pub open spec fn fits(stage: SendStage, event: SendEvent) -> bool {
    match event {
        SendEvent::Vacant => stage == SendStage::Resuming,
        SendEvent::Polled(_) => stage == SendStage::Resuming || stage == SendStage::Waiting,
        SendEvent::PolledOther(_) => stage == SendStage::Resuming,
        SendEvent::Refused | SendEvent::Offered(_) => stage == SendStage::Offering,
        SendEvent::Locked | SendEvent::Occupied | SendEvent::Busy => stage == SendStage::Locking,
    }
}

/// The action that answers an event.
pub open spec fn answer(event: SendEvent) -> SendAction {
    match event {
        SendEvent::Vacant => SendAction::Offer,
        SendEvent::Polled(WaitingSend::Taken) => SendAction::ClearAndReturn(SendOutcome::Sent),
        SendEvent::Polled(WaitingSend::Closed) => SendAction::ClearAndReturn(
            SendOutcome::Failed(SendError::ChannelClosed),
        ),
        SendEvent::Polled(WaitingSend::Waiting) => SendAction::Return(SendOutcome::Pending),
        SendEvent::PolledOther(WaitingSend::Taken) => SendAction::ClearAndOffer,
        SendEvent::PolledOther(WaitingSend::Closed) => SendAction::ClearAndReturn(
            SendOutcome::Failed(SendError::ChannelClosed),
        ),
        SendEvent::PolledOther(WaitingSend::Waiting) => SendAction::Return(SendOutcome::Pending),
        SendEvent::Refused => SendAction::Return(SendOutcome::Failed(SendError::InvalidAddress)),
        SendEvent::Offered(QueueReply::Taken) => SendAction::Return(SendOutcome::Sent),
        SendEvent::Offered(QueueReply::Full) => SendAction::Lock,
        SendEvent::Offered(QueueReply::Closed) => SendAction::Return(
            SendOutcome::Failed(SendError::ChannelClosed),
        ),
        SendEvent::Locked => SendAction::StoreAndPoll,
        SendEvent::Occupied | SendEvent::Busy => SendAction::Return(
            SendOutcome::Failed(SendError::WouldBlock),
        ),
    }
}

/// The event of having polled the send of `waiting`, in a poll that is to send `own`, or
/// nothing where the destination names no recipient.
pub open spec fn resumed(
    waiting: OutgoingView,
    own: Option<OutgoingView>,
    progress: WaitingSend,
) -> SendEvent {
    if own == Some(waiting) {
        SendEvent::Polled(progress)
    } else {
        SendEvent::PolledOther(progress)
    }
}

/// Tells whether the send in the slot, which is this far, is that of the poll's packet.
pub fn resume_event(
    waiting: &OutgoingPacket,
    own: &Result<OutgoingPacket, SendError>,
    progress: WaitingSend,
) -> (r: SendEvent)
    ensures
        r == resumed(
            waiting@,
            match own {
                Ok(packet) => Some(packet@),
                Err(_) => None,
            },
            progress,
        ),
        match own {
            Ok(packet) => if packet.recipient@ == waiting.recipient@ && packet.payload@
                == waiting.payload@ {
                r == SendEvent::Polled(progress)
            } else {
                r == SendEvent::PolledOther(progress)
            },
            Err(_) => r == SendEvent::PolledOther(progress),
        },
        own matches Ok(packet) ==> sees(Some(waiting@), packet@, r),
{
    match own {
        Ok(packet) => if same_packet(waiting, packet) {
            SendEvent::Polled(progress)
        } else {
            SendEvent::PolledOther(progress)
        },
        Err(_) => SendEvent::PolledOther(progress),
    }
}

/// The stage after an action.
pub open spec fn stage_after(action: SendAction) -> SendStage {
    match action {
        SendAction::Offer | SendAction::ClearAndOffer => SendStage::Offering,
        SendAction::Lock => SendStage::Locking,
        SendAction::StoreAndPoll => SendStage::Waiting,
        SendAction::Return(_) | SendAction::ClearAndReturn(_) => SendStage::Done,
    }
}

/// One poll to send a packet.
#[derive(Debug, Clone, Copy)]
pub struct SendAttempt {
    stage: SendStage,
}

impl SendAttempt {
    /// The event that the poll awaits.
    pub closed spec fn stage(self) -> SendStage {
        self.stage
    }

    /// A poll that is to look at the slot first.
    pub fn new() -> (r: Self)
        ensures
            r.stage() == SendStage::Resuming,
    {
        SendAttempt { stage: SendStage::Resuming }
    }

    /// Decides what to do on an event.
    pub fn on_event(&mut self, event: SendEvent) -> (r: SendAction)
        requires
            fits(old(self).stage(), event),
        ensures
            r == answer(event),
            final(self).stage() == stage_after(r),
    {
        let action = match event {
            SendEvent::Vacant => SendAction::Offer,
            SendEvent::Polled(WaitingSend::Taken) => SendAction::ClearAndReturn(
                SendOutcome::Sent,
            ),
            SendEvent::Polled(WaitingSend::Closed) => SendAction::ClearAndReturn(
                SendOutcome::Failed(SendError::ChannelClosed),
            ),
            SendEvent::Polled(WaitingSend::Waiting) => SendAction::Return(SendOutcome::Pending),
            SendEvent::PolledOther(WaitingSend::Taken) => SendAction::ClearAndOffer,
            SendEvent::PolledOther(WaitingSend::Closed) => SendAction::ClearAndReturn(
                SendOutcome::Failed(SendError::ChannelClosed),
            ),
            SendEvent::PolledOther(WaitingSend::Waiting) => SendAction::Return(
                SendOutcome::Pending,
            ),
            SendEvent::Refused => SendAction::Return(
                SendOutcome::Failed(SendError::InvalidAddress),
            ),
            SendEvent::Offered(QueueReply::Taken) => SendAction::Return(SendOutcome::Sent),
            SendEvent::Offered(QueueReply::Full) => SendAction::Lock,
            SendEvent::Offered(QueueReply::Closed) => SendAction::Return(
                SendOutcome::Failed(SendError::ChannelClosed),
            ),
            SendEvent::Locked => SendAction::StoreAndPoll,
            SendEvent::Occupied | SendEvent::Busy => SendAction::Return(
                SendOutcome::Failed(SendError::WouldBlock),
            ),
        };
        self.stage = match action {
            SendAction::Offer | SendAction::ClearAndOffer => SendStage::Offering,
            SendAction::Lock => SendStage::Locking,
            SendAction::StoreAndPoll => SendStage::Waiting,
            SendAction::Return(_) | SendAction::ClearAndReturn(_) => SendStage::Done,
        };
        action
    }
}

/// The event agrees with what is in the slot when a poll that is to send `packet` meets
/// it. Of the slot whose lock another poll holds, nothing is known.
pub open spec fn sees<P>(slot: Option<P>, packet: P, event: SendEvent) -> bool {
    match event {
        SendEvent::Polled(_) => slot == Some(packet),
        SendEvent::PolledOther(_) => slot is Some && slot != Some(packet),
        SendEvent::Locked => slot is None,
        SendEvent::Occupied => slot is Some,
        _ => true,
    }
}

/// The send in the slot ended because the queue was closed.
pub open spec fn found_closed(event: SendEvent) -> bool {
    event == SendEvent::Polled(WaitingSend::Closed) || event == SendEvent::PolledOther(
        WaitingSend::Closed,
    )
}

/// How a poll ends with an action, if it ends with it.
pub open spec fn ending(action: SendAction) -> Option<SendOutcome> {
    match action {
        SendAction::Return(outcome) | SendAction::ClearAndReturn(outcome) => Some(outcome),
        _ => None,
    }
}

/// The packets that the queue takes with an event of a poll that is to send `packet`.
pub open spec fn taken_by<P>(slot: Option<P>, packet: P, event: SendEvent) -> Seq<P> {
    match event {
        SendEvent::Polled(WaitingSend::Taken)
        | SendEvent::PolledOther(WaitingSend::Taken) => at_most_one(slot),
        SendEvent::Offered(QueueReply::Taken) => seq![packet],
        _ => Seq::empty(),
    }
}

/// The packet in the slot after an action, given the one that was there before it.
pub open spec fn slot_after<P>(slot: Option<P>, packet: P, action: SendAction) -> Option<P> {
    match action {
        SendAction::StoreAndPoll => Some(packet),
        SendAction::ClearAndReturn(_) | SendAction::ClearAndOffer => None,
        _ => slot,
    }
}

/// The packet as a sequence, empty where there is none.
pub open spec fn at_most_one<P>(packet: Option<P>) -> Seq<P> {
    match packet {
        Some(packet) => seq![packet],
        None => Seq::empty(),
    }
}

/// What a poll has come to: how it ended, if it has ended, the packet of the send in the
/// slot, if there is one, and the packets that the queue has taken.
pub struct SendRun<P> {
    pub outcome: Option<SendOutcome>,
    pub slot: Option<P>,
    pub taken: Seq<P>,
}

/// The events are such as a poll can meet from this stage on, one after the other.
pub open spec fn follows(stage: SendStage, events: Seq<SendEvent>) -> bool
    decreases events.len(),
{
    events.len() == 0 || {
        &&& fits(stage, events[0])
        &&& follows(stage_after(answer(events[0])), events.skip(1))
    }
}

/// Each event agrees with what is in the slot, which only this poll changes.
pub open spec fn seen<P>(slot: Option<P>, packet: P, events: Seq<SendEvent>) -> bool
    decreases events.len(),
{
    events.len() == 0 || {
        &&& sees(slot, packet, events[0])
        &&& seen(slot_after(slot, packet, answer(events[0])), packet, events.skip(1))
    }
}

/// What a poll comes to that is to send `packet` and meets these events.
pub open spec fn send_run<P>(slot: Option<P>, packet: P, events: Seq<SendEvent>) -> SendRun<P>
    decreases events.len(),
{
    if events.len() == 0 {
        SendRun { outcome: None, slot, taken: Seq::empty() }
    } else {
        let action = answer(events[0]);
        let taken = taken_by(slot, packet, events[0]);
        let slot = slot_after(slot, packet, action);
        match ending(action) {
            Some(outcome) => SendRun { outcome: Some(outcome), slot, taken },
            None => {
                let rest = send_run(slot, packet, events.skip(1));
                SendRun { outcome: rest.outcome, slot: rest.slot, taken: taken + rest.taken }
            },
        }
    }
}

/// A poll reports its packet as sent only with an event by which the queue takes that
/// very packet, whatever other polls do in between.
pub proof fn law_sent_is_taken<P>(slot: Option<P>, packet: P, event: SendEvent)
    requires
        sees(slot, packet, event),
        ending(answer(event)) == Some(SendOutcome::Sent),
    ensures
        taken_by(slot, packet, event) == seq![packet],
{
}

/// A send in the slot stays there until the queue has taken its packet or was closed: no
/// other send is put in its place, whatever other polls do in between.
pub proof fn law_no_send_is_replaced<P>(slot: Option<P>, packet: P, event: SendEvent)
    requires
        sees(slot, packet, event),
        slot is Some,
    ensures
        slot_after(slot, packet, answer(event)) == slot || {
            &&& slot_after(slot, packet, answer(event)) is None
            &&& taken_by(slot, packet, event) == seq![slot->0] || found_closed(event)
        },
{
}

/// Where a poll reports its packet as sent, the queue has taken it.
pub proof fn law_sent_packet_is_in_the_queue<P>(slot: Option<P>, packet: P, events: Seq<SendEvent>)
    requires
        follows(SendStage::Resuming, events),
        seen(slot, packet, events),
        send_run(slot, packet, events).outcome == Some(SendOutcome::Sent),
    ensures
        send_run(slot, packet, events).taken.contains(packet),
        send_run(slot, packet, events).taken.last() == packet,
{
    law_packet_is_accounted_for(slot, packet, events);
    let taken = send_run(slot, packet, events).taken;
    assert(taken[taken.len() - 1] == packet);
}

/// When a poll has ended, it has either sent its packet, which the queue then has taken
/// last, or is pending, with its packet or another one in the slot, or reports why it
/// failed, with its packet in neither. A packet that was in the slot is there still,
/// unless the queue has taken it first or was found closed.
pub proof fn law_packet_is_accounted_for<P>(slot: Option<P>, packet: P, events: Seq<SendEvent>)
    requires
        follows(SendStage::Resuming, events),
        seen(slot, packet, events),
        send_run(slot, packet, events).outcome is Some,
    ensures
        ({
            let run = send_run(slot, packet, events);
            let released = events[0] == SendEvent::PolledOther(WaitingSend::Taken);
            let left = if released {
                None
            } else {
                slot
            };
            let freed = if released {
                at_most_one(slot)
            } else {
                Seq::empty()
            };
            match run.outcome->0 {
                SendOutcome::Sent => {
                    &&& run.taken == freed.push(packet)
                    &&& run.slot == if events[0] is Polled {
                        None
                    } else {
                        left
                    }
                },
                SendOutcome::Pending => {
                    &&& run.taken == freed
                    &&& run.slot == if left is Some {
                        left
                    } else {
                        Some(packet)
                    }
                },
                SendOutcome::Failed(_) => {
                    &&& run.taken == freed
                    &&& run.slot == if found_closed(events.last()) {
                        None
                    } else {
                        left
                    }
                },
            }
        }),
{
    reveal_with_fuel(follows, 6);
    reveal_with_fuel(seen, 6);
    reveal_with_fuel(send_run, 6);
}

/// A poll ends after at most four events, and then meets no more.
pub proof fn law_poll_ends<P>(slot: Option<P>, packet: P, events: Seq<SendEvent>)
    requires
        follows(SendStage::Resuming, events),
    ensures
        events.len() <= 4,
        events.len() == 4 ==> send_run(slot, packet, events).outcome is Some,
{
    reveal_with_fuel(follows, 6);
    reveal_with_fuel(send_run, 6);
}

/// A packet that waits is not offered again, and none is offered before it: a poll for
/// that packet ends with its send, and a poll for another one goes on to offer its own
/// only when the queue has taken the one that waits.
pub proof fn law_waiting_send_comes_first<P>(slot: Option<P>, packet: P, events: Seq<SendEvent>)
    requires
        follows(SendStage::Resuming, events),
        events.len() > 0,
        events[0] is Polled || events[0] is PolledOther,
    ensures
        events[0] is Polled ==> events.len() == 1 && send_run(slot, packet, events).outcome is Some,
        events.len() > 1 ==> events[0] == SendEvent::PolledOther(WaitingSend::Taken),
{
    reveal_with_fuel(follows, 6);
    reveal_with_fuel(send_run, 6);
}

/// The poll would block only where the queue is full and another poll holds the lock of
/// the slot or has put a send in it.
pub proof fn law_would_block_when_busy<P>(slot: Option<P>, packet: P, events: Seq<SendEvent>)
    requires
        follows(SendStage::Resuming, events),
        send_run(slot, packet, events).outcome == Some(
            SendOutcome::Failed(SendError::WouldBlock),
        ),
    ensures
        events.len() == 3,
        events[1] == SendEvent::Offered(QueueReply::Full),
        events[2] == SendEvent::Busy || events[2] == SendEvent::Occupied,
{
    reveal_with_fuel(follows, 6);
    reveal_with_fuel(send_run, 6);
}

/// A poll to send a packet, with the events that it meets.
pub struct SendPoll<P> {
    pub packet: P,
    pub events: Seq<SendEvent>,
}

/// What polls come to that are made one after the other: how each ended, the packet that
/// waits in the slot after them, and the packets that the queue has taken.
pub struct SeriesRun<P> {
    pub outcomes: Seq<Option<SendOutcome>>,
    pub slot: Option<P>,
    pub taken: Seq<P>,
}

/// What polls come to that are made one after the other.
pub open spec fn series_run<P>(slot: Option<P>, polls: Seq<SendPoll<P>>) -> SeriesRun<P>
    decreases polls.len(),
{
    if polls.len() == 0 {
        SeriesRun { outcomes: Seq::empty(), slot, taken: Seq::empty() }
    } else {
        let run = send_run(slot, polls[0].packet, polls[0].events);
        let rest = series_run(run.slot, polls.skip(1));
        SeriesRun {
            outcomes: seq![run.outcome] + rest.outcomes,
            slot: rest.slot,
            taken: run.taken + rest.taken,
        }
    }
}

/// The poll meets events in their order up to its end, and each agrees with what is in
/// the slot. No other poll holds the lock at its first look.
pub open spec fn undisturbed<P>(slot: Option<P>, poll: SendPoll<P>) -> bool {
    &&& follows(SendStage::Resuming, poll.events)
    &&& seen(slot, poll.packet, poll.events)
    &&& send_run(slot, poll.packet, poll.events).outcome is Some
    &&& poll.events[0] is Vacant ==> slot is None
}

/// Each of the polls is undisturbed.
pub open spec fn series<P>(slot: Option<P>, polls: Seq<SendPoll<P>>) -> bool
    decreases polls.len(),
{
    polls.len() == 0 || {
        &&& undisturbed(slot, polls[0])
        &&& series(send_run(slot, polls[0].packet, polls[0].events).slot, polls.skip(1))
    }
}

/// No poll finds that the queue was closed under the send in the slot.
pub open spec fn never_closed<P>(polls: Seq<SendPoll<P>>) -> bool {
    forall|i: int| 0 <= i < polls.len() ==> !found_closed((#[trigger] polls[i]).events.last())
}

/// The poll takes its packet on: it was not the one that waited before, and it is
/// reported as sent, or the poll is pending and it is the one that waits now.
pub open spec fn accepted<P>(slot: Option<P>, poll: SendPoll<P>) -> bool {
    let run = send_run(slot, poll.packet, poll.events);
    slot != Some(poll.packet) && match run.outcome {
        Some(SendOutcome::Sent) => true,
        Some(SendOutcome::Pending) => run.slot == Some(poll.packet),
        _ => false,
    }
}

/// The packets that polls take on that are made one after the other.
pub open spec fn accepted_in<P>(slot: Option<P>, polls: Seq<SendPoll<P>>) -> Seq<P>
    decreases polls.len(),
{
    if polls.len() == 0 {
        Seq::empty()
    } else {
        let run = send_run(slot, polls[0].packet, polls[0].events);
        let rest = accepted_in(run.slot, polls.skip(1));
        if accepted(slot, polls[0]) {
            seq![polls[0].packet] + rest
        } else {
            rest
        }
    }
}

/// No packet is dropped: over polls that are made one after the other, for whatever
/// packets, what the queue has taken and then what waits in the slot is what waited at
/// first and then each packet that a poll has taken on, once for that poll and in order.
/// A poll takes its packet on where it reports it as sent or leaves it in the slot. Left
/// out are polls that find the queue closed under the send in the slot, which report it.
pub proof fn law_no_packet_is_dropped<P>(slot: Option<P>, polls: Seq<SendPoll<P>>)
    requires
        series(slot, polls),
        never_closed(polls),
    ensures
        series_run(slot, polls).taken + at_most_one(series_run(slot, polls).slot) == at_most_one(
            slot,
        ) + accepted_in(slot, polls),
    decreases polls.len(),
{
    if polls.len() > 0 {
        let poll = polls[0];
        let run = send_run(slot, poll.packet, poll.events);
        let rest = series_run(run.slot, polls.skip(1));
        let later = accepted_in(run.slot, polls.skip(1));
        assert(never_closed(polls.skip(1))) by {
            assert forall|i: int| 0 <= i < polls.skip(1).len() implies !found_closed(
                (#[trigger] polls.skip(1)[i]).events.last(),
            ) by {
                assert(polls.skip(1)[i] == polls[i + 1]);
            }
        }
        law_packet_is_accounted_for(slot, poll.packet, poll.events);
        law_no_packet_is_dropped(run.slot, polls.skip(1));
        lemma_first_look(slot, poll);
        let own = if accepted(slot, poll) {
            seq![poll.packet]
        } else {
            Seq::empty()
        };
        assert(run.taken + at_most_one(run.slot) =~= at_most_one(slot) + own);
        assert((run.taken + rest.taken) + at_most_one(rest.slot) =~= run.taken + (rest.taken
            + at_most_one(rest.slot)));
        assert(run.taken + (at_most_one(run.slot) + later) =~= (run.taken + at_most_one(run.slot))
            + later);
        assert((at_most_one(slot) + own) + later =~= at_most_one(slot) + accepted_in(slot, polls));
    }
}

/// Polls for one packet, made one after the other with no other between them, of which
/// the last reports it as sent and those before it were pending, send it exactly once and
/// leave nothing in the slot. A packet that waited before them is sent before it.
pub proof fn law_polled_again_is_sent_once<P>(slot: Option<P>, packet: P, polls: Seq<SendPoll<P>>)
    requires
        polls.len() > 0,
        series(slot, polls),
        forall|i: int| 0 <= i < polls.len() ==> (#[trigger] polls[i]).packet == packet,
        forall|i: int|
            0 <= i < polls.len() - 1 ==> #[trigger] series_run(slot, polls).outcomes[i] == Some(
                SendOutcome::Pending,
            ),
        series_run(slot, polls).outcomes[polls.len() - 1] == Some(SendOutcome::Sent),
    ensures
        series_run(slot, polls).slot is None,
        series_run(slot, polls).taken == (if slot == Some(packet) {
            Seq::empty()
        } else {
            at_most_one(slot)
        }).push(packet),
    decreases polls.len(),
{
    let run = send_run(slot, polls[0].packet, polls[0].events);
    let rest = polls.skip(1);
    let outcomes = series_run(slot, polls).outcomes;
    assert(polls[0].packet == packet);
    law_packet_is_accounted_for(slot, packet, polls[0].events);
    lemma_first_look(slot, polls[0]);
    assert(outcomes[0] == run.outcome);
    lemma_series_len(run.slot, rest);
    assert forall|i: int| 0 <= i < rest.len() implies #[trigger] series_run(
        run.slot,
        rest,
    ).outcomes[i] == outcomes[i + 1] by {}
    if rest.len() == 0 {
        assert(series_run(slot, polls).taken =~= run.taken);
    } else {
        assert forall|i: int| 0 <= i < rest.len() implies (#[trigger] rest[i]).packet == packet by {
            assert(rest[i] == polls[i + 1]);
        }
        law_polled_again_is_sent_once(run.slot, packet, rest);
        let taken = (if slot == Some(packet) {
            Seq::empty()
        } else {
            at_most_one(slot)
        }).push(packet);
        assert(series_run(slot, polls).taken =~= taken);
    }
}

/// Where a poll was pending and has left its packet in the slot, and the next poll, for
/// another packet, reports that one as sent, the queue has taken first the one and then
/// the other, each once, and nothing waits. A packet that waited before them comes first.
pub proof fn law_both_packets_are_sent<P>(
    slot: Option<P>,
    first: SendPoll<P>,
    second: SendPoll<P>,
)
    requires
        series(slot, seq![first, second]),
        first.packet != second.packet,
        send_run(slot, first.packet, first.events).outcome == Some(SendOutcome::Pending),
        send_run(slot, first.packet, first.events).slot == Some(first.packet),
        series_run(slot, seq![first, second]).outcomes[1] == Some(SendOutcome::Sent),
    ensures
        series_run(slot, seq![first, second]).slot is None,
        series_run(slot, seq![first, second]).taken == (if slot == Some(first.packet) {
            Seq::empty()
        } else {
            at_most_one(slot)
        }) + seq![first.packet, second.packet],
{
    let polls = seq![first, second];
    let waiting = Some(first.packet);
    let run = send_run(waiting, second.packet, second.events);
    assert(polls.skip(1) =~= seq![second]);
    assert(seq![second].skip(1) =~= Seq::empty());
    reveal_with_fuel(series, 3);
    reveal_with_fuel(series_run, 3);
    assert(series_run(slot, polls).outcomes[1] == run.outcome);
    law_packet_is_accounted_for(slot, first.packet, first.events);
    lemma_first_look(slot, first);
    law_packet_is_accounted_for(waiting, second.packet, second.events);
    lemma_first_look(waiting, second);
    assert(run.taken =~= seq![first.packet, second.packet]);
    assert(series_run(slot, polls).taken =~= send_run(slot, first.packet, first.events).taken
        + run.taken);
}

/// An event that a poll meets which is to send `packet`.
pub struct SendStep<P> {
    pub packet: P,
    pub event: SendEvent,
}

/// The slot and the packets that the queue has taken.
pub struct Line<P> {
    pub slot: Option<P>,
    pub taken: Seq<P>,
}

/// The slot and the queue after an event and the action that answers it.
pub open spec fn line_after<P>(line: Line<P>, step: SendStep<P>) -> Line<P> {
    Line {
        slot: slot_after(line.slot, step.packet, answer(step.event)),
        taken: line.taken + taken_by(line.slot, step.packet, step.event),
    }
}

/// The slot and the queue after events of any number of polls, in the order in which they
/// happen.
pub open spec fn line_run<P>(line: Line<P>, steps: Seq<SendStep<P>>) -> Line<P>
    decreases steps.len(),
{
    if steps.len() == 0 {
        line
    } else {
        line_after(line_run(line, steps.drop_last()), steps.last())
    }
}

/// Each event agrees with what is in the slot when it happens.
pub open spec fn interleaved<P>(line: Line<P>, steps: Seq<SendStep<P>>) -> bool
    decreases steps.len(),
{
    steps.len() == 0 || {
        &&& interleaved(line, steps.drop_last())
        &&& sees(
            line_run(line, steps.drop_last()).slot,
            steps.last().packet,
            steps.last().event,
        )
    }
}

/// The packets that go into the queue or the slot with these events.
pub open spec fn entered<P>(steps: Seq<SendStep<P>>) -> Multiset<P>
    decreases steps.len(),
{
    if steps.len() == 0 {
        Multiset::empty()
    } else {
        let before = entered(steps.drop_last());
        match steps.last().event {
            SendEvent::Offered(QueueReply::Taken) | SendEvent::Locked => before.insert(
                steps.last().packet,
            ),
            _ => before,
        }
    }
}

/// No packet is dropped, and none appears from nowhere, however the events of polls that
/// run at the same time come in between each other: the queue has taken, or the slot
/// holds, exactly the packets that were there at first and those that went in since.
/// Left out are events by which a poll finds the queue closed under the send in the slot.
pub proof fn law_interleaved_polls_drop_nothing<P>(line: Line<P>, steps: Seq<SendStep<P>>)
    requires
        interleaved(line, steps),
        forall|i: int| 0 <= i < steps.len() ==> !found_closed((#[trigger] steps[i]).event),
    ensures
        ({
            let after = line_run(line, steps);
            after.taken.to_multiset().add(at_most_one(after.slot).to_multiset())
                == line.taken.to_multiset().add(at_most_one(line.slot).to_multiset()).add(
                entered(steps),
            )
        }),
    decreases steps.len(),
{
    let first = line.taken.to_multiset().add(at_most_one(line.slot).to_multiset());
    if steps.len() == 0 {
        assert(first.add(Multiset::empty()) =~= first);
    } else {
        let step = steps.last();
        let before = line_run(line, steps.drop_last());
        let after = line_run(line, steps);
        assert forall|i: int| 0 <= i < steps.drop_last().len() implies !found_closed(
            (#[trigger] steps.drop_last()[i]).event,
        ) by {
            assert(steps.drop_last()[i] == steps[i]);
        }
        law_interleaved_polls_drop_nothing(line, steps.drop_last());
        assert(!found_closed(steps[steps.len() - 1].event));
        lemma_at_most_one(before.slot);
        lemma_at_most_one(after.slot);
        lemma_at_most_one(Some(step.packet));
        vstd::seq_lib::lemma_multiset_commutative(
            before.taken,
            taken_by(before.slot, step.packet, step.event),
        );
        lemma_at_most_one(None::<P>);
        let new = taken_by(before.slot, step.packet, step.event).to_multiset();
        let put = match step.event {
            SendEvent::Offered(QueueReply::Taken) | SendEvent::Locked => Multiset::singleton(
                step.packet,
            ),
            _ => Multiset::empty(),
        };
        assert(entered(steps) =~= entered(steps.drop_last()).add(put));
        assert(after.taken.to_multiset() == before.taken.to_multiset().add(new));
        let old_slot = at_most_one(before.slot).to_multiset();
        let new_slot = at_most_one(after.slot).to_multiset();
        let old_taken = before.taken.to_multiset();
        assert(new.add(new_slot) =~= old_slot.add(put));
        assert(old_taken.add(new).add(new_slot) =~= old_taken.add(new.add(new_slot)));
        assert(old_taken.add(old_slot.add(put)) =~= old_taken.add(old_slot).add(put));
        assert(first.add(entered(steps.drop_last())).add(put) =~= first.add(entered(steps)));
    }
}

/// A packet that a poll has reported as sent is in the queue from then on, however the
/// events of polls that run at the same time come in between each other.
pub proof fn law_interleaved_sent_is_in_the_queue<P>(
    line: Line<P>,
    steps: Seq<SendStep<P>>,
    at: int,
)
    requires
        interleaved(line, steps),
        0 <= at < steps.len(),
        ending(answer(steps[at].event)) == Some(SendOutcome::Sent),
    ensures
        line_run(line, steps).taken.contains(steps[at].packet),
    decreases steps.len(),
{
    let step = steps.last();
    let before = line_run(line, steps.drop_last());
    let new = taken_by(before.slot, step.packet, step.event);
    let taken = line_run(line, steps).taken;
    if at == steps.len() - 1 {
        law_sent_is_taken(before.slot, step.packet, step.event);
        assert(new[0] == step.packet);
        assert(taken[taken.len() - 1] == step.packet);
    } else {
        law_interleaved_sent_is_in_the_queue(line, steps.drop_last(), at);
        let i = choose|i: int| 0 <= i < before.taken.len() && before.taken[i] == steps[at].packet;
        assert(taken[i] == steps[at].packet);
    }
}

/// An undisturbed poll looks first at the send in the slot, where there is one, and sends
/// its own packet only where none waits or the one that waits is taken.
proof fn lemma_first_look<P>(slot: Option<P>, poll: SendPoll<P>)
    requires
        undisturbed(slot, poll),
    ensures
        poll.events.len() > 0,
        poll.events[0] is Polled <==> slot == Some(poll.packet),
        poll.events[0] is PolledOther <==> slot is Some && slot != Some(poll.packet),
        send_run(slot, poll.packet, poll.events).outcome == Some(SendOutcome::Sent)
            ==> poll.events[0] == SendEvent::Vacant || poll.events[0] == SendEvent::Polled(
            WaitingSend::Taken,
        ) || poll.events[0] == SendEvent::PolledOther(WaitingSend::Taken),
{
    reveal_with_fuel(follows, 6);
    reveal_with_fuel(seen, 2);
    reveal_with_fuel(send_run, 6);
}

proof fn lemma_series_len<P>(slot: Option<P>, polls: Seq<SendPoll<P>>)
    ensures
        series_run(slot, polls).outcomes.len() == polls.len(),
    decreases polls.len(),
{
    if polls.len() > 0 {
        lemma_series_len(send_run(slot, polls[0].packet, polls[0].events).slot, polls.skip(1));
    }
}

proof fn lemma_at_most_one<P>(packet: Option<P>)
    ensures
        at_most_one(packet).to_multiset() == match packet {
            Some(packet) => Multiset::singleton(packet),
            None => Multiset::empty(),
        },
{
    broadcast use vstd::seq_lib::group_to_multiset_ensures;

    match packet {
        Some(p) => {
            assert(seq![p] =~= Seq::empty().push(p));
            assert(seq![p].to_multiset() =~= Multiset::singleton(p));
        },
        None => assert(Seq::<P>::empty().to_multiset() =~= Multiset::empty()),
    }
}


/// The view of an outgoing packet has the packet's own recipient and payload.
pub proof fn law_outgoing_shows_its_fields(packet: OutgoingPacket)
    ensures
        packet@.recipient == packet.recipient@,
        packet@.payload == packet.payload@,
{
}

/// The send in the slot is taken for that of the poll's own packet exactly where both have
/// the same recipient and the same payload, of whatever length, and for that of another
/// packet everywhere else. How far the send is stays as it was, and the event agrees with
/// the slot.
pub proof fn law_own_send_is_told_from_another(
    waiting: OutgoingView,
    own: OutgoingView,
    progress: WaitingSend,
)
    ensures
        resumed(waiting, Some(own), progress) == SendEvent::Polled(progress) <==> own.recipient
            == waiting.recipient && own.payload == waiting.payload,
        resumed(waiting, Some(own), progress) == SendEvent::PolledOther(progress) <==> own.recipient
            != waiting.recipient || own.payload != waiting.payload,
        resumed(waiting, None, progress) == SendEvent::PolledOther(progress),
        sees(Some(waiting), own, resumed(waiting, Some(own), progress)),
{
    if own.recipient == waiting.recipient && own.payload == waiting.payload {
        assert(own == waiting);
    }
}

/// A packet that waits and is polled again, when the queue takes it, is sent by that poll:
/// it is in the queue once, it is not offered again, and nothing is left in the slot.
pub proof fn law_polling_again_finishes_the_send(packet: OutgoingView)
    ensures
        ({
            let event = resumed(packet, Some(packet), WaitingSend::Taken);
            let run = send_run(Some(packet), packet, seq![event]);
            &&& answer(event) == SendAction::ClearAndReturn(SendOutcome::Sent)
            &&& run.outcome == Some(SendOutcome::Sent)
            &&& run.taken == seq![packet]
            &&& run.slot is None
        }),
{
    law_own_send_is_told_from_another(packet, packet, WaitingSend::Taken);
    reveal_with_fuel(send_run, 2);
}

/// A poll for another packet, when the queue takes the one that waits, goes on to offer
/// its own, with the slot empty.
pub proof fn law_another_packet_is_offered(waiting: OutgoingView, own: OutgoingView)
    requires
        own.recipient != waiting.recipient || own.payload != waiting.payload,
    ensures
        ({
            let event = resumed(waiting, Some(own), WaitingSend::Taken);
            &&& ending(answer(event)) is None
            &&& stage_after(answer(event)) == SendStage::Offering
            &&& slot_after(Some(waiting), own, answer(event)) is None
            &&& taken_by(Some(waiting), own, event) == seq![waiting]
        }),
{
    law_own_send_is_told_from_another(waiting, own, WaitingSend::Taken);
}

/// How a poll ends says what it met: its packet was taken, a send in the slot waits on, or
/// why it failed, each with exactly the events that mean it.
pub proof fn law_outcome_says_what_was_met(event: SendEvent)
    ensures
        ending(answer(event)) == Some(SendOutcome::Sent) <==> event == SendEvent::Polled(
            WaitingSend::Taken,
        ) || event == SendEvent::Offered(QueueReply::Taken),
        ending(answer(event)) == Some(SendOutcome::Pending) <==> event == SendEvent::Polled(
            WaitingSend::Waiting,
        ) || event == SendEvent::PolledOther(WaitingSend::Waiting),
        ending(answer(event)) == Some(SendOutcome::Failed(SendError::InvalidAddress)) <==> event
            == SendEvent::Refused,
        ending(answer(event)) == Some(SendOutcome::Failed(SendError::ChannelClosed)) <==> event
            == SendEvent::Offered(QueueReply::Closed) || event == SendEvent::Polled(
            WaitingSend::Closed,
        ) || event == SendEvent::PolledOther(WaitingSend::Closed),
        ending(answer(event)) == Some(SendOutcome::Failed(SendError::WouldBlock)) <==> event
            == SendEvent::Busy || event == SendEvent::Occupied,
{
}

/// A poll that finds nothing waiting offers its packet; where the queue is full it goes for
/// the slot, and where that is free its packet waits there from then on.
pub proof fn law_full_queue_makes_the_packet_wait<P>(packet: P)
    ensures
        stage_after(answer(SendEvent::Vacant)) == SendStage::Offering,
        stage_after(answer(SendEvent::Offered(QueueReply::Full))) == SendStage::Locking,
        stage_after(answer(SendEvent::Locked)) == SendStage::Waiting,
        ({
            let events = seq![
                SendEvent::Vacant,
                SendEvent::Offered(QueueReply::Full),
                SendEvent::Locked,
                SendEvent::Polled(WaitingSend::Waiting),
            ];
            let run = send_run(None, packet, events);
            &&& run.outcome == Some(SendOutcome::Pending)
            &&& run.slot == Some(packet)
            &&& run.taken.len() == 0
        }),
{
    reveal_with_fuel(send_run, 5);
}

/// A packet carries a segment size exactly where there is one that sixteen bits hold, and
/// then it is that size.
pub proof fn law_carried_size_is_the_size(segment_size: Option<usize>)
    ensures
        carried_size(segment_size) is Some <==> segment_size is Some && segment_size->0 <= 0xffff,
        carried_size(segment_size) matches Some(carried) ==> carried == segment_size->0,
{
}

/// The payload is the encoding of the packet from this address, with these contents and
/// the size as it is carried, and nothing more; read back, it gives that packet.
pub proof fn law_payload_is_the_packet(
    local: Seq<u8>,
    segment_size: Option<usize>,
    contents: Seq<u8>,
    packet: PacketView,
)
    requires
        local.len() <= usize::MAX,
        contents.len() <= usize::MAX,
        packet.from == local,
        packet.data == contents,
        packet.segment_size is Some <==> segment_size is Some && segment_size->0 <= 0xffff,
        packet.segment_size matches Some(carried) ==> carried == segment_size->0,
    ensures
        payload_of(local, segment_size, contents) == packet_wire(packet),
        packet_at(payload_of(local, segment_size, contents)) == Some(packet),
{
    assert(packet == packet_of(local, carried_size(segment_size), contents));
    law_read_undoes_write(packet, Seq::empty());
    assert(packet_wire(packet) + Seq::<u8>::empty() =~= packet_wire(packet));
}

} // verus!
