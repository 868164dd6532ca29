//! What an endpoint is set up with, and what its two tasks decide.
//!
//! The receiving task moves messages from the mixnet to the channel of received messages,
//! and the sending task moves packets from the outgoing queue to the mixnet. The caller
//! waits for the mixnet, the channel and the queue; a [`ReceiveTask`] and a [`SendTask`]
//! decide what comes next.

use std::collections::VecDeque;

use vstd::prelude::*;

use crate::addr::{custom_addr_of, NymAddr};
use crate::custom_addr::CustomAddr;
use crate::send::OutgoingPacket;

verus! {

/// Capacity of the channel of received messages.
pub const RECV_QUEUE_CAPACITY: usize = 64 * 1024;

/// Capacity of the outgoing packet queue.
pub const SEND_QUEUE_CAPACITY: usize = 128;

/// Segments per transmit. The mixnet does not support GSO batching at the network
/// level, so one segment is transmitted at a time.
pub const MAX_TRANSMIT_SEGMENTS: usize = 1;

/// The addresses under which an endpoint can be reached: its Nym address.
pub fn local_addrs(local: &NymAddr) -> (r: Vec<CustomAddr>)
    ensures
        r@.len() == 1,
        r@[0]@ == custom_addr_of(local@),
{
    let mut addrs: Vec<CustomAddr> = Vec::new();
    addrs.push(local.to_custom_addr());
    addrs
}

/// What the receiving task is to do next.
#[derive(Debug)]
pub enum ReceiveAction {
    /// Wait for messages from the mixnet.
    Wait,
    /// Put the message in the channel.
    Forward(Vec<u8>),
    /// Stop.
    Stop,
}

/// The messages that the receiving task has yet to put in the channel.
#[derive(Debug)]
pub struct ReceiveTask {
    backlog: VecDeque<Vec<u8>>,
}

impl View for ReceiveTask {
    type V = Seq<Vec<u8>>;

    closed spec fn view(&self) -> Seq<Vec<u8>> {
        self.backlog@
    }
}

/// The action of a task with this backlog.
pub open spec fn action_for(backlog: Seq<Vec<u8>>) -> ReceiveAction {
    if backlog.len() == 0 {
        ReceiveAction::Wait
    } else {
        ReceiveAction::Forward(backlog[0])
    }
}

/// The backlog after that action.
pub open spec fn backlog_after(backlog: Seq<Vec<u8>>) -> Seq<Vec<u8>> {
    if backlog.len() == 0 {
        backlog
    } else {
        backlog.skip(1)
    }
}

/// The action of a task with this backlog when the channel replies to the message before
/// it whether it has accepted it.
pub open spec fn action_on_forwarded(backlog: Seq<Vec<u8>>, accepted: bool) -> ReceiveAction {
    if accepted {
        action_for(backlog)
    } else {
        ReceiveAction::Stop
    }
}

/// The backlog with what the mixnet had, if it had anything.
pub open spec fn backlog_with(
    backlog: Seq<Vec<u8>>,
    messages: Option<Seq<Vec<u8>>>,
) -> Seq<Vec<u8>> {
    match messages {
        Some(messages) => backlog + messages,
        None => backlog,
    }
}

impl ReceiveTask {
    /// A task with nothing to forward.
    pub fn new() -> (r: Self)
        ensures
            r@ == Seq::<Vec<u8>>::empty(),
    {
        ReceiveTask { backlog: VecDeque::new() }
    }

    /// Forwards the messages that the mixnet had, in order; where it had none, waits on.
    pub fn on_messages(&mut self, messages: Option<Vec<Vec<u8>>>) -> (r: ReceiveAction)
        ensures
            ({
                let backlog = backlog_with(
                    old(self)@,
                    match messages {
                        Some(messages) => Some(messages@),
                        None => None,
                    },
                );
                r == action_for(backlog) && final(self)@ == backlog_after(backlog)
            }),
    {
        if let Some(messages) = messages {
            let ghost before = self@;
            let ghost all = messages@;
            for message in it: messages.into_iter()
                invariant
                    it.seq() == all,
                    self@ == before + all.take(it.index() as int),
            {
                self.backlog.push_back(message);
                assert(self@ =~= before + all.take(it.index() + 1));
            }
            assert(self@ =~= before + all);
        }
        self.next()
    }

    /// Goes on with the next message, or stops where the channel is closed.
    pub fn on_forwarded(&mut self, accepted: bool) -> (r: ReceiveAction)
        ensures
            accepted ==> r == action_for(old(self)@) && final(self)@ == backlog_after(old(self)@),
            !accepted ==> r == ReceiveAction::Stop && final(self)@ == old(self)@,
            r == action_on_forwarded(old(self)@, accepted),
    {
        if accepted {
            self.next()
        } else {
            ReceiveAction::Stop
        }
    }

    fn next(&mut self) -> (r: ReceiveAction)
        ensures
            r == action_for(old(self)@),
            final(self)@ == backlog_after(old(self)@),
    {
        match self.backlog.pop_front() {
            Some(message) => {
                assert(self@ =~= old(self)@.skip(1));
                ReceiveAction::Forward(message)
            },
            None => ReceiveAction::Wait,
        }
    }
}

/// The messages that a task with this backlog forwards, when the mixnet has these results
/// one after the other, and the channel replies to each message whether it has accepted it.
pub open spec fn forwarded(
    backlog: Seq<Vec<u8>>,
    results: Seq<Option<Seq<Vec<u8>>>>,
    replies: Seq<bool>,
) -> Seq<Vec<u8>>
    decreases results.len(), backlog.len(),
{
    match action_for(backlog) {
        ReceiveAction::Forward(message) => if replies.len() == 0 || action_on_forwarded(
            backlog_after(backlog),
            replies[0],
        ) is Stop {
            seq![message]
        } else {
            seq![message] + forwarded(backlog_after(backlog), results, replies.skip(1))
        },
        _ => if results.len() == 0 {
            Seq::empty()
        } else {
            forwarded(
                backlog_with(backlog_after(backlog), results[0]),
                results.skip(1),
                replies,
            )
        },
    }
}

/// All messages in these results of the mixnet, in order.
pub open spec fn messages_in(results: Seq<Option<Seq<Vec<u8>>>>) -> Seq<Vec<u8>>
    decreases results.len(),
{
    if results.len() == 0 {
        Seq::empty()
    } else {
        match results[0] {
            Some(messages) => messages + messages_in(results.skip(1)),
            None => messages_in(results.skip(1)),
        }
    }
}

/// While the channel accepts, what is forwarded is exactly the messages of all the results
/// of the mixnet, in order: none is changed, left out or repeated, and a result without
/// messages adds nothing and ends nothing.
pub proof fn law_forwards_all(results: Seq<Option<Seq<Vec<u8>>>>, replies: Seq<bool>)
    requires
        messages_in(results).len() <= replies.len(),
        forall|i: int| 0 <= i < replies.len() ==> #[trigger] replies[i],
    ensures
        forwarded(Seq::empty(), results, replies) == messages_in(results),
{
    law_forwards_in_order(Seq::empty(), results, replies);
    let all = messages_in(results);
    let sent = forwarded(Seq::empty(), results, replies);
    assert(Seq::<Vec<u8>>::empty() + all =~= all);
    if sent.len() < all.len() {
        assert(replies[sent.len() - 1]);
    }
    assert(all.take(all.len() as int) =~= all);
}

/// Messages are forwarded in the order in which they came, over all the results of the
/// mixnet, none twice and none left out: all of them as long as the channel accepts, and
/// none after one that it did not.
pub proof fn law_forwards_in_order(
    backlog: Seq<Vec<u8>>,
    results: Seq<Option<Seq<Vec<u8>>>>,
    replies: Seq<bool>,
)
    ensures
        ({
            let all = backlog + messages_in(results);
            let sent = forwarded(backlog, results, replies);
            &&& sent.len() <= all.len()
            &&& all.len() > 0 ==> sent.len() > 0
            &&& sent == all.take(sent.len() as int)
            &&& sent.len() <= replies.len() + 1
            &&& forall|i: int| 0 <= i < sent.len() - 1 ==> #[trigger] replies[i]
            &&& sent.len() < all.len() ==> sent.len() > replies.len() || !replies[sent.len() - 1]
        }),
    decreases results.len(), backlog.len(),
{
    let all = backlog + messages_in(results);
    let sent = forwarded(backlog, results, replies);
    if backlog.len() > 0 {
        if replies.len() == 0 || !replies[0] {
            assert(sent =~= all.take(1));
        } else {
            law_forwards_in_order(backlog.skip(1), results, replies.skip(1));
            let rest = forwarded(backlog.skip(1), results, replies.skip(1));
            let later = backlog.skip(1) + messages_in(results);
            assert(later =~= all.skip(1));
            assert(sent =~= all.take(sent.len() as int)) by {
                assert forall|i: int| 0 <= i < sent.len() implies sent[i] == all[i] by {
                    if i > 0 {
                        assert(rest[i - 1] == later.take(rest.len() as int)[i - 1]);
                    }
                }
            }
            if sent.len() < all.len() && rest.len() <= replies.skip(1).len() {
                assert(!replies.skip(1)[rest.len() - 1]);
            }
            assert forall|i: int| 0 <= i < sent.len() - 1 implies #[trigger] replies[i] by {
                if i > 0 {
                    assert(replies.skip(1)[i - 1]);
                }
            }
        }
    } else if results.len() > 0 {
        let next = backlog_with(backlog, results[0]);
        law_forwards_in_order(next, results.skip(1), replies);
        assert(all =~= next + messages_in(results.skip(1)));
    } else {
        assert(sent =~= all.take(0));
    }
}

/// What the sending task is to do next.
#[derive(Debug)]
pub enum SendTaskAction {
    /// Wait for a packet from the outgoing queue.
    Receive,
    /// Hand the packet to the mixnet.
    Send(OutgoingPacket),
    /// Stop.
    Stop,
}

/// The action on what the outgoing queue had: a packet, or none as it is closed and empty.
pub open spec fn action_on_received(packet: Option<OutgoingPacket>) -> SendTaskAction {
    match packet {
        Some(packet) => SendTaskAction::Send(packet),
        None => SendTaskAction::Stop,
    }
}

/// The action on whether the mixnet has accepted a packet, which makes no difference.
pub open spec fn action_on_sent(accepted: bool) -> SendTaskAction {
    SendTaskAction::Receive
}

/// The task that moves packets from the outgoing queue to the mixnet.
#[derive(Debug)]
pub struct SendTask {}

impl SendTask {
    /// A task that is to wait for a packet first.
    pub fn new() -> (r: Self)
        ensures
            r == (SendTask {  }),
    {
        SendTask {  }
    }

    /// Sends the packet that the outgoing queue had, or stops where the queue is closed.
    pub fn on_received(&mut self, packet: Option<OutgoingPacket>) -> (r: SendTaskAction)
        ensures
            r == action_on_received(packet),
            *final(self) == *old(self),
    {
        match packet {
            Some(packet) => SendTaskAction::Send(packet),
            None => SendTaskAction::Stop,
        }
    }

    /// Goes on with the next packet, also where the mixnet has not accepted the last one:
    /// it is not sent again.
    pub fn on_sent(&mut self, accepted: bool) -> (r: SendTaskAction)
        ensures
            r == action_on_sent(accepted),
            *final(self) == *old(self),
    {
        SendTaskAction::Receive
    }
}

/// The packets that the task hands to the mixnet, when these are in the outgoing queue,
/// which is then closed, and the mixnet replies to each whether it has accepted it.
pub open spec fn handed_on(queued: Seq<OutgoingPacket>, replies: Seq<bool>) -> Seq<OutgoingPacket>
    decreases queued.len(),
{
    let received = if queued.len() > 0 {
        Some(queued[0])
    } else {
        None
    };
    match action_on_received(received) {
        SendTaskAction::Send(packet) => if queued.len() > 0 && replies.len() > 0 && action_on_sent(
            replies[0],
        ) is Receive {
            seq![packet] + handed_on(queued.skip(1), replies.skip(1))
        } else {
            seq![packet]
        },
        _ => Seq::empty(),
    }
}

/// Each queued packet is handed to the mixnet exactly once and in order, whatever the
/// mixnet replies: a packet that it has not accepted is not sent again and holds up no
/// later one. While a reply is missing, the packets up to that one have been handed on.
pub proof fn law_each_packet_is_sent_once(queued: Seq<OutgoingPacket>, replies: Seq<bool>)
    ensures
        queued.len() <= replies.len() ==> handed_on(queued, replies) == queued,
        queued.len() > replies.len() ==> handed_on(queued, replies) == queued.take(
            replies.len() as int + 1,
        ),
    decreases queued.len(),
{
    let sent = handed_on(queued, replies);
    if queued.len() == 0 {
        assert(sent =~= queued);
    } else if replies.len() == 0 {
        assert(sent =~= queued.take(1));
    } else {
        law_each_packet_is_sent_once(queued.skip(1), replies.skip(1));
        if queued.len() <= replies.len() {
            assert(sent =~= queued);
        } else {
            let rest = queued.skip(1).take(replies.len() as int);
            assert(seq![queued[0]] + rest =~= queued.take(replies.len() as int + 1));
        }
    }
}


/// A task with a backlog forwards the message that came first and keeps the others, in
/// order; without one it waits.
pub proof fn law_first_message_is_next(first: Vec<u8>, others: Seq<Vec<u8>>)
    ensures
        action_for(seq![first] + others) == ReceiveAction::Forward(first),
        backlog_after(seq![first] + others) == others,
        action_for(Seq::empty()) == ReceiveAction::Wait,
        backlog_after(Seq::empty()).len() == 0,
{
    assert((seq![first] + others).skip(1) =~= others);
}

/// A task stops exactly where the channel did not accept a message, however much is left to
/// forward, and else goes on with what is next.
pub proof fn law_stops_when_not_accepted(backlog: Seq<Vec<u8>>, accepted: bool)
    ensures
        action_on_forwarded(backlog, accepted) is Stop <==> !accepted,
        accepted && backlog.len() > 0 ==> action_on_forwarded(backlog, accepted)
            == ReceiveAction::Forward(backlog[0]),
        accepted && backlog.len() == 0 ==> action_on_forwarded(backlog, accepted) is Wait,
{
}

/// Messages of the mixnet come after what is in the backlog already, all of them and
/// unchanged, and where the mixnet had none the backlog stays as it is.
pub proof fn law_messages_join_the_backlog(backlog: Seq<Vec<u8>>, messages: Seq<Vec<u8>>, i: int)
    ensures
        backlog_with(backlog, None) == backlog,
        backlog_with(backlog, Some(messages)).len() == backlog.len() + messages.len(),
        0 <= i < backlog.len() ==> backlog_with(backlog, Some(messages))[i] == backlog[i],
        0 <= i < messages.len() ==> backlog_with(backlog, Some(messages))[backlog.len() + i]
            == messages[i],
{
}

/// The messages in results are those of the single results, one result after the other.
pub proof fn law_messages_of_results(
    earlier: Seq<Option<Seq<Vec<u8>>>>,
    later: Seq<Option<Seq<Vec<u8>>>>,
    messages: Seq<Vec<u8>>,
)
    ensures
        messages_in(earlier + later) == messages_in(earlier) + messages_in(later),
        messages_in(seq![Some(messages)]) == messages,
        messages_in(seq![None]).len() == 0,
    decreases earlier.len(),
{
    reveal_with_fuel(messages_in, 2);
    assert(seq![Some(messages)].skip(1) =~= Seq::empty());
    assert(messages + Seq::<Vec<u8>>::empty() =~= messages);
    assert(seq![None::<Seq<Vec<u8>>>].skip(1) =~= Seq::empty());
    if earlier.len() == 0 {
        assert(earlier + later =~= later);
        assert(Seq::<Vec<u8>>::empty() + messages_in(later) =~= messages_in(later));
    } else {
        law_messages_of_results(earlier.skip(1), later, messages);
        assert((earlier + later).skip(1) =~= earlier.skip(1) + later);
        assert(messages_in(earlier + later) =~= messages_in(earlier) + messages_in(later));
    }
}

/// The sending task sends the very packet that it was given, stops exactly where the queue
/// has none any more, and waits for the next one after each, accepted or not.
pub proof fn law_given_packet_is_sent(packet: OutgoingPacket, accepted: bool)
    ensures
        action_on_received(Some(packet)) == SendTaskAction::Send(packet),
        action_on_received(None) == SendTaskAction::Stop,
        action_on_sent(accepted) == SendTaskAction::Receive,
{
}

} // verus!
