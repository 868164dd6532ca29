use iroh_nym_transport::send::{
    prepare_for, prepare_send, resume_event, same_packet, OutgoingPacket, QueueReply, SendAction,
    SendAttempt, SendError, SendEvent, SendOutcome, WaitingSend,
};
use iroh_nym_transport::{CustomAddr, NymAddr, NymPacket, Recipient, NYM_TRANSPORT_ID};

fn local() -> NymAddr {
    NymAddr([6; 96])
}

#[test]
fn packet_carries_sender_size_and_contents() {
    let dst = CustomAddr::from_parts(NYM_TRANSPORT_ID, &[3; 96]);
    let outgoing = prepare_send(&local(), &dst, Some(1200), &[1, 2, 3]).unwrap();
    assert_eq!(outgoing.recipient.to_bytes(), [3; 96]);

    let packet = NymPacket::from_bytes(&outgoing.payload).unwrap();
    assert_eq!(packet.source_addr(), Some([6; 96]));
    assert_eq!(packet.segment_size, Some(1200));
    assert_eq!(packet.data, vec![1, 2, 3]);
    assert_eq!(
        outgoing.payload,
        NymPacket::new([6; 96], Some(1200), vec![1, 2, 3]).to_bytes()
    );
}

#[test]
fn size_beyond_sixteen_bits_is_left_out() {
    let recipient = Recipient::try_from_bytes([3; 96]);
    for (size, carried) in [
        (None, None),
        (Some(0), Some(0)),
        (Some(65535), Some(65535)),
        (Some(65536), None),
        (Some(usize::MAX), None),
    ] {
        let outgoing = prepare_for(recipient, &local(), size, &[]).unwrap();
        assert_eq!(outgoing.recipient, recipient.unwrap());
        let packet = NymPacket::from_bytes(&outgoing.payload).unwrap();
        assert_eq!(packet.segment_size, carried);
        assert!(packet.data.is_empty());
    }
}

#[test]
fn destination_must_name_a_recipient() {
    for dst in [
        CustomAddr::from_parts(NYM_TRANSPORT_ID + 1, &[3; 96]),
        CustomAddr::from_parts(NYM_TRANSPORT_ID, &[3; 95]),
        CustomAddr::from_parts(NYM_TRANSPORT_ID, &[2; 96]),
    ] {
        let error = prepare_send(&local(), &dst, None, &[1]).unwrap_err();
        assert_eq!(error, SendError::InvalidAddress);
    }
    let error = prepare_for(None, &local(), None, &[1]).unwrap_err();
    assert_eq!(error, SendError::InvalidAddress);
}

fn run(events: &[SendEvent]) -> Vec<SendAction> {
    let mut attempt = SendAttempt::new();
    events.iter().map(|event| attempt.on_event(*event)).collect()
}

#[test]
fn free_queue_takes_the_packet() {
    assert_eq!(
        run(&[SendEvent::Vacant, SendEvent::Offered(QueueReply::Taken)]),
        [SendAction::Offer, SendAction::Return(SendOutcome::Sent)]
    );
}

#[test]
fn full_queue_makes_the_packet_wait() {
    let full = [SendEvent::Vacant, SendEvent::Offered(QueueReply::Full), SendEvent::Locked];
    for (poll, action) in [
        (WaitingSend::Waiting, SendAction::Return(SendOutcome::Pending)),
        (WaitingSend::Taken, SendAction::ClearAndReturn(SendOutcome::Sent)),
        (
            WaitingSend::Closed,
            SendAction::ClearAndReturn(SendOutcome::Failed(SendError::ChannelClosed)),
        ),
    ] {
        let mut events = full.to_vec();
        events.push(SendEvent::Polled(poll));
        assert_eq!(
            run(&events),
            [SendAction::Offer, SendAction::Lock, SendAction::StoreAndPoll, action]
        );
    }
}

#[test]
fn waiting_packet_is_resumed_first() {
    assert_eq!(
        run(&[SendEvent::Polled(WaitingSend::Waiting)]),
        [SendAction::Return(SendOutcome::Pending)]
    );
    assert_eq!(
        run(&[SendEvent::Polled(WaitingSend::Taken)]),
        [SendAction::ClearAndReturn(SendOutcome::Sent)]
    );
    assert_eq!(
        run(&[SendEvent::Polled(WaitingSend::Closed)]),
        [SendAction::ClearAndReturn(SendOutcome::Failed(SendError::ChannelClosed))]
    );
}

#[test]
fn busy_lock_would_block() {
    assert_eq!(
        run(&[SendEvent::Vacant, SendEvent::Offered(QueueReply::Full), SendEvent::Busy]),
        [
            SendAction::Offer,
            SendAction::Lock,
            SendAction::Return(SendOutcome::Failed(SendError::WouldBlock))
        ]
    );
}

#[test]
fn closed_queue_and_bad_address_fail() {
    assert_eq!(
        run(&[SendEvent::Vacant, SendEvent::Offered(QueueReply::Closed)])[1],
        SendAction::Return(SendOutcome::Failed(SendError::ChannelClosed))
    );
    assert_eq!(
        run(&[SendEvent::Vacant, SendEvent::Refused])[1],
        SendAction::Return(SendOutcome::Failed(SendError::InvalidAddress))
    );
}

#[test]
fn send_errors_have_their_texts() {
    assert_eq!(SendError::InvalidAddress.error_text(), Some("invalid Nym address".to_string()));
    assert_eq!(SendError::ChannelClosed.error_text(), Some("send channel closed".to_string()));
    assert_eq!(SendError::WouldBlock.error_text(), None);
}

#[test]
fn waiting_packet_of_another_poll_is_let_through_first() {
    assert_eq!(
        run(&[SendEvent::PolledOther(WaitingSend::Waiting)]),
        [SendAction::Return(SendOutcome::Pending)]
    );
    assert_eq!(
        run(&[SendEvent::PolledOther(WaitingSend::Closed)]),
        [SendAction::ClearAndReturn(SendOutcome::Failed(SendError::ChannelClosed))]
    );
    assert_eq!(
        run(&[
            SendEvent::PolledOther(WaitingSend::Taken),
            SendEvent::Offered(QueueReply::Taken)
        ]),
        [SendAction::ClearAndOffer, SendAction::Return(SendOutcome::Sent)]
    );
}

#[test]
fn occupied_slot_is_not_overwritten() {
    assert_eq!(
        run(&[SendEvent::Vacant, SendEvent::Offered(QueueReply::Full), SendEvent::Occupied])[2],
        SendAction::Return(SendOutcome::Failed(SendError::WouldBlock))
    );
}

fn packet(to: u8, contents: &[u8]) -> OutgoingPacket {
    prepare_for(Recipient::try_from_bytes([to; 96]), &local(), None, contents).unwrap()
}

#[test]
fn packets_are_told_apart() {
    assert!(same_packet(&packet(3, b"one"), &packet(3, b"one")));
    assert!(!same_packet(&packet(3, b"one"), &packet(3, b"two")));
    assert!(!same_packet(&packet(3, b"one"), &packet(3, b"one more")));
    assert!(!same_packet(&packet(3, b"one"), &packet(0, b"one")));
}

#[test]
fn resumed_send_is_of_the_same_packet_or_not() {
    let waiting = packet(3, b"one");
    for progress in [WaitingSend::Taken, WaitingSend::Closed, WaitingSend::Waiting] {
        assert_eq!(
            resume_event(&waiting, &Ok(packet(3, b"one")), progress),
            SendEvent::Polled(progress)
        );
        assert_eq!(
            resume_event(&waiting, &Ok(packet(3, b"two")), progress),
            SendEvent::PolledOther(progress)
        );
        assert_eq!(
            resume_event(&waiting, &Err(SendError::InvalidAddress), progress),
            SendEvent::PolledOther(progress)
        );
    }
}

/// A queue with few places and the slot beside it. Another poll may hold the lock of the
/// slot at the first look, and put a packet in the slot before the second.
struct Line {
    places: usize,
    slot: Option<u32>,
    taken: Vec<u32>,
}

impl Line {
    fn new(places: usize) -> Self {
        Line { places, slot: None, taken: vec![] }
    }

    fn offer(&mut self, packet: u32) -> bool {
        if self.places == 0 {
            return false;
        }
        self.places -= 1;
        self.taken.push(packet);
        true
    }

    fn resume(&mut self, waiting: u32) -> WaitingSend {
        match self.offer(waiting) {
            true => WaitingSend::Taken,
            false => WaitingSend::Waiting,
        }
    }

    fn poll(&mut self, packet: u32) -> SendOutcome {
        let waiting = self.slot;
        let event = match waiting {
            Some(waiting) if waiting == packet => SendEvent::Polled(self.resume(waiting)),
            Some(waiting) => SendEvent::PolledOther(self.resume(waiting)),
            None => SendEvent::Vacant,
        };
        self.poll_from(packet, event)
    }

    fn poll_from(&mut self, packet: u32, first: SendEvent) -> SendOutcome {
        let mut attempt = SendAttempt::new();
        let mut event = first;
        loop {
            let action = attempt.on_event(event);
            event = match action {
                SendAction::Offer | SendAction::ClearAndOffer => {
                    if action == SendAction::ClearAndOffer {
                        self.slot = None;
                    }
                    SendEvent::Offered(match self.offer(packet) {
                        true => QueueReply::Taken,
                        false => QueueReply::Full,
                    })
                }
                SendAction::Lock => match self.slot {
                    Some(_) => SendEvent::Occupied,
                    None => SendEvent::Locked,
                },
                SendAction::StoreAndPoll => {
                    assert_eq!(self.slot, None);
                    self.slot = Some(packet);
                    SendEvent::Polled(self.resume(packet))
                }
                SendAction::Return(outcome) => return outcome,
                SendAction::ClearAndReturn(outcome) => {
                    self.slot = None;
                    return outcome;
                }
            };
        }
    }
}

#[test]
fn packet_polled_again_is_sent_once() {
    let mut line = Line::new(1);
    assert_eq!(line.poll(1), SendOutcome::Sent);
    assert_eq!(line.poll(2), SendOutcome::Pending);
    assert_eq!(line.poll(2), SendOutcome::Pending);
    assert_eq!((line.slot, line.taken.len()), (Some(2), 1));
    line.places = 1;
    assert_eq!(line.poll(2), SendOutcome::Sent);
    assert_eq!(line.slot, None);
    assert_eq!(line.taken, vec![1, 2]);
}

#[test]
fn packet_polled_again_behind_another_is_sent_once() {
    let mut line = Line::new(0);
    assert_eq!(line.poll(1), SendOutcome::Pending);
    assert_eq!(line.poll(2), SendOutcome::Pending);
    assert_eq!((line.slot, line.taken.len()), (Some(1), 0));
    line.places = 2;
    assert_eq!(line.poll(2), SendOutcome::Sent);
    assert_eq!((line.slot, line.taken), (None, vec![1, 2]));
}

#[test]
fn no_packet_is_dropped_or_reordered() {
    let mut line = Line::new(0);
    assert_eq!(line.poll(1), SendOutcome::Pending);
    // Room for both: the one that waits goes first, and then the other is sent too.
    line.places = 2;
    assert_eq!(line.poll(2), SendOutcome::Sent);
    assert_eq!((line.slot, &line.taken), (None, &vec![1, 2]));
    // Room for one: the one that waits is taken, and the other waits in its place.
    assert_eq!(line.poll(3), SendOutcome::Pending);
    line.places = 1;
    assert_eq!(line.poll(4), SendOutcome::Pending);
    assert_eq!((line.slot, &line.taken), (Some(4), &vec![1, 2, 3]));
    line.places = 1;
    assert_eq!(line.poll(4), SendOutcome::Sent);
    assert_eq!((line.slot, &line.taken), (None, &vec![1, 2, 3, 4]));
}

#[test]
fn held_lock_does_not_lose_the_packet_that_waits() {
    let mut line = Line::new(0);
    assert_eq!(line.poll(1), SendOutcome::Pending);
    // Another poll holds the lock at the first look, and has released it at the second.
    let outcome = line.poll_from(2, SendEvent::Vacant);
    assert_eq!(outcome, SendOutcome::Failed(SendError::WouldBlock));
    assert_eq!(line.slot, Some(1));
    line.places = 1;
    assert_eq!(line.poll_from(3, SendEvent::Vacant), SendOutcome::Sent);
    assert_eq!((line.slot, &line.taken), (Some(1), &vec![3]));
}
