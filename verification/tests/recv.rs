use iroh_nym_transport::recv::{
    ChannelEvent, Delivery, RecvAction, RecvBatch, RecvOutcome, SkipReason,
};
use iroh_nym_transport::send::prepare_for;
use iroh_nym_transport::{NymAddr, NymPacket, Recipient, NYM_TRANSPORT_ID};

/// Fills buffers of these sizes from the messages; then the channel has the last event.
fn run(
    rooms: &[usize],
    messages: &[Vec<u8>],
    last: fn() -> ChannelEvent<'static>,
) -> (Vec<(Delivery, Vec<u8>)>, RecvOutcome, usize) {
    let mut bufs: Vec<Vec<u8>> = rooms.iter().map(|room| vec![0xee; *room]).collect();
    let mut deliveries = Vec::new();
    let mut polls = 0;
    let mut batch = RecvBatch::new(rooms.len(), rooms.len(), rooms.len());
    let mut action = batch.next();
    loop {
        action = match action {
            RecvAction::Poll => {
                let event = match messages.get(polls) {
                    Some(message) => ChannelEvent::Message(message),
                    None => last(),
                };
                polls += 1;
                let slot = batch.filled();
                batch.on_event(event, &mut bufs[slot])
            }
            RecvAction::Skip(_) => batch.next(),
            RecvAction::Deliver(delivery) => {
                let buf = bufs[delivery.slot].clone();
                deliveries.push((delivery, buf));
                batch.next()
            }
            RecvAction::Return(outcome) => return (deliveries, outcome, polls),
        };
    }
}

fn pending() -> ChannelEvent<'static> {
    ChannelEvent::Pending
}

fn closed() -> ChannelEvent<'static> {
    ChannelEvent::Closed
}

fn message(from: u8, size: Option<u16>, data: &[u8]) -> Vec<u8> {
    NymPacket::new([from; 96], size, data.to_vec()).to_bytes()
}

#[test]
fn batch_has_the_smallest_of_the_three_lengths() {
    for (bufs, metas, addrs, least) in [(3, 2, 5, 2), (1, 4, 4, 1), (9, 8, 7, 7), (2, 2, 0, 0)] {
        let mut batch = RecvBatch::new(bufs, metas, addrs);
        let full = message(1, None, &[]);
        for i in 0..least {
            assert_eq!(batch.filled(), i);
            assert!(matches!(batch.next(), RecvAction::Poll));
            let action = batch.on_event(ChannelEvent::Message(&full), &mut []);
            assert!(matches!(action, RecvAction::Deliver(_)));
        }
        match batch.next() {
            RecvAction::Return(outcome) => assert_eq!(outcome, RecvOutcome::Ready(least)),
            _ => panic!("the batch is full"),
        }
    }
}

#[test]
fn no_slots_are_ready_at_once() {
    let (deliveries, outcome, polls) = run(&[], &[message(1, None, &[1])], closed);
    assert!(deliveries.is_empty());
    assert_eq!(outcome, RecvOutcome::Ready(0));
    assert_eq!(polls, 0);
}

#[test]
fn nothing_there_is_pending() {
    let (deliveries, outcome, polls) = run(&[8, 8], &[], pending);
    assert!(deliveries.is_empty());
    assert_eq!(outcome, RecvOutcome::Pending);
    assert_eq!(polls, 1);
}

#[test]
fn packet_is_delivered_with_its_details() {
    let (deliveries, outcome, _) = run(&[8, 8], &[message(4, None, &[1, 2, 3])], pending);
    assert_eq!(outcome, RecvOutcome::Ready(1));
    let (delivery, buf) = &deliveries[0];
    assert_eq!(delivery.slot, 0);
    assert_eq!(delivery.len, 3);
    assert_eq!(delivery.stride, 3);
    assert_eq!(delivery.source.id(), NYM_TRANSPORT_ID);
    assert_eq!(delivery.source.data(), &[4; 96]);
    assert_eq!(buf, &[1, 2, 3, 0xee, 0xee, 0xee, 0xee, 0xee]);
}

#[test]
fn segment_size_is_the_stride() {
    let (deliveries, _, _) = run(&[8], &[message(4, Some(2), &[1, 2, 3, 4])], pending);
    assert_eq!(deliveries[0].0.len, 4);
    assert_eq!(deliveries[0].0.stride, 2);
}

#[test]
fn packets_fill_slots_in_order_and_the_rest_stays() {
    let messages = [
        message(1, None, &[1]),
        message(2, None, &[2]),
        message(3, None, &[3]),
    ];
    let (deliveries, outcome, polls) = run(&[4, 4], &messages, pending);
    assert_eq!(outcome, RecvOutcome::Ready(2));
    assert_eq!(polls, 2);
    assert_eq!(deliveries[0].1[0], 1);
    assert_eq!(deliveries[1].1[0], 2);
    assert_eq!(deliveries[1].0.slot, 1);
}

#[test]
fn what_cannot_be_delivered_is_skipped() {
    let no_source = NymPacket { from: vec![1; 95], segment_size: None, data: vec![7] }.to_bytes();
    let messages = [
        vec![],
        vec![0xff; 20],
        no_source,
        message(1, None, &[1, 2, 3, 4, 5]),
        message(2, None, &[1, 2, 3, 4]),
    ];
    let (deliveries, outcome, polls) = run(&[4, 4], &messages, pending);
    assert_eq!(outcome, RecvOutcome::Ready(1));
    assert_eq!(polls, 6);
    assert_eq!(deliveries.len(), 1);
    assert_eq!(deliveries[0].0.source.data(), &[2; 96]);
    assert_eq!(deliveries[0].1, vec![1, 2, 3, 4]);

    let (deliveries, outcome, _) = run(&[4], &messages[..4], pending);
    assert!(deliveries.is_empty());
    assert_eq!(outcome, RecvOutcome::Pending);
}

#[test]
fn skipped_message_leaves_the_buffer_alone_and_has_a_reason() {
    let no_source = NymPacket { from: vec![1; 97], segment_size: None, data: vec![] }.to_bytes();
    for (message, expected) in [
        (vec![0xff; 20], SkipReason::Malformed),
        (no_source, SkipReason::InvalidSource),
        (message(1, None, &[1, 2, 3]), SkipReason::BufferTooSmall { room: 2, len: 3 }),
    ] {
        let mut batch = RecvBatch::new(1, 1, 1);
        let mut buf = [0xee; 2];
        match batch.on_event(ChannelEvent::Message(&message), &mut buf) {
            RecvAction::Skip(reason) => assert_eq!(reason, expected),
            _ => panic!("the message cannot be delivered"),
        }
        assert_eq!(buf, [0xee; 2]);
        assert_eq!(batch.filled(), 0);
    }
}

#[test]
fn each_message_is_held_against_the_slot_that_is_next() {
    let messages = [
        message(1, None, &[1, 2, 3]),
        message(2, None, &[1]),
        message(3, None, &[1, 2, 3]),
    ];
    let (deliveries, outcome, _) = run(&[2, 4], &messages, pending);
    assert_eq!(outcome, RecvOutcome::Ready(2));
    assert_eq!(deliveries[0].0.source.data(), &[2; 96]);
    assert_eq!(deliveries[1].0.source.data(), &[3; 96]);
}

#[test]
fn closed_channel_ends_the_batch_even_if_some_is_filled() {
    let (_, outcome, _) = run(&[4], &[], closed);
    assert_eq!(outcome, RecvOutcome::Closed);
    let (deliveries, outcome, _) = run(&[4, 4], &[message(1, None, &[1])], closed);
    assert_eq!(deliveries.len(), 1);
    assert_eq!(outcome, RecvOutcome::Closed);
    assert_eq!(outcome.error_text(), Some("packet channel closed".to_string()));
    assert_eq!(RecvOutcome::Pending.error_text(), None);
    assert_eq!(RecvOutcome::Ready(1).error_text(), None);
}

#[test]
fn what_is_sent_is_received() {
    let recipient = Recipient::try_from_bytes([3; 96]);
    for (size, stride) in [(None, 5), (Some(2), 2), (Some(70000), 5)] {
        let sent = prepare_for(recipient, &NymAddr([9; 96]), size, b"hello").unwrap();
        let (deliveries, outcome, _) = run(&[1500], &[sent.payload], pending);
        assert_eq!(outcome, RecvOutcome::Ready(1));
        let (delivery, buf) = &deliveries[0];
        assert_eq!(&buf[..delivery.len], b"hello");
        assert_eq!(delivery.stride, stride);
        assert_eq!(delivery.source.data(), &[9; 96]);
    }
}
