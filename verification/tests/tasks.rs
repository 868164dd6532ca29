use iroh_nym_transport::tasks::{
    local_addrs, ReceiveAction, ReceiveTask, SendTask, SendTaskAction, MAX_TRANSMIT_SEGMENTS,
    RECV_QUEUE_CAPACITY, SEND_QUEUE_CAPACITY,
};
use iroh_nym_transport::send::prepare_for;
use iroh_nym_transport::{NymAddr, Recipient, NYM_TRANSPORT_ID};

#[test]
fn capacities_have_their_values() {
    assert_eq!(RECV_QUEUE_CAPACITY, 65536);
    assert_eq!(SEND_QUEUE_CAPACITY, 128);
    assert_eq!(MAX_TRANSMIT_SEGMENTS, 1);
}

#[test]
fn endpoint_has_its_nym_address() {
    let addrs = local_addrs(&NymAddr([5; 96]));
    assert_eq!(addrs.len(), 1);
    assert_eq!(addrs[0].id(), NYM_TRANSPORT_ID);
    assert_eq!(addrs[0].data(), &[5; 96]);
}

#[test]
fn messages_are_forwarded_in_order() {
    let mut task = ReceiveTask::new();
    assert!(matches!(task.on_messages(None), ReceiveAction::Wait));
    assert!(matches!(task.on_messages(Some(vec![])), ReceiveAction::Wait));
    let mut action = task.on_messages(Some(vec![vec![1], vec![2], vec![3]]));
    let mut forwarded = Vec::new();
    while let ReceiveAction::Forward(message) = action {
        forwarded.push(message);
        action = task.on_forwarded(true);
    }
    assert_eq!(forwarded, vec![vec![1], vec![2], vec![3]]);
    assert!(matches!(action, ReceiveAction::Wait));
}

#[test]
fn results_of_the_mixnet_are_forwarded_one_after_the_other() {
    let results = [
        Some(vec![vec![1], vec![2, 2]]),
        None,
        Some(vec![]),
        Some(vec![vec![2, 2]]),
        None,
        Some(vec![vec![3]]),
    ];
    let mut task = ReceiveTask::new();
    let mut forwarded = Vec::new();
    for result in results {
        let mut action = task.on_messages(result);
        while let ReceiveAction::Forward(message) = action {
            forwarded.push(message);
            action = task.on_forwarded(true);
        }
        assert!(matches!(action, ReceiveAction::Wait));
    }
    assert_eq!(forwarded, vec![vec![1], vec![2, 2], vec![2, 2], vec![3]]);
}

#[test]
fn closed_channel_stops_the_task() {
    let mut task = ReceiveTask::new();
    let action = task.on_messages(Some(vec![vec![1], vec![2]]));
    assert!(matches!(action, ReceiveAction::Forward(message) if message == vec![1]));
    assert!(matches!(task.on_forwarded(false), ReceiveAction::Stop));
}

#[test]
fn each_queued_packet_is_sent_once_also_after_a_failure() {
    let recipient = Recipient::try_from_bytes([3; 96]);
    let mut queue = Vec::new();
    for contents in [b"one", b"two", b"six"] {
        queue.push(prepare_for(recipient, &NymAddr([5; 96]), None, contents).unwrap());
    }
    let queued: Vec<Vec<u8>> = queue.iter().map(|packet| packet.payload.clone()).collect();
    let mut queue = queue.into_iter();
    let mut replies = [true, false, false].into_iter();
    let mut sent = Vec::new();
    let mut task = SendTask::new();
    let mut action = SendTaskAction::Receive;
    loop {
        action = match action {
            SendTaskAction::Receive => task.on_received(queue.next()),
            SendTaskAction::Send(packet) => {
                assert_eq!(Some(packet.recipient), recipient);
                sent.push(packet.payload);
                task.on_sent(replies.next().unwrap())
            }
            SendTaskAction::Stop => break,
        };
    }
    assert_eq!(sent, queued);
}
