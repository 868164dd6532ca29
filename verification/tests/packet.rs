use iroh_nym_transport::wire::MAX_FIELD_BYTES;
use iroh_nym_transport::NymPacket;

fn same(a: &NymPacket, b: &NymPacket) -> bool {
    a.from == b.from && a.segment_size == b.segment_size && a.data == b.data
}

#[test]
fn new_keeps_its_fields() {
    let packet = NymPacket::new([7; 96], Some(1200), vec![1, 2, 3]);
    assert_eq!(packet.from, vec![7; 96]);
    assert_eq!(packet.segment_size, Some(1200));
    assert_eq!(packet.data, vec![1, 2, 3]);
    assert_eq!(packet.source_addr(), Some([7; 96]));
}

#[test]
fn source_must_have_the_size_of_an_address() {
    for len in [0, 1, 95, 97, 192] {
        let packet = NymPacket { from: vec![1; len], segment_size: None, data: vec![] };
        assert_eq!(packet.source_addr(), None);
    }
}

#[test]
fn encoding_is_as_postcard_writes_it() {
    let packet = NymPacket { from: vec![1, 2], segment_size: Some(300), data: vec![5] };
    assert_eq!(packet.to_bytes(), vec![2, 1, 2, 1, 0xac, 0x02, 1, 5]);

    let packet = NymPacket { from: vec![], segment_size: None, data: vec![] };
    assert_eq!(packet.to_bytes(), vec![0, 0, 0]);

    let packet = NymPacket { from: vec![], segment_size: Some(u16::MAX), data: vec![9; 200] };
    let mut wire = vec![0, 1, 0xff, 0xff, 0x03, 0xc8, 0x01];
    wire.extend(vec![9; 200]);
    assert_eq!(packet.to_bytes(), wire);
}

#[test]
fn sent_packet_has_its_lengths_in_front() {
    let wire = NymPacket::new([3; 96], None, vec![8; 5]).to_bytes();
    assert_eq!(wire.len(), 1 + 96 + 1 + 1 + 5);
    assert_eq!(wire[0], 96);
    assert_eq!(&wire[97..], &[0, 5, 8, 8, 8, 8, 8]);
}

#[test]
fn packet_is_read_back() {
    for size in [None, Some(0), Some(127), Some(128), Some(16383), Some(16384), Some(u16::MAX)] {
        for len in [0, 1, 127, 128, 1200, 16384, 70000] {
            let packet = NymPacket::new([5; 96], size, vec![0xab; len]);
            let mut wire = packet.to_bytes();
            assert!(same(&NymPacket::from_bytes(&wire).unwrap(), &packet));
            wire.extend([1, 2, 3]);
            assert!(same(&NymPacket::from_bytes(&wire).unwrap(), &packet));
        }
    }
}

#[test]
fn cut_off_packet_is_refused() {
    let wire = NymPacket::new([5; 96], Some(300), vec![1, 2, 3]).to_bytes();
    for len in 0..wire.len() {
        assert!(NymPacket::from_bytes(&wire[..len]).is_none());
    }
}

#[test]
fn different_packets_are_written_differently() {
    let packets = [
        NymPacket { from: vec![], segment_size: None, data: vec![0] },
        NymPacket { from: vec![0], segment_size: None, data: vec![] },
        NymPacket { from: vec![], segment_size: Some(0), data: vec![] },
        NymPacket { from: vec![], segment_size: Some(1), data: vec![] },
        NymPacket { from: vec![], segment_size: None, data: vec![] },
    ];
    for (i, a) in packets.iter().enumerate() {
        for b in &packets[i + 1..] {
            let (a, b) = (a.to_bytes(), b.to_bytes());
            assert!(!a.starts_with(&b) && !b.starts_with(&a));
        }
    }
}

#[test]
fn tag_of_the_option_must_be_zero_or_one() {
    assert!(NymPacket::from_bytes(&[0, 0, 0]).is_some());
    assert!(NymPacket::from_bytes(&[0, 1, 7, 0]).is_some());
    assert!(NymPacket::from_bytes(&[0, 2, 7, 0]).is_none());
    assert!(NymPacket::from_bytes(&[0, 0xff, 0]).is_none());
}

#[test]
fn varints_may_be_longer_than_needed() {
    // The length 1 in two bytes, the segment size 5 in three, the length 0 in two.
    let packet = NymPacket::from_bytes(&[0x81, 0x00, 9, 1, 0x85, 0x80, 0x00, 0x80, 0x00]).unwrap();
    assert_eq!(packet.from, vec![9]);
    assert_eq!(packet.segment_size, Some(5));
    assert!(packet.data.is_empty());
}

#[test]
fn varints_must_fit_their_type() {
    // 65535 is the largest segment size; a fourth byte is one too many.
    let largest = NymPacket::from_bytes(&[0, 1, 0xff, 0xff, 0x03, 0]).unwrap();
    assert_eq!(largest.segment_size, Some(u16::MAX));
    assert!(NymPacket::from_bytes(&[0, 1, 0x80, 0x80, 0x04, 0]).is_none());
    assert!(NymPacket::from_bytes(&[0, 1, 0x80, 0x80, 0x80, 0x00, 0]).is_none());
    // A length has as many bytes as its bits need.
    let most = (usize::BITS as usize).div_ceil(7);
    let mut longest = vec![0x80; most - 1];
    longest.push(0);
    longest.extend([0, 0]);
    assert!(NymPacket::from_bytes(&longest).is_some());
    longest.insert(0, 0x80);
    assert!(NymPacket::from_bytes(&longest).is_none());
}

#[test]
fn length_beyond_the_input_is_refused() {
    assert!(NymPacket::from_bytes(&[5, 1, 2]).is_none());
    assert!(NymPacket::from_bytes(&[0, 0, 2, 1]).is_none());
    let mut huge = vec![0xff; (usize::BITS as usize).div_ceil(7) - 1];
    huge.push(1);
    huge.extend([0, 0, 0]);
    assert!(NymPacket::from_bytes(&huge).is_none());
}

#[test]
fn field_limit_leaves_room_to_double() {
    assert!((MAX_FIELD_BYTES + 24) * 2 <= isize::MAX as usize);
}
