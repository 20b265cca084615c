use remin::udp::fragment::{
    encode_message, is_out_of_order, num_messages, split_message, MAX_MESSAGE_BODY_SIZE,
    MAX_MESSAGE_SIZE, MESSAGE_HEADER_SIZE,
};
use remin::udp::{count_skipped, skipped_id, skipped_range, Delivery, PacketStreamSync};

fn packet(len: usize) -> Vec<u8> {
    (0..len).map(|i| (i * 7 + i / 251) as u8).collect()
}

/// All messages of a packet, sent at `timestamp`.
fn messages(sender: &mut PacketStreamSync, data: &[u8], timestamp: i64) -> Vec<Vec<u8>> {
    let mut packet = sender.send(data);
    std::iter::from_fn(|| packet.next_message_at(timestamp)).collect()
}

/// The message of a packet that fits in one.
fn single(sender: &mut PacketStreamSync, data: &[u8], timestamp: i64) -> Vec<u8> {
    let mut sent = messages(sender, data, timestamp);
    assert_eq!(sent.len(), 1);
    sent.remove(0)
}

fn deliver(receiver: &mut PacketStreamSync, message: &[u8], now: i64) -> Delivery {
    receiver.receive(message);
    assert!(receiver.can_deliver(now));
    receiver.take_message(now)
}

#[test]
fn a_header_takes_sixteen_little_endian_bytes() {
    let message = encode_message(&[9, 8, 7], 0, 0x0403_0201, -2);
    let mut expected = vec![0xfe, 0xff, 0xff, 0xff, 0xff, 0xff, 0xff, 0xff];
    expected.extend([1, 2, 3, 4, 0, 0, 0, 0, 9, 8, 7]);
    assert_eq!(message, expected);
    let (header, body) = split_message(&message);
    assert_eq!(header.timestamp, -2);
    assert_eq!(header.packet_id, 0x0403_0201);
    assert_eq!(header.message_id, 0);
    assert_eq!(header.last_message_in_packet, 0);
    assert_eq!(body, &[9, 8, 7]);
}

#[test]
fn packets_are_cut_into_full_messages() {
    assert_eq!(MESSAGE_HEADER_SIZE, 16);
    assert_eq!(MAX_MESSAGE_BODY_SIZE, 65491);
    assert_eq!(num_messages(0), 0);
    assert_eq!(num_messages(1), 1);
    assert_eq!(num_messages(65491), 1);
    assert_eq!(num_messages(65492), 2);
    assert_eq!(num_messages(3 * 65491), 3);
    let data = packet(2 * 65491 + 5);
    let mut sender = PacketStreamSync::new();
    let sent = messages(&mut sender, &data, 3);
    assert_eq!(sent.len(), 3);
    assert_eq!(sent[0].len(), MAX_MESSAGE_SIZE);
    assert_eq!(sent[2].len(), 16 + 5);
    for (i, message) in sent.iter().enumerate() {
        let (header, _) = split_message(message);
        assert_eq!(header.packet_id, 0);
        assert_eq!(header.message_id as usize, i);
        assert_eq!(header.last_message_in_packet, 2);
    }
}

#[test]
fn the_next_packet_gets_the_next_id() {
    let mut sender = PacketStreamSync::new();
    let data = packet(65491 + 1);
    messages(&mut sender, &data, 0);
    let sent = messages(&mut sender, &data, 0);
    assert_eq!(split_message(&sent[0]).0.packet_id, 1);
    assert_eq!(split_message(&sent[1]).0.packet_id, 1);
}

#[test]
fn a_packet_survives_any_order_and_repetition() {
    let data = packet(2 * 65491 + 5);
    let mut sender = PacketStreamSync::new();
    let sent = messages(&mut sender, &data, 1000);
    let mut receiver = PacketStreamSync::new();
    assert!(matches!(deliver(&mut receiver, &sent[2], 1001), Delivery::Stored));
    assert_eq!(receiver.progress(0), Some((1, 3)));
    assert!(matches!(deliver(&mut receiver, &sent[2], 1002), Delivery::Duplicate));
    assert!(matches!(deliver(&mut receiver, &sent[0], 1003), Delivery::Stored));
    match deliver(&mut receiver, &sent[1], 1004) {
        Delivery::Complete { packet_id, bytes } => {
            assert_eq!(packet_id, 0);
            assert_eq!(bytes, data);
        }
        _ => panic!("the packet is not complete"),
    }
    assert_eq!(receiver.progress(0), None);
}

#[test]
fn messages_can_wait_together() {
    let data = packet(3 * 65491 + 7);
    let mut sender = PacketStreamSync::new();
    let sent = messages(&mut sender, &data, 1000);
    for order in [[0, 1, 2, 3], [3, 1, 0, 2], [2, 3, 1, 0]] {
        let mut receiver = PacketStreamSync::new();
        for i in order {
            receiver.receive(&sent[i]);
        }
        for _ in 0..3 {
            let received = receiver.recv_at(1050, |bytes| Ok::<Vec<u8>, ()>(bytes));
            assert_eq!(received.packet, Ok(None));
            assert_eq!(received.survived, Some(true));
        }
        let received = receiver.recv_at(1050, |bytes| Ok::<Vec<u8>, ()>(bytes));
        assert_eq!(received.packet, Ok(Some(data.clone())));
        assert_eq!(receiver.progress(0), None);
        assert!(matches!(receiver.take_message(1050), Delivery::Empty));
    }
}

#[test]
fn other_packets_can_come_in_between() {
    let (first, second, third) = (packet(5), packet(65491 + 9), packet(2 * 65491 + 3));
    let mut sender = PacketStreamSync::new();
    let behind = messages(&mut sender, &first, 1000);
    let awaited = messages(&mut sender, &second, 1000);
    let ahead = messages(&mut sender, &third, 1000);

    // a packet behind is completed and decoded, one ahead is not completed
    let mut receiver = PacketStreamSync::new();
    for (message, packet) in [
        (&awaited[1], None),
        (&ahead[2], None),
        (&behind[0], Some(&first)),
        (&ahead[0], None),
        (&awaited[0], Some(&second)),
    ] {
        receiver.receive(message);
        let received = receiver.recv_at(1001, |bytes| Ok::<Vec<u8>, ()>(bytes));
        assert_eq!(received.packet, Ok(packet.cloned()));
        assert_eq!(received.survived, Some(true));
    }
    assert_eq!(receiver.last_received_packet_id(), 1);
    assert_eq!(receiver.progress(2), Some((2, 3)));

    // the messages wait together
    let mut receiver = PacketStreamSync::new();
    for message in [&ahead[1], &awaited[0], &behind[0], &awaited[1], &ahead[2]] {
        receiver.receive(message);
    }
    let mut packets = Vec::new();
    for _ in 0..5 {
        let received = receiver.recv_at(1001, |bytes| Ok::<Vec<u8>, ()>(bytes));
        packets.extend(received.packet.unwrap());
    }
    assert!(packets.contains(&second));
    assert_eq!(receiver.progress(1), None);
    assert_eq!(receiver.progress(2), Some((2, 3)));
}

#[test]
fn messages_are_sent_in_order_until_none_is_left() {
    let data = packet(65491 + 1);
    let mut sender = PacketStreamSync::new();
    let mut first = sender.send(&data);
    let mut second = sender.send(&data);
    let ids = |message: Option<Vec<u8>>| {
        let (header, _) = split_message(message.as_ref().unwrap());
        (header.packet_id, header.message_id)
    };
    assert_eq!(ids(first.next_message_at(0)), (0, 0));
    assert_eq!(ids(second.next_message_at(0)), (1, 0));
    assert_eq!(ids(first.next_message_at(0)), (0, 1));
    assert_eq!(first.next_message_at(0), None);
    assert_eq!(first.next_message(), None);
    assert_eq!(ids(second.next_message_at(0)), (1, 1));
    assert_eq!(second.next_message(), None);
}

#[test]
fn old_messages_are_dropped() {
    let mut sender = PacketStreamSync::new();
    let mut receiver = PacketStreamSync::new();
    let message = single(&mut sender, &[1], 1000);
    receiver.receive(&message);
    let delivery = receiver.take_message(1101);
    assert!(matches!(delivery, Delivery::Late));
    assert_eq!(delivery.survived(), Some(false));
    let message = single(&mut sender, &[1], 1000);
    receiver.receive(&message);
    let delivery = receiver.take_message(1100);
    assert!(matches!(delivery, Delivery::Complete { packet_id: 1, .. }));
    assert_eq!(delivery.survived(), Some(true));
    let delivery = receiver.take_message(0);
    assert!(matches!(delivery, Delivery::Empty));
    assert_eq!(delivery.survived(), None);
}

#[test]
fn the_newest_message_is_looked_at_first() {
    let mut sender = PacketStreamSync::new();
    let mut receiver = PacketStreamSync::new();
    for timestamp in [20, 10, 30, 20] {
        let message = single(&mut sender, &[timestamp as u8], timestamp);
        assert!(!receiver.receive(&message));
    }
    let mut order = Vec::new();
    while let Delivery::Complete { bytes, .. } = receiver.take_message(50) {
        order.push(bytes[0]);
    }
    assert_eq!(order, [30, 20, 20, 10]);
}

#[test]
fn a_full_buffer_drops_the_oldest_message() {
    let mut sender = PacketStreamSync::new();
    let mut receiver = PacketStreamSync::new();
    for timestamp in 0..100 {
        let message = single(&mut sender, &[timestamp as u8], timestamp);
        assert!(!receiver.receive(&message));
    }
    let message = single(&mut sender, &[100], 100);
    assert!(receiver.receive(&message));
    let mut order = Vec::new();
    while let Delivery::Complete { bytes, .. } = receiver.take_message(100) {
        order.push(bytes[0]);
    }
    assert_eq!(order, (1..=100).rev().collect::<Vec<u8>>());
}

#[test]
fn received_packets_leave_older_ones_behind() {
    let mut sender = PacketStreamSync::new();
    let mut receiver = PacketStreamSync::new();
    let older = single(&mut sender, &[1], 1000);
    let newer = single(&mut sender, &[2], 1000);
    receiver.receive(&newer);
    let received = receiver.recv_at(1000, |bytes| Ok::<Vec<u8>, ()>(bytes));
    assert_eq!(received.packet, Ok(Some(vec![2])));
    assert_eq!(received.survived, Some(true));
    assert_eq!(receiver.last_received_packet_id(), 1);
    receiver.receive(&older);
    let received = receiver.recv_at(1000, |bytes| Ok::<Vec<u8>, ()>(bytes));
    assert_eq!(received.packet, Ok(None));
    assert_eq!(received.survived, Some(false));
}

#[test]
fn a_packet_that_cannot_be_decoded_is_not_received() {
    let mut sender = PacketStreamSync::new();
    let mut receiver = PacketStreamSync::new();
    single(&mut sender, &[1], 1000);
    let message = single(&mut sender, &[2], 1000);
    receiver.receive(&message);
    let received = receiver.recv_at(1000, |bytes| Err::<(), u8>(bytes[0]));
    assert_eq!(received.packet, Err(2));
    assert_eq!(receiver.last_received_packet_id(), 0);
    assert_eq!(receiver.progress(1), None);
}

#[test]
fn the_clock_is_read_when_messages_are_sent_and_received() {
    let mut sender = PacketStreamSync::new();
    let mut receiver = PacketStreamSync::new();
    let sent = sender.send(&[5, 6]).next_message().unwrap();
    let sent_at = split_message(&sent).0.timestamp;
    // the year 2020
    assert!(sent_at > 1_577_836_800_000);
    receiver.receive(&sent);
    let received = receiver.recv_non_blocking(|bytes| Ok::<Vec<u8>, ()>(bytes)).unwrap();
    assert_eq!(received.packet, Ok(Some(vec![5, 6])));

    let message = single(&mut sender, &[5, 6], sent_at - 10_000);
    receiver.receive(&message);
    let received = receiver.recv_non_blocking(|bytes| Ok::<Vec<u8>, ()>(bytes)).unwrap();
    assert_eq!(received.packet, Ok(None));
    assert_eq!(received.survived, Some(false));
}

#[test]
fn messages_without_a_place_cannot_be_delivered() {
    // position 3 of a packet whose last position is 1
    let mut message = encode_message(&[1], 0, 0, 1000);
    message[12] = 3;
    message[14] = 1;
    let mut receiver = PacketStreamSync::new();
    receiver.receive(&message);
    assert!(!receiver.can_deliver(1000));
    // unless they are too old to be looked at, as this one is on any clock of today
    assert!(receiver.can_deliver(1101));
    let received = receiver.recv_non_blocking(|bytes| Ok::<Vec<u8>, ()>(bytes)).unwrap();
    assert_eq!(received.packet, Ok(None));
    assert_eq!(received.survived, Some(false));
    assert!(matches!(receiver.take_message(0), Delivery::Empty));

    // an age that cannot be computed
    let message = encode_message(&[1], 0, 0, i64::MIN);
    receiver.receive(&message);
    assert!(!receiver.can_deliver(0));
    assert!(receiver.recv_non_blocking(|bytes| Ok::<Vec<u8>, ()>(bytes)).is_none());
    assert!(receiver.can_deliver(-1));
}

#[test]
fn packet_ids_wrap_around() {
    assert!(!is_out_of_order(5, 5));
    assert!(!is_out_of_order(6, 5));
    assert!(is_out_of_order(4, 5));
    assert!(!is_out_of_order(0, u32::MAX));
    assert!(is_out_of_order(u32::MAX, 0));
    assert!(!is_out_of_order(0x7fff_ffff, 0));
    assert!(is_out_of_order(0x8000_0000, 0));
    assert!(is_out_of_order(0, 0x8000_0000));
}

#[test]
fn skipped_packets_lie_between_two_packets() {
    assert_eq!(count_skipped(5, 5), 0);
    assert_eq!(count_skipped(6, 5), 0);
    assert_eq!(count_skipped(9, 5), 3);
    assert_eq!(count_skipped(1, u32::MAX), 1);
    assert_eq!(skipped_id(u32::MAX, 1), 0);
    assert_eq!(skipped_range(11, 5), None);
    assert_eq!(skipped_range(12, 5), Some((6, 11)));
    assert_eq!(skipped_range(6, u32::MAX), Some((0, 5)));
}
