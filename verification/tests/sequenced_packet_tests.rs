use exit_relay::sequenced_packet::{frame, SequencedPacket};

#[test]
fn new_packet_holds_what_it_was_given() {
    let packet = SequencedPacket::new(vec![10, 20], 3, true);

    assert_eq!(
        packet,
        SequencedPacket {
            data: vec![10, 20],
            sequence_number: 3,
            last_data: true
        }
    );
}

#[test]
fn terminal_packet_is_empty_and_last() {
    let packet = SequencedPacket::terminal(17);

    assert_eq!(
        packet,
        SequencedPacket {
            data: vec![],
            sequence_number: 17,
            last_data: true
        }
    );
}

#[test]
fn frame_cuts_bytes_into_numbered_packets() {
    let data: Vec<u8> = vec![0, 1, 2, 3, 4, 5, 6, 7, 8, 9];

    let packets = frame(&data, 5, 4);

    assert_eq!(
        packets,
        Some(vec![
            SequencedPacket::new(vec![0, 1, 2, 3], 5, false),
            SequencedPacket::new(vec![4, 5, 6, 7], 6, false),
            SequencedPacket::new(vec![8, 9], 7, false),
        ])
    );
}

#[test]
fn frame_of_an_exact_multiple_has_no_short_packet() {
    let data: Vec<u8> = vec![1, 2, 3, 4, 5, 6];

    let packets = frame(&data, 0, 3);

    assert_eq!(
        packets,
        Some(vec![
            SequencedPacket::new(vec![1, 2, 3], 0, false),
            SequencedPacket::new(vec![4, 5, 6], 1, false),
        ])
    );
}

#[test]
fn frame_of_few_bytes_is_one_packet() {
    let packets = frame(&vec![7, 8], 11, 1024);

    assert_eq!(packets, Some(vec![SequencedPacket::new(vec![7, 8], 11, false)]));
}

#[test]
fn frame_of_nothing_is_nothing() {
    assert_eq!(frame(&vec![], 0, 16), Some(vec![]));
    assert_eq!(frame(&vec![], u64::MAX, 16), Some(vec![]));
}

#[test]
fn frame_keeps_every_byte_in_order() {
    let data: Vec<u8> = (0..=255u8).collect();

    let packets = frame(&data, 0, 7).unwrap();

    assert_eq!(packets.len(), 37);
    let mut together: Vec<u8> = vec![];
    for (i, packet) in packets.iter().enumerate() {
        assert_eq!(packet.sequence_number, i as u64);
        assert!(!packet.last_data);
        assert!(!packet.data.is_empty() && packet.data.len() <= 7);
        together.extend_from_slice(&packet.data);
    }
    assert_eq!(together, data);
}

#[test]
fn frame_refuses_when_the_numbers_run_out() {
    assert_eq!(frame(&vec![1], u64::MAX, 4), None);
    assert_eq!(frame(&vec![1, 2], u64::MAX - 1, 1), None);
    assert_eq!(
        frame(&vec![1], u64::MAX - 1, 4),
        Some(vec![SequencedPacket::new(vec![1], u64::MAX - 1, false)])
    );
    assert_eq!(
        frame(&vec![1, 2], u64::MAX - 2, 1),
        Some(vec![
            SequencedPacket::new(vec![1], u64::MAX - 2, false),
            SequencedPacket::new(vec![2], u64::MAX - 1, false),
        ])
    );
}

#[test]
fn clone_of_a_packet_equals_it() {
    let packet = SequencedPacket::new(vec![5, 6, 7], 2, true);

    assert_eq!(packet.clone(), packet);
}
