use exit_relay::proxy_client::ClientResponsePayload;
use exit_relay::sequenced_packet::SequencedPacket;
use exit_relay::stream_key::StreamKey;

fn make_meaningless_stream_key() -> StreamKey {
    StreamKey::new(0x5468_6573_6520_6172)
}

#[test]
fn make_terminating_payload_makes_terminating_payload() {
    let stream_key: StreamKey = make_meaningless_stream_key();

    let payload = ClientResponsePayload::make_terminating_payload(stream_key);

    assert_eq!(
        payload,
        ClientResponsePayload {
            stream_key,
            sequenced_packet: SequencedPacket {
                data: vec!(),
                sequence_number: 0,
                last_data: true
            },
        }
    )
}

#[test]
fn make_terminating_payload_depends_on_the_key_alone() {
    let stream_key = StreamKey::new(42);

    let first = ClientResponsePayload::make_terminating_payload(stream_key);
    let second = ClientResponsePayload::make_terminating_payload(stream_key);
    let other = ClientResponsePayload::make_terminating_payload(StreamKey::new(43));

    assert_eq!(first, second);
    assert_eq!(first.stream_key, StreamKey { id: 42 });
    assert_eq!(other.stream_key, StreamKey { id: 43 });
    assert_eq!(first.sequenced_packet, other.sequenced_packet);
    assert_ne!(first, other);
}

#[test]
fn clone_of_a_payload_equals_it() {
    let payload = ClientResponsePayload {
        stream_key: StreamKey::new(9),
        sequenced_packet: SequencedPacket::new(vec![1, 2, 3], 4, false),
    };

    let copy = payload.clone();

    assert_eq!(copy, payload);
    assert_eq!(copy.sequenced_packet.data, vec![1, 2, 3]);
    assert_eq!(copy.sequenced_packet.sequence_number, 4);
    assert!(!copy.sequenced_packet.last_data);
}
