use exit_relay::net::{Async, IoError, IpAddress, SocketAddress};
use exit_relay::proxy_client::ClientResponsePayload;
use exit_relay::relay::{
    Destination, InboundOutcome, MeshRequest, ReadOutcome, Relay, RelayAction, RelayEvent,
    StreamRead,
};
use exit_relay::relay_model::{Direction, InboundVerdict, StreamPhase};
use exit_relay::sequenced_packet::SequencedPacket;
use exit_relay::stream_connector::ConnectionInfo;
use exit_relay::stream_connector_mock::StreamConnectorMock;
use exit_relay::stream_key::StreamKey;
use exit_relay::tokio_wrapper_mocks::{ReadHalfWrapperMock, WriteHalfWrapperMock};

type TestRelay = Relay<ReadHalfWrapperMock, WriteHalfWrapperMock>;
type TestAction = RelayAction<ReadHalfWrapperMock, WriteHalfWrapperMock>;
type TestConnection = ConnectionInfo<ReadHalfWrapperMock, WriteHalfWrapperMock>;

fn local_addr() -> SocketAddress {
    SocketAddress::new(IpAddress::V4(0x7F00_0001), 50000)
}

fn peer_addr() -> SocketAddress {
    SocketAddress::new(IpAddress::V4(0x5DB8_D822), 80)
}

fn destination() -> Destination {
    Destination {
        hostname: "example.com".to_string(),
        port: 80,
    }
}

fn plain_connection() -> TestConnection {
    ConnectionInfo {
        reader: ReadHalfWrapperMock::new(),
        writer: WriteHalfWrapperMock::new(),
        local_addr: local_addr(),
        peer_addr: peer_addr(),
    }
}

fn request(key: StreamKey, data: &[u8], sequence_number: u64, last_data: bool) -> MeshRequest {
    MeshRequest {
        stream_key: Some(key),
        sequenced_packet: Some(SequencedPacket::new(data.to_vec(), sequence_number, last_data)),
        target: Some(destination()),
    }
}

fn envelope(key: StreamKey, data: &[u8], sequence_number: u64, last_data: bool) -> TestAction {
    RelayAction::Emit(ClientResponsePayload {
        stream_key: key,
        sequenced_packet: SequencedPacket::new(data.to_vec(), sequence_number, last_data),
    })
}

fn accepted(actions: Vec<TestAction>) -> InboundOutcome<ReadHalfWrapperMock, WriteHalfWrapperMock> {
    InboundOutcome {
        verdict: InboundVerdict::Accepted,
        actions,
    }
}

/// A relay in which `key` is established over a plain connection and no
/// request packet has been taken.
fn established(key: StreamKey, max_packet_len: usize) -> TestRelay {
    let mut relay = TestRelay::new(max_packet_len);
    let outcome = relay.handle_inbound(MeshRequest {
        stream_key: Some(key),
        sequenced_packet: None,
        target: Some(destination()),
    });
    assert_eq!(
        outcome,
        accepted(vec![RelayAction::Connect {
            stream_key: key,
            target: destination()
        }])
    );
    assert_eq!(relay.connection_result(key, Ok(plain_connection())), vec![]);
    assert_eq!(relay.phase(key), Some(StreamPhase::Established));
    relay
}

/// Carries out the writes among `actions` on the writer of `key`.
fn perform_writes(relay: &mut TestRelay, key: StreamKey, actions: &[TestAction]) {
    for action in actions {
        if let RelayAction::Write { stream_key, data } = action {
            assert_eq!(*stream_key, key);
            let connection = relay.connection_mut(key).unwrap();
            assert_eq!(
                connection.writer.poll_write(data),
                Ok(Async::Ready(data.len()))
            );
        }
    }
}

#[test]
fn new_relay_knows_no_stream() {
    let relay = TestRelay::new(512);

    assert_eq!(relay.max_packet_len(), 512);
    assert_eq!(relay.phase(StreamKey::new(1)), None);
    assert_eq!(relay.resolve(StreamKey::new(1)), None);
    assert_eq!(relay.readable_streams(), vec![]);
}

#[test]
fn first_request_asks_for_a_connection() {
    let key = StreamKey::new(1);
    let mut relay = TestRelay::new(512);

    let outcome = relay.handle_inbound(request(key, b"GET /", 0, false));

    assert_eq!(
        outcome,
        accepted(vec![RelayAction::Connect {
            stream_key: key,
            target: destination()
        }])
    );
    assert_eq!(relay.phase(key), Some(StreamPhase::Connecting));
    assert_eq!(relay.resolve(key), None);
    assert_eq!(relay.readable_streams(), vec![]);
}

#[test]
fn request_bytes_reach_the_destination_in_order_and_nothing_after_the_last() {
    let key = StreamKey::new(4);
    let mut connector = StreamConnectorMock::new().connection(
        local_addr(),
        peer_addr(),
        vec![],
        vec![
            Ok(Async::Ready(3)),
            Ok(Async::Ready(2)),
            Ok(Async::Ready(4)),
        ],
    );
    let mut relay = TestRelay::new(512);

    let first = relay.handle_inbound(request(key, b"abc", 0, false));
    assert_eq!(
        first,
        accepted(vec![RelayAction::Connect {
            stream_key: key,
            target: destination()
        }])
    );
    let connected = connector.connect_one(
        vec![IpAddress::V4(0x5DB8_D822)],
        &"example.com".to_string(),
        80,
    );
    let opened = relay.connection_result(key, connected);
    assert_eq!(
        opened,
        vec![RelayAction::Write {
            stream_key: key,
            data: b"abc".to_vec()
        }]
    );
    perform_writes(&mut relay, key, &opened);

    let second = relay.handle_inbound(request(key, b"de", 1, false));
    assert_eq!(
        second,
        accepted(vec![RelayAction::Write {
            stream_key: key,
            data: b"de".to_vec()
        }])
    );
    perform_writes(&mut relay, key, &second.actions);

    let third = relay.handle_inbound(request(key, b"fghi", 2, true));
    assert_eq!(
        third,
        accepted(vec![RelayAction::Write {
            stream_key: key,
            data: b"fghi".to_vec()
        }])
    );
    perform_writes(&mut relay, key, &third.actions);
    assert_eq!(
        relay.phase(key),
        Some(StreamPhase::HalfClosed(Direction::Inbound))
    );

    let written: Vec<u8> = relay
        .resolve(key)
        .unwrap()
        .writer
        .poll_write_params()
        .concat();
    assert_eq!(written, b"abcdefghi".to_vec());

    // whatever comes for the stream now, nothing more is written
    let late = relay.handle_inbound(request(key, b"jkl", 3, false));
    assert_eq!(late.verdict, InboundVerdict::SequenceViolation);
    assert!(late
        .actions
        .iter()
        .all(|action| !matches!(action, RelayAction::Write { .. })));
    let later = relay.handle_inbound(request(key, b"mno", 4, false));
    assert_eq!(
        later,
        InboundOutcome {
            verdict: InboundVerdict::Dropped,
            actions: vec![]
        }
    );
}

#[test]
fn destination_that_answers_ok_and_closes_gives_two_envelopes() {
    let key = StreamKey::new(5);
    let mut connector = StreamConnectorMock::new().connection(
        local_addr(),
        peer_addr(),
        vec![
            (b"OK".to_vec(), Ok(Async::Ready(2))),
            (vec![], Ok(Async::Ready(0))),
        ],
        vec![],
    );
    let mut relay = TestRelay::new(512);
    relay.handle_inbound(MeshRequest {
        stream_key: Some(key),
        sequenced_packet: None,
        target: Some(destination()),
    });
    let connected = connector.connect_one(vec![], &"example.com".to_string(), 80);
    assert_eq!(relay.connection_result(key, connected), vec![]);
    let mut envelopes: Vec<TestAction> = vec![];

    for _ in 0..2 {
        assert_eq!(relay.readable_streams(), vec![key]);
        let mut buf = vec![0u8; 64];
        let result = relay
            .connection_mut(key)
            .unwrap()
            .reader
            .poll_read(&mut buf);
        let outcome = ReadOutcome::from_poll(result, &buf);
        envelopes.extend(relay.deliver_read(key, outcome));
    }

    assert_eq!(
        envelopes,
        vec![envelope(key, b"OK", 0, false), envelope(key, b"", 1, true)]
    );
    assert_eq!(
        relay.phase(key),
        Some(StreamPhase::HalfClosed(Direction::Outbound))
    );
    assert_eq!(relay.readable_streams(), vec![]);
    // a further end of data gives no second closing envelope
    assert_eq!(relay.deliver_read(key, ReadOutcome::EndOfData), vec![]);
}

#[test]
fn failed_connection_gives_one_terminating_envelope_and_the_key_resolves_no_more() {
    let key = StreamKey::new(6);
    let mut connector =
        StreamConnectorMock::new().connect_pair_result(Err(IoError::ConnectionRefused));
    let mut relay = TestRelay::new(512);
    let outcome = relay.handle_inbound(request(key, b"hello", 0, false));
    assert_eq!(
        outcome,
        accepted(vec![RelayAction::Connect {
            stream_key: key,
            target: destination()
        }])
    );

    let connected = connector.connect_one(vec![], &"example.com".to_string(), 80);
    let actions = relay.connection_result(key, connected);

    assert_eq!(
        actions,
        vec![RelayAction::Emit(
            ClientResponsePayload::make_terminating_payload(key)
        )]
    );
    assert_eq!(relay.resolve(key), None);
    assert_eq!(relay.phase(key), Some(StreamPhase::Closed));
    assert_eq!(
        relay.handle_inbound(request(key, b"again", 1, false)),
        InboundOutcome {
            verdict: InboundVerdict::Dropped,
            actions: vec![]
        }
    );
}

#[test]
fn traffic_for_a_closed_stream_is_dropped_without_a_word() {
    let key = StreamKey::new(7);
    let mut relay = established(key, 512);
    assert_eq!(
        relay.write_failed(key),
        vec![
            envelope(key, b"", 0, true),
            RelayAction::Release {
                stream_key: key,
                connection: plain_connection()
            }
        ]
    );
    assert_eq!(relay.phase(key), Some(StreamPhase::Closed));

    assert_eq!(
        relay.handle_inbound(request(key, b"late", 0, false)),
        InboundOutcome {
            verdict: InboundVerdict::Dropped,
            actions: vec![]
        }
    );
    assert_eq!(
        relay.handle_inbound(request(key, b"later", 17, true)),
        InboundOutcome {
            verdict: InboundVerdict::Dropped,
            actions: vec![]
        }
    );
    assert_eq!(
        relay.deliver_read(key, ReadOutcome::Data(b"x".to_vec())),
        vec![]
    );
    assert_eq!(relay.deliver_read(key, ReadOutcome::EndOfData), vec![]);
    assert_eq!(relay.write_failed(key), vec![]);
    assert_eq!(relay.cancel(key), vec![]);
    assert_eq!(
        relay.connection_result(key, Err(IoError::TimedOut)),
        vec![]
    );
    assert_eq!(relay.phase(key), Some(StreamPhase::Closed));
}

#[test]
fn request_without_a_stream_key_is_refused() {
    let key = StreamKey::new(8);
    let mut relay = established(key, 512);

    let outcome = relay.handle_inbound(MeshRequest {
        stream_key: None,
        sequenced_packet: Some(SequencedPacket::new(b"data".to_vec(), 0, false)),
        target: Some(destination()),
    });

    assert_eq!(
        outcome,
        InboundOutcome {
            verdict: InboundVerdict::MissingStreamKey,
            actions: vec![]
        }
    );
    assert_eq!(relay.phase(key), Some(StreamPhase::Established));
}

#[test]
fn first_request_without_a_destination_closes_the_stream() {
    let key = StreamKey::new(9);
    let mut relay = TestRelay::new(512);

    let outcome = relay.handle_inbound(MeshRequest {
        stream_key: Some(key),
        sequenced_packet: Some(SequencedPacket::new(b"data".to_vec(), 0, false)),
        target: None,
    });

    assert_eq!(
        outcome,
        InboundOutcome {
            verdict: InboundVerdict::MissingDestination,
            actions: vec![RelayAction::Emit(
                ClientResponsePayload::make_terminating_payload(key)
            )]
        }
    );
    assert_eq!(relay.phase(key), Some(StreamPhase::Closed));
}

#[test]
fn first_packet_with_a_wrong_number_closes_the_stream() {
    let key = StreamKey::new(10);
    let mut relay = TestRelay::new(512);

    let outcome = relay.handle_inbound(request(key, b"data", 1, false));

    assert_eq!(
        outcome,
        InboundOutcome {
            verdict: InboundVerdict::SequenceViolation,
            actions: vec![RelayAction::Emit(
                ClientResponsePayload::make_terminating_payload(key)
            )]
        }
    );
    assert_eq!(relay.phase(key), Some(StreamPhase::Closed));
    assert_eq!(relay.resolve(key), None);
}

#[test]
fn gap_in_the_request_ends_the_stream_with_the_next_response_number() {
    let key = StreamKey::new(11);
    let mut relay = established(key, 512);
    assert_eq!(
        relay.handle_inbound(request(key, b"zero", 0, false)),
        accepted(vec![RelayAction::Write {
            stream_key: key,
            data: b"zero".to_vec()
        }])
    );
    assert_eq!(
        relay.deliver_read(key, ReadOutcome::Data(b"reply".to_vec())),
        vec![envelope(key, b"reply", 0, false)]
    );

    let outcome = relay.handle_inbound(request(key, b"two", 2, false));

    assert_eq!(
        outcome,
        InboundOutcome {
            verdict: InboundVerdict::SequenceViolation,
            actions: vec![
                envelope(key, b"", 1, true),
                RelayAction::Release {
                    stream_key: key,
                    connection: plain_connection()
                }
            ]
        }
    );
    assert_eq!(relay.phase(key), Some(StreamPhase::Closed));
}

#[test]
fn duplicate_in_the_request_ends_the_stream() {
    let key = StreamKey::new(12);
    let mut relay = established(key, 512);
    relay.handle_inbound(request(key, b"zero", 0, false));

    let outcome = relay.handle_inbound(request(key, b"zero", 0, false));

    assert_eq!(outcome.verdict, InboundVerdict::SequenceViolation);
    assert_eq!(
        outcome.actions,
        vec![
            envelope(key, b"", 0, true),
            RelayAction::Release {
                stream_key: key,
                connection: plain_connection()
            }
        ]
    );
}

#[test]
fn violation_after_the_response_has_ended_gives_no_second_closing_envelope() {
    let key = StreamKey::new(13);
    let mut relay = established(key, 512);
    assert_eq!(
        relay.deliver_read(key, ReadOutcome::EndOfData),
        vec![envelope(key, b"", 0, true)]
    );

    let outcome = relay.handle_inbound(request(key, b"five", 5, false));

    assert_eq!(
        outcome,
        InboundOutcome {
            verdict: InboundVerdict::SequenceViolation,
            actions: vec![RelayAction::Release {
                stream_key: key,
                connection: plain_connection()
            }]
        }
    );
}

#[test]
fn requests_that_come_before_the_connection_are_kept_and_written_together() {
    let key = StreamKey::new(14);
    let mut relay = TestRelay::new(512);
    relay.handle_inbound(request(key, b"one ", 0, false));
    assert_eq!(
        relay.handle_inbound(request(key, b"two ", 1, false)),
        accepted(vec![])
    );
    assert_eq!(
        relay.handle_inbound(request(key, b"three", 2, true)),
        accepted(vec![])
    );
    assert_eq!(relay.phase(key), Some(StreamPhase::Connecting));

    let actions = relay.connection_result(key, Ok(plain_connection()));

    assert_eq!(
        actions,
        vec![RelayAction::Write {
            stream_key: key,
            data: b"one two three".to_vec()
        }]
    );
    assert_eq!(
        relay.phase(key),
        Some(StreamPhase::HalfClosed(Direction::Inbound))
    );
    assert_eq!(relay.resolve(key), Some(&plain_connection()));
}

#[test]
fn request_with_an_empty_packet_writes_nothing() {
    let key = StreamKey::new(15);
    let mut relay = established(key, 512);

    assert_eq!(
        relay.handle_inbound(request(key, b"", 0, false)),
        accepted(vec![])
    );
    assert_eq!(
        relay.handle_inbound(request(key, b"", 1, true)),
        accepted(vec![])
    );
    assert_eq!(
        relay.phase(key),
        Some(StreamPhase::HalfClosed(Direction::Inbound))
    );
}

#[test]
fn response_is_cut_into_packets_that_are_numbered_on() {
    let key = StreamKey::new(16);
    let mut relay = established(key, 2);

    let first = relay.deliver_read(key, ReadOutcome::Data(vec![1, 2, 3, 4, 5]));
    let nothing = relay.deliver_read(key, ReadOutcome::NotReady);
    let empty = relay.deliver_read(key, ReadOutcome::Data(vec![]));
    let second = relay.deliver_read(key, ReadOutcome::Data(vec![6]));
    let end = relay.deliver_read(key, ReadOutcome::EndOfData);

    assert_eq!(
        first,
        vec![
            envelope(key, &[1, 2], 0, false),
            envelope(key, &[3, 4], 1, false),
            envelope(key, &[5], 2, false),
        ]
    );
    assert_eq!(nothing, vec![]);
    assert_eq!(empty, vec![]);
    assert_eq!(second, vec![envelope(key, &[6], 3, false)]);
    assert_eq!(end, vec![envelope(key, &[], 4, true)]);
}

#[test]
fn stream_closes_when_the_request_ends_after_the_response() {
    let key = StreamKey::new(17);
    let mut relay = established(key, 512);
    relay.deliver_read(key, ReadOutcome::EndOfData);
    assert_eq!(
        relay.phase(key),
        Some(StreamPhase::HalfClosed(Direction::Outbound))
    );
    assert_eq!(
        relay.handle_inbound(request(key, b"more", 0, false)),
        accepted(vec![RelayAction::Write {
            stream_key: key,
            data: b"more".to_vec()
        }])
    );

    let outcome = relay.handle_inbound(request(key, b"last", 1, true));

    assert_eq!(
        outcome,
        accepted(vec![
            RelayAction::Write {
                stream_key: key,
                data: b"last".to_vec()
            },
            RelayAction::Release {
                stream_key: key,
                connection: plain_connection()
            }
        ])
    );
    assert_eq!(relay.phase(key), Some(StreamPhase::Closed));
    assert_eq!(relay.resolve(key), None);
}

#[test]
fn stream_closes_when_the_response_ends_after_the_request() {
    let key = StreamKey::new(18);
    let mut relay = established(key, 512);
    relay.handle_inbound(request(key, b"all", 0, true));
    assert_eq!(
        relay.phase(key),
        Some(StreamPhase::HalfClosed(Direction::Inbound))
    );
    assert_eq!(
        relay.deliver_read(key, ReadOutcome::Data(b"answer".to_vec())),
        vec![envelope(key, b"answer", 0, false)]
    );

    let actions = relay.deliver_read(key, ReadOutcome::EndOfData);

    assert_eq!(
        actions,
        vec![
            envelope(key, b"", 1, true),
            RelayAction::Release {
                stream_key: key,
                connection: plain_connection()
            }
        ]
    );
    assert_eq!(relay.phase(key), Some(StreamPhase::Closed));
}

#[test]
fn failed_read_ends_the_stream() {
    let key = StreamKey::new(19);
    let mut relay = established(key, 512);
    relay.deliver_read(key, ReadOutcome::Data(b"part".to_vec()));

    let actions = relay.deliver_read(key, ReadOutcome::Failed(IoError::ConnectionReset));

    assert_eq!(
        actions,
        vec![
            envelope(key, b"", 1, true),
            RelayAction::Release {
                stream_key: key,
                connection: plain_connection()
            }
        ]
    );
    assert_eq!(relay.phase(key), Some(StreamPhase::Closed));
}

#[test]
fn cancelled_stream_is_released_without_an_envelope() {
    let key = StreamKey::new(20);
    let mut relay = established(key, 512);
    relay.deliver_read(key, ReadOutcome::Data(b"part".to_vec()));

    let actions = relay.cancel(key);

    assert_eq!(
        actions,
        vec![RelayAction::Release {
            stream_key: key,
            connection: plain_connection()
        }]
    );
    assert_eq!(relay.phase(key), Some(StreamPhase::Closed));
    assert_eq!(relay.resolve(key), None);
    assert_eq!(
        relay.handle_inbound(request(key, b"late", 0, false)),
        InboundOutcome {
            verdict: InboundVerdict::Dropped,
            actions: vec![]
        }
    );
    assert_eq!(relay.deliver_read(key, ReadOutcome::EndOfData), vec![]);
}

#[test]
fn cancel_of_an_unknown_stream_does_nothing() {
    let key = StreamKey::new(21);
    let mut relay = TestRelay::new(512);

    assert_eq!(relay.cancel(key), vec![]);
    assert_eq!(relay.phase(key), None);
}

#[test]
fn connection_that_comes_for_a_cancelled_stream_is_released() {
    let key = StreamKey::new(22);
    let mut relay = TestRelay::new(512);
    relay.handle_inbound(request(key, b"hello", 0, false));
    assert_eq!(relay.cancel(key), vec![]);

    let actions = relay.connection_result(key, Ok(plain_connection()));

    assert_eq!(
        actions,
        vec![RelayAction::Release {
            stream_key: key,
            connection: plain_connection()
        }]
    );
    assert_eq!(relay.phase(key), Some(StreamPhase::Closed));
}

#[test]
fn connection_that_comes_for_an_unknown_stream_is_released() {
    let key = StreamKey::new(23);
    let mut relay = TestRelay::new(512);

    assert_eq!(
        relay.connection_result(key, Ok(plain_connection())),
        vec![RelayAction::Release {
            stream_key: key,
            connection: plain_connection()
        }]
    );
    assert_eq!(
        relay.connection_result(key, Err(IoError::Other)),
        vec![]
    );
    assert_eq!(relay.phase(key), None);
}

#[test]
fn streams_do_not_touch_each_other() {
    let one = StreamKey::new(24);
    let two = StreamKey::new(25);
    let mut relay = established(one, 512);
    relay.handle_inbound(MeshRequest {
        stream_key: Some(two),
        sequenced_packet: None,
        target: Some(destination()),
    });
    relay.connection_result(two, Ok(plain_connection()));
    assert_eq!(relay.readable_streams().len(), 2);

    relay.deliver_read(one, ReadOutcome::Data(b"a".to_vec()));
    relay.deliver_read(one, ReadOutcome::Data(b"b".to_vec()));
    relay.handle_inbound(request(one, b"bad", 9, false));

    assert_eq!(relay.phase(one), Some(StreamPhase::Closed));
    assert_eq!(relay.phase(two), Some(StreamPhase::Established));
    assert_eq!(relay.readable_streams(), vec![two]);
    assert_eq!(
        relay.deliver_read(two, ReadOutcome::Data(b"c".to_vec())),
        vec![envelope(two, b"c", 0, false)]
    );
    assert_eq!(
        relay.handle_inbound(request(two, b"good", 0, false)),
        accepted(vec![RelayAction::Write {
            stream_key: two,
            data: b"good".to_vec()
        }])
    );
}

#[test]
fn poll_outbound_takes_a_round_of_reads_in_order() {
    let one = StreamKey::new(26);
    let two = StreamKey::new(27);
    let mut relay = established(one, 3);
    relay.handle_inbound(MeshRequest {
        stream_key: Some(two),
        sequenced_packet: None,
        target: Some(destination()),
    });
    relay.connection_result(two, Ok(plain_connection()));

    let actions = relay.poll_outbound(vec![
        StreamRead {
            stream_key: one,
            outcome: ReadOutcome::Data(b"abcd".to_vec()),
        },
        StreamRead {
            stream_key: two,
            outcome: ReadOutcome::NotReady,
        },
        StreamRead {
            stream_key: one,
            outcome: ReadOutcome::EndOfData,
        },
        StreamRead {
            stream_key: two,
            outcome: ReadOutcome::Data(b"z".to_vec()),
        },
        StreamRead {
            stream_key: StreamKey::new(99),
            outcome: ReadOutcome::Data(b"?".to_vec()),
        },
    ]);

    assert_eq!(
        actions,
        vec![
            envelope(one, b"abc", 0, false),
            envelope(one, b"d", 1, false),
            envelope(one, b"", 2, true),
            envelope(two, b"z", 0, false),
        ]
    );
    assert_eq!(relay.poll_outbound(vec![]), vec![]);
}

#[test]
fn handle_does_what_the_named_operations_do() {
    let key = StreamKey::new(28);
    let mut relay = TestRelay::new(512);

    let asked = relay.handle(RelayEvent::Inbound(request(key, b"in", 0, false)));
    let opened = relay.handle(RelayEvent::Connected(key, Ok(plain_connection())));
    let read = relay.handle(RelayEvent::Read(StreamRead {
        stream_key: key,
        outcome: ReadOutcome::Data(b"out".to_vec()),
    }));
    let failed = relay.handle(RelayEvent::WriteFailed(key));
    let cancelled = relay.handle(RelayEvent::Cancelled(key));

    assert_eq!(
        asked,
        vec![RelayAction::Connect {
            stream_key: key,
            target: destination()
        }]
    );
    assert_eq!(
        opened,
        vec![RelayAction::Write {
            stream_key: key,
            data: b"in".to_vec()
        }]
    );
    assert_eq!(read, vec![envelope(key, b"out", 0, false)]);
    assert_eq!(
        failed,
        vec![
            envelope(key, b"", 1, true),
            RelayAction::Release {
                stream_key: key,
                connection: plain_connection()
            }
        ]
    );
    assert_eq!(cancelled, vec![]);
}

#[test]
fn connection_mut_lends_the_halves_and_changes_nothing_else() {
    let key = StreamKey::new(29);
    let mut relay = TestRelay::new(512);
    relay.handle_inbound(request(key, b"", 0, false));
    assert!(relay.connection_mut(key).is_none());
    let connection = ConnectionInfo {
        reader: ReadHalfWrapperMock::new().poll_read_result(vec![1], Ok(Async::Ready(1))),
        writer: WriteHalfWrapperMock::new().poll_write_result(Ok(Async::NotReady)),
        local_addr: local_addr(),
        peer_addr: peer_addr(),
    };
    relay.connection_result(key, Ok(connection));

    let lent = relay.connection_mut(key).unwrap();
    assert_eq!(lent.writer.poll_write(&vec![8, 9]), Ok(Async::NotReady));
    let mut buf = vec![0u8; 1];
    assert_eq!(lent.reader.poll_read(&mut buf), Ok(Async::Ready(1)));

    assert_eq!(buf, vec![1]);
    assert_eq!(
        relay.resolve(key).unwrap().writer.poll_write_params(),
        &vec![vec![8, 9]]
    );
    assert_eq!(relay.phase(key), Some(StreamPhase::Established));
    assert!(relay.connection_mut(StreamKey::new(30)).is_none());
}

#[test]
fn from_poll_reads_what_a_poll_says() {
    let buf = vec![b'a', b'b', b'c', 0, 0];

    assert_eq!(
        ReadOutcome::from_poll(Ok(Async::Ready(3)), &buf),
        ReadOutcome::Data(b"abc".to_vec())
    );
    assert_eq!(
        ReadOutcome::from_poll(Ok(Async::Ready(5)), &buf),
        ReadOutcome::Data(vec![b'a', b'b', b'c', 0, 0])
    );
    assert_eq!(
        ReadOutcome::from_poll(Ok(Async::Ready(0)), &buf),
        ReadOutcome::EndOfData
    );
    assert_eq!(
        ReadOutcome::from_poll(Ok(Async::NotReady), &buf),
        ReadOutcome::NotReady
    );
    assert_eq!(
        ReadOutcome::from_poll(Err(IoError::TimedOut), &buf),
        ReadOutcome::Failed(IoError::TimedOut)
    );
}

#[test]
fn clone_of_a_destination_equals_it() {
    let target = destination();

    assert_eq!(target.clone(), target);
}
