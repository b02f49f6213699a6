//! What holds of the relay whatever reaches it.
use crate::net::IoError;
use crate::proxy_client::{terminating_payload, ClientResponsePayloadView};
use crate::relay_model::{
    emissions, InboundVerdict, MeshRequestView, ReadOutcomeView, RelayActionView, RelayEventView,
    RelayState, StreamPhase, StreamState,
};
use crate::sequenced_packet::{
    framed, lemma_framed, lemma_payload_of_push, payload_of, terminal_packet, SequencedPacketView,
};
use crate::stream_connector::ConnectionInfo;
use crate::stream_key::StreamKey;
use vstd::prelude::*;

verus! {

/// The packets that `actions` hand to the mesh for `stream_key`, in order.
pub open spec fn packets_for<R, W>(actions: Seq<RelayActionView<R, W>>, stream_key: StreamKey) -> Seq<
    SequencedPacketView,
>
    decreases actions.len(),
{
    if actions.len() == 0 {
        Seq::empty()
    } else {
        let earlier = packets_for(actions.drop_last(), stream_key);
        match actions.last() {
            RelayActionView::Emit(payload) => if payload.stream_key == stream_key {
                earlier.push(payload.sequenced_packet)
            } else {
                earlier
            },
            _ => earlier,
        }
    }
}

/// The bytes that `actions` have written to the destination of
/// `stream_key`, in order.
pub open spec fn written_for<R, W>(actions: Seq<RelayActionView<R, W>>, stream_key: StreamKey) -> Seq<
    u8,
>
    decreases actions.len(),
{
    if actions.len() == 0 {
        Seq::empty()
    } else {
        let earlier = written_for(actions.drop_last(), stream_key);
        match actions.last() {
            RelayActionView::Write { stream_key: to, data } => if to == stream_key {
                earlier + data
            } else {
                earlier
            },
            _ => earlier,
        }
    }
}

/// The packets of a stream are numbered 0, 1, 2, ... without a gap, and
/// none but the last of them closes the stream.
pub open spec fn numbered_from_zero(packets: Seq<SequencedPacketView>) -> bool {
    forall|i: int|
        0 <= i < packets.len() ==> (#[trigger] packets[i]).sequence_number == i && (
        packets[i].last_data ==> i == packets.len() - 1)
}

/// Whether one of `events` cancels `stream_key`.
pub open spec fn cancels<R, W>(events: Seq<RelayEventView<R, W>>, stream_key: StreamKey) -> bool {
    exists|i: int|
        0 <= i < events.len() && #[trigger] events[i] == RelayEventView::<R, W>::Cancelled(
            stream_key,
        )
}

/// The number of packets that a stream in state `stream` has handed to the
/// mesh.
pub open spec fn sent<R, W>(stream: StreamState<R, W>) -> int {
    stream.emitted + if stream.terminal_sent {
        1int
    } else {
        0int
    }
}

/// `packets` carry on the response of a stream from `before` to `after`:
/// they are numbered on from those sent before, the last of them closes the
/// stream exactly when the response ends with them, and none comes after the
/// response has ended.
pub open spec fn continues<R, W>(
    before: StreamState<R, W>,
    packets: Seq<SequencedPacketView>,
    after: StreamState<R, W>,
) -> bool {
    &&& sent(after) == sent(before) + packets.len()
    &&& before.terminal_sent ==> after.terminal_sent && packets.len() == 0
    &&& after.terminal_sent && !before.terminal_sent ==> packets.len() > 0
    &&& forall|i: int|
        0 <= i < packets.len() ==> {
            &&& (#[trigger] packets[i]).sequence_number == sent(before) + i
            &&& (packets[i].last_data <==> i == packets.len() - 1 && after.terminal_sent
                && !before.terminal_sent)
        }
}

/// The stream that `event` is about, if it is about one.
pub open spec fn subject<R, W>(event: RelayEventView<R, W>) -> Option<StreamKey> {
    match event {
        RelayEventView::Inbound(request) => request.stream_key,
        RelayEventView::Connected(stream_key, _) => Some(stream_key),
        RelayEventView::Read(read) => Some(read.stream_key),
        RelayEventView::WriteFailed(stream_key) => Some(stream_key),
        RelayEventView::Cancelled(stream_key) => Some(stream_key),
    }
}

/// The requests that deliver `packets` for `stream_key`, one packet each, in
/// order.
pub open spec fn requests_of<R, W>(stream_key: StreamKey, packets: Seq<SequencedPacketView>) -> Seq<
    RelayEventView<R, W>,
> {
    Seq::new(
        packets.len(),
        |i: int|
            RelayEventView::Inbound(
                MeshRequestView {
                    stream_key: Some(stream_key),
                    sequenced_packet: Some(packets[i]),
                    target: None,
                },
            ),
    )
}

/// `packets` are the next packets of a request of which `first` packets
/// have been taken: they bear the numbers `first`, `first + 1`, ... in order,
/// and none but the last ends the request.
pub open spec fn in_turn(first: int, packets: Seq<SequencedPacketView>) -> bool {
    &&& forall|i: int|
        0 <= i < packets.len() ==> (#[trigger] packets[i]).sequence_number == first + i && (
        packets[i].last_data ==> i == packets.len() - 1)
    &&& packets.len() > 0 && !packets.last().last_data ==> packets.last().sequence_number
        < u64::MAX
}

proof fn lemma_packets_for_concat<R, W>(
    a: Seq<RelayActionView<R, W>>,
    b: Seq<RelayActionView<R, W>>,
    k: StreamKey,
)
    ensures
        packets_for(a + b, k) == packets_for(a, k) + packets_for(b, k),
    decreases b.len(),
{
    if b.len() == 0 {
        assert(a + b == a);
    } else {
        assert((a + b).drop_last() == a + b.drop_last());
        lemma_packets_for_concat(a, b.drop_last(), k);
    }
}

proof fn lemma_packets_for_one<R, W>(action: RelayActionView<R, W>, k: StreamKey)
    ensures
        packets_for(seq![action], k) == match action {
            RelayActionView::Emit(payload) => if payload.stream_key == k {
                seq![payload.sequenced_packet]
            } else {
                Seq::empty()
            },
            _ => Seq::empty(),
        },
{
    assert(seq![action].drop_last() == Seq::<RelayActionView<R, W>>::empty());
    assert(packets_for(seq![action].drop_last(), k) == Seq::<SequencedPacketView>::empty());
}

proof fn lemma_packets_for_emissions<R, W>(
    to: StreamKey,
    packets: Seq<SequencedPacketView>,
    k: StreamKey,
)
    ensures
        packets_for(emissions::<R, W>(to, packets), k) == if to == k {
            packets
        } else {
            Seq::empty()
        },
    decreases packets.len(),
{
    let actions = emissions::<R, W>(to, packets);
    if packets.len() > 0 {
        assert(actions.drop_last() == emissions::<R, W>(to, packets.drop_last()));
        lemma_packets_for_emissions::<R, W>(to, packets.drop_last(), k);
        if to == k {
            assert(packets.drop_last().push(packets.last()) == packets);
        }
    }
}

proof fn lemma_written_for_concat<R, W>(
    a: Seq<RelayActionView<R, W>>,
    b: Seq<RelayActionView<R, W>>,
    k: StreamKey,
)
    ensures
        written_for(a + b, k) == written_for(a, k) + written_for(b, k),
    decreases b.len(),
{
    if b.len() == 0 {
        assert(a + b == a);
        assert(written_for(a, k) + written_for(b, k) == written_for(a, k));
    } else {
        assert((a + b).drop_last() == a + b.drop_last());
        lemma_written_for_concat(a, b.drop_last(), k);
        let earlier = written_for(a, k) + written_for(b.drop_last(), k);
        match b.last() {
            RelayActionView::Write { stream_key: to, data } => {
                if to == k {
                    assert(earlier + data == written_for(a, k) + (written_for(b.drop_last(), k)
                        + data));
                }
            },
            _ => {},
        }
    }
}

proof fn lemma_written_for_one<R, W>(action: RelayActionView<R, W>, k: StreamKey)
    ensures
        written_for(seq![action], k) == match action {
            RelayActionView::Write { stream_key: to, data } => if to == k {
                data
            } else {
                Seq::empty()
            },
            _ => Seq::empty(),
        },
{
    assert(seq![action].drop_last() == Seq::<RelayActionView<R, W>>::empty());
    assert(written_for(seq![action].drop_last(), k) == Seq::<u8>::empty());
    match action {
        RelayActionView::Write { stream_key: to, data } => {
            assert(Seq::<u8>::empty() + data == data);
        },
        _ => {},
    }
}

proof fn lemma_written_for_emissions<R, W>(
    to: StreamKey,
    packets: Seq<SequencedPacketView>,
    k: StreamKey,
)
    ensures
        written_for(emissions::<R, W>(to, packets), k).len() == 0,
    decreases packets.len(),
{
    let actions = emissions::<R, W>(to, packets);
    if packets.len() > 0 {
        assert(actions.drop_last() == emissions::<R, W>(to, packets.drop_last()));
        lemma_written_for_emissions::<R, W>(to, packets.drop_last(), k);
    }
}

/// The packets of `actions` carry on the response of the stream `to`, from
/// `before` to `after`, and hold nothing for any other stream.
spec fn carried<R, W>(
    before: StreamState<R, W>,
    to: StreamKey,
    after: StreamState<R, W>,
    actions: Seq<RelayActionView<R, W>>,
    k: StreamKey,
) -> bool {
    &&& to == k ==> continues(before, packets_for(actions, k), after)
    &&& to != k ==> packets_for(actions, k).len() == 0
}

/// What the end of a failed stream gives to the mesh.
proof fn lemma_torn_down<R, W>(stream: StreamState<R, W>, to: StreamKey, k: StreamKey)
    requires
        stream.well_formed(),
    ensures
        stream.torn_down(to).0.well_formed(),
        to == k ==> continues(stream, packets_for(stream.torn_down(to).1, k), stream.torn_down(to).0),
        to != k ==> packets_for(stream.torn_down(to).1, k).len() == 0,
{
    let (after, actions) = stream.torn_down(to);
    let emit = if stream.terminal_sent {
        Seq::empty()
    } else {
        seq![
            RelayActionView::<R, W>::Emit(
                ClientResponsePayloadView {
                    stream_key: to,
                    sequenced_packet: terminal_packet(stream.emitted),
                },
            ),
        ]
    };
    let release = match stream.connection {
        Some(connection) => seq![RelayActionView::Release { stream_key: to, connection }],
        None => Seq::empty(),
    };
    assert(actions == emit + release);
    lemma_packets_for_concat(emit, release, k);
    if !stream.terminal_sent {
        lemma_packets_for_one(emit[0], k);
    }
    if stream.connection is Some {
        lemma_packets_for_one(release[0], k);
    }
}

proof fn lemma_cancelled<R, W>(stream: StreamState<R, W>, to: StreamKey, k: StreamKey)
    requires
        stream.well_formed(),
    ensures
        stream.cancelled(to).0.well_formed(),
        carried(stream, to, stream.cancelled(to).0, stream.cancelled(to).1, k),
{
    let (after, actions) = stream.cancelled(to);
    if stream.connection is Some {
        lemma_packets_for_one(actions[0], k);
        assert(actions == seq![actions[0]]);
    }
}

proof fn lemma_taken<R, W>(
    stream: StreamState<R, W>,
    to: StreamKey,
    packet: SequencedPacketView,
    k: StreamKey,
)
    requires
        stream.well_formed(),
        !stream.closed,
        stream.accepts(packet),
    ensures
        stream.taken(to, packet).0.well_formed(),
        carried(stream, to, stream.taken(to, packet).0, stream.taken(to, packet).1, k),
{
    let (after, actions) = stream.taken(to, packet);
    match stream.connection {
        None => {},
        Some(connection) => {
            let write = if packet.data.len() > 0 {
                seq![RelayActionView::<R, W>::Write { stream_key: to, data: packet.data }]
            } else {
                Seq::empty()
            };
            if packet.data.len() > 0 {
                lemma_packets_for_one(write[0], k);
            }
            if packet.last_data && stream.terminal_sent {
                let release = seq![RelayActionView::Release { stream_key: to, connection }];
                lemma_packets_for_one(release[0], k);
                lemma_packets_for_concat(write, release, k);
            }
        },
    }
}

proof fn lemma_opened<R, W>(
    stream: StreamState<R, W>,
    to: StreamKey,
    connection: ConnectionInfo<R, W>,
    k: StreamKey,
)
    requires
        stream.well_formed(),
        !stream.closed,
        stream.connection is None,
    ensures
        stream.opened(to, connection).0.well_formed(),
        carried(stream, to, stream.opened(to, connection).0, stream.opened(to, connection).1, k),
{
    let (after, actions) = stream.opened(to, connection);
    if stream.backlog.len() > 0 {
        lemma_packets_for_one(actions[0], k);
        assert(actions == seq![actions[0]]);
    }
}

proof fn lemma_data_read<R, W>(
    stream: StreamState<R, W>,
    to: StreamKey,
    data: Seq<u8>,
    max_packet_len: usize,
    k: StreamKey,
)
    requires
        stream.well_formed(),
        stream.readable(),
        max_packet_len > 0,
    ensures
        stream.data_read(to, data, max_packet_len).0.well_formed(),
        carried(
            stream,
            to,
            stream.data_read(to, data, max_packet_len).0,
            stream.data_read(to, data, max_packet_len).1,
            k,
        ),
{
    let packets = framed(data, stream.emitted as int, max_packet_len as int);
    if stream.emitted + packets.len() <= u64::MAX {
        lemma_framed(data, stream.emitted as int, max_packet_len as int);
        lemma_packets_for_emissions::<R, W>(to, packets, k);
    } else {
        lemma_torn_down(stream, to, k);
    }
}

proof fn lemma_end_of_data<R, W>(stream: StreamState<R, W>, to: StreamKey, k: StreamKey)
    requires
        stream.well_formed(),
        stream.readable(),
    ensures
        stream.end_of_data(to).0.well_formed(),
        carried(stream, to, stream.end_of_data(to).0, stream.end_of_data(to).1, k),
{
    let (after, actions) = stream.end_of_data(to);
    if stream.inbound_finished {
        lemma_torn_down(stream, to, k);
    } else {
        lemma_packets_for_one(actions[0], k);
        assert(actions == seq![actions[0]]);
    }
}

/// The end of a stream, failed or cancelled, writes nothing.
proof fn lemma_end_writes_nothing<R, W>(stream: StreamState<R, W>, to: StreamKey, k: StreamKey)
    ensures
        written_for(stream.torn_down(to).1, k).len() == 0,
        written_for(stream.cancelled(to).1, k).len() == 0,
{
    let emit = if stream.terminal_sent {
        Seq::empty()
    } else {
        seq![
            RelayActionView::<R, W>::Emit(
                ClientResponsePayloadView {
                    stream_key: to,
                    sequenced_packet: terminal_packet(stream.emitted),
                },
            ),
        ]
    };
    let release = match stream.connection {
        Some(connection) => seq![RelayActionView::Release { stream_key: to, connection }],
        None => Seq::empty(),
    };
    assert(stream.torn_down(to).1 == emit + release);
    assert(stream.cancelled(to).1 == release);
    lemma_written_for_concat(emit, release, k);
    if !stream.terminal_sent {
        lemma_written_for_one(emit[0], k);
    }
    if stream.connection is Some {
        lemma_written_for_one(release[0], k);
        assert(release == seq![release[0]]);
    }
}

/// What a stream writes when it takes a packet: the bytes of the packet, if
/// it has a connection, and nothing for any other stream.
proof fn lemma_taken_writes<R, W>(
    stream: StreamState<R, W>,
    to: StreamKey,
    packet: SequencedPacketView,
    k: StreamKey,
)
    ensures
        written_for(stream.taken(to, packet).1, k) == if to == k && stream.connection is Some {
            packet.data
        } else {
            Seq::empty()
        },
{
    match stream.connection {
        None => {},
        Some(connection) => {
            let write = if packet.data.len() > 0 {
                seq![RelayActionView::<R, W>::Write { stream_key: to, data: packet.data }]
            } else {
                Seq::empty()
            };
            if packet.data.len() > 0 {
                lemma_written_for_one(write[0], k);
            } else {
                assert(packet.data == Seq::<u8>::empty());
            }
            if packet.last_data && stream.terminal_sent {
                let release = seq![RelayActionView::Release { stream_key: to, connection }];
                lemma_written_for_one(release[0], k);
                lemma_written_for_concat(write, release, k);
                assert(written_for(write, k) + Seq::<u8>::empty() == written_for(write, k));
            }
        },
    }
}

/// What was handed to the mesh in two stretches, one after the other,
/// carries on the response over both.
proof fn lemma_continues_on<R, W>(
    a: StreamState<R, W>,
    first: Seq<SequencedPacketView>,
    b: StreamState<R, W>,
    second: Seq<SequencedPacketView>,
    c: StreamState<R, W>,
)
    requires
        continues(a, first, b),
        continues(b, second, c),
    ensures
        continues(a, first + second, c),
{
    let all = first + second;
    assert forall|i: int| 0 <= i < all.len() implies {
        &&& (#[trigger] all[i]).sequence_number == sent(a) + i
        &&& (all[i].last_data <==> i == all.len() - 1 && c.terminal_sent && !a.terminal_sent)
    } by {
        if i < first.len() {
            assert(all[i] == first[i]);
        } else {
            assert(all[i] == second[i - first.len()]);
        }
    }
}

/// One event leaves the relay well formed, touches no stream but its own,
/// and hands to the mesh, for every stream, packets that carry on where
/// the stream stood.
pub proof fn lemma_step<R, W>(state: RelayState<R, W>, event: RelayEventView<R, W>, k: StreamKey)
    requires
        state.well_formed(),
    ensures
        ({
            let (after, actions) = state.step(event);
            &&& after.well_formed()
            &&& after.max_packet_len == state.max_packet_len
            &&& continues(state.stream(k), packets_for(actions, k), after.stream(k))
            &&& subject(event) != Some(k) ==> after.stream(k) == state.stream(k) && (after.knows(k)
                <==> state.knows(k))
            &&& state.knows(k) ==> after.knows(k)
            &&& state.stream(k).closed ==> after.stream(k) == state.stream(k)
            &&& after.stream(k).closed && !state.stream(k).closed ==> after.stream(k).terminal_sent
                || event == RelayEventView::<R, W>::Cancelled(k)
        }),
{
    let (after, actions) = state.step(event);
    assert(packets_for(Seq::<RelayActionView<R, W>>::empty(), k).len() == 0);
    match event {
        RelayEventView::Inbound(request) => {
            match request.stream_key {
                None => {},
                Some(to) => {
                    let stream = state.stream(to);
                    if stream.closed {
                    } else if request.sequenced_packet is Some && !stream.accepts(
                        request.sequenced_packet->0,
                    ) {
                        lemma_torn_down(stream, to, k);
                    } else if !state.knows(to) && request.target is None {
                        lemma_torn_down(stream, to, k);
                    } else {
                        let connect = if state.knows(to) {
                            Seq::empty()
                        } else {
                            seq![
                                RelayActionView::<R, W>::Connect {
                                    stream_key: to,
                                    target: request.target->0,
                                },
                            ]
                        };
                        if !state.knows(to) {
                            lemma_packets_for_one(connect[0], k);
                        }
                        match request.sequenced_packet {
                            Some(packet) => {
                                lemma_taken(stream, to, packet, k);
                                lemma_packets_for_concat(connect, stream.taken(to, packet).1, k);
                            },
                            None => {},
                        }
                    }
                },
            }
        },
        RelayEventView::Connected(to, result) => {
            let stream = state.stream(to);
            if state.knows(to) && stream.phase() == StreamPhase::Connecting {
                match result {
                    Ok(connection) => lemma_opened(stream, to, connection, k),
                    Err(_) => lemma_torn_down(stream, to, k),
                }
            } else {
                match result {
                    Ok(connection) => {
                        lemma_packets_for_one(
                            RelayActionView::Release { stream_key: to, connection },
                            k,
                        );
                    },
                    Err(_) => {},
                }
            }
        },
        RelayEventView::Read(read) => {
            let to = read.stream_key;
            let stream = state.stream(to);
            if state.knows(to) && stream.readable() {
                match read.outcome {
                    ReadOutcomeView::NotReady => {},
                    ReadOutcomeView::Data(data) => lemma_data_read(
                        stream,
                        to,
                        data,
                        state.max_packet_len,
                        k,
                    ),
                    ReadOutcomeView::EndOfData => lemma_end_of_data(stream, to, k),
                    ReadOutcomeView::Failed(_) => lemma_torn_down(stream, to, k),
                }
            }
        },
        RelayEventView::WriteFailed(to) => {
            let stream = state.stream(to);
            if state.knows(to) && stream.connection is Some {
                lemma_torn_down(stream, to, k);
            }
        },
        RelayEventView::Cancelled(to) => {
            let stream = state.stream(to);
            if state.knows(to) && !stream.closed {
                lemma_cancelled(stream, to, k);
            }
        },
    }
}

/// One event writes to no destination but that of its own stream, and to
/// that one only while the request of the stream is open or kept bytes of
/// it wait for the connection.
proof fn lemma_step_writes<R, W>(state: RelayState<R, W>, event: RelayEventView<R, W>, k: StreamKey)
    requires
        state.well_formed(),
    ensures
        ({
            let (after, actions) = state.step(event);
            let stream = state.stream(k);
            &&& subject(event) != Some(k) ==> written_for(actions, k).len() == 0
            &&& stream.closed ==> written_for(actions, k).len() == 0
            &&& stream.inbound_finished && stream.backlog.len() == 0 ==> written_for(
                actions,
                k,
            ).len() == 0 && after.stream(k).inbound_finished && after.stream(k).backlog.len()
                == 0
        }),
{
    let (after, actions) = state.step(event);
    assert(written_for(Seq::<RelayActionView<R, W>>::empty(), k).len() == 0);
    match event {
        RelayEventView::Inbound(request) => {
            match request.stream_key {
                None => {},
                Some(to) => {
                    let stream = state.stream(to);
                    if stream.closed {
                    } else if request.sequenced_packet is Some && !stream.accepts(
                        request.sequenced_packet->0,
                    ) {
                        lemma_end_writes_nothing(stream, to, k);
                    } else if !state.knows(to) && request.target is None {
                        lemma_end_writes_nothing(stream, to, k);
                    } else {
                        let connect = if state.knows(to) {
                            Seq::empty()
                        } else {
                            seq![
                                RelayActionView::<R, W>::Connect {
                                    stream_key: to,
                                    target: request.target->0,
                                },
                            ]
                        };
                        if !state.knows(to) {
                            lemma_written_for_one(connect[0], k);
                        }
                        match request.sequenced_packet {
                            Some(packet) => {
                                lemma_taken_writes(stream, to, packet, k);
                                lemma_written_for_concat(connect, stream.taken(to, packet).1, k);
                            },
                            None => {},
                        }
                    }
                },
            }
        },
        RelayEventView::Connected(to, result) => {
            let stream = state.stream(to);
            if state.knows(to) && stream.phase() == StreamPhase::Connecting {
                match result {
                    Ok(connection) => {
                        let opened = stream.opened(to, connection).1;
                        if stream.backlog.len() > 0 {
                            lemma_written_for_one(opened[0], k);
                            assert(opened == seq![opened[0]]);
                        }
                    },
                    Err(_) => lemma_end_writes_nothing(stream, to, k),
                }
            } else {
                match result {
                    Ok(connection) => {
                        lemma_written_for_one(
                            RelayActionView::Release { stream_key: to, connection },
                            k,
                        );
                    },
                    Err(_) => {},
                }
            }
        },
        RelayEventView::Read(read) => {
            let to = read.stream_key;
            let stream = state.stream(to);
            if state.knows(to) && stream.readable() {
                match read.outcome {
                    ReadOutcomeView::NotReady => {},
                    ReadOutcomeView::Data(data) => {
                        let packets = framed(
                            data,
                            stream.emitted as int,
                            state.max_packet_len as int,
                        );
                        lemma_written_for_emissions::<R, W>(to, packets, k);
                        lemma_end_writes_nothing(stream, to, k);
                    },
                    ReadOutcomeView::EndOfData => {
                        lemma_end_writes_nothing(stream, to, k);
                        if !stream.inbound_finished {
                            let ended = stream.end_of_data(to).1;
                            lemma_written_for_one(ended[0], k);
                            assert(ended == seq![ended[0]]);
                        }
                    },
                    ReadOutcomeView::Failed(_) => lemma_end_writes_nothing(stream, to, k),
                }
            }
        },
        RelayEventView::WriteFailed(to) => {
            lemma_end_writes_nothing(state.stream(to), to, k);
        },
        RelayEventView::Cancelled(to) => {
            lemma_end_writes_nothing(state.stream(to), to, k);
        },
    }
}

/// Whatever reaches a well-formed relay, in whatever order: the relay stays
/// well formed, and the packets handed to the mesh for any one stream carry
/// on where that stream stood.
pub proof fn lemma_run<R, W>(
    state: RelayState<R, W>,
    events: Seq<RelayEventView<R, W>>,
    k: StreamKey,
)
    requires
        state.well_formed(),
    ensures
        ({
            let (after, actions) = state.run(events);
            &&& after.well_formed()
            &&& after.max_packet_len == state.max_packet_len
            &&& continues(state.stream(k), packets_for(actions, k), after.stream(k))
            &&& after.stream(k).closed && !state.stream(k).closed && !cancels(events, k)
                ==> after.stream(k).terminal_sent
        }),
    decreases events.len(),
{
    if events.len() == 0 {
        assert(packets_for(Seq::<RelayActionView<R, W>>::empty(), k).len() == 0);
    } else {
        let (before, earlier) = state.run(events.drop_last());
        let (after, actions) = before.step(events.last());
        lemma_run(state, events.drop_last(), k);
        lemma_step(before, events.last(), k);
        lemma_packets_for_concat(earlier, actions, k);
        lemma_continues_on(
            state.stream(k),
            packets_for(earlier, k),
            before.stream(k),
            packets_for(actions, k),
            after.stream(k),
        );
        if !cancels(events, k) {
            if cancels(events.drop_last(), k) {
                let i = choose|i: int|
                    0 <= i < events.drop_last().len() && #[trigger] events.drop_last()[i]
                        == RelayEventView::<R, W>::Cancelled(k);
                assert(events[i] == RelayEventView::<R, W>::Cancelled(k));
            }
            assert(events[events.len() - 1] != RelayEventView::<R, W>::Cancelled(k));
        }
    }
}

/// The response of every stream, from the first event that reaches a new
/// relay: the packets handed to the mesh for the stream bear the numbers 0,
/// 1, 2, ... in this order, without a gap. None but the last closes the
/// stream, the last does so exactly when the relay holds the response as
/// ended, and it has done so for every stream that is closed and was not
/// cancelled.
pub proof fn law_response_numbering<R, W>(
    max_packet_len: usize,
    events: Seq<RelayEventView<R, W>>,
    stream_key: StreamKey,
)
    requires
        max_packet_len > 0,
    ensures
        ({
            let (after, actions) = RelayState::<R, W>::empty(max_packet_len).run(events);
            let packets = packets_for(actions, stream_key);
            let stream = after.stream(stream_key);
            &&& numbered_from_zero(packets)
            &&& packets.len() == sent(stream)
            &&& stream.terminal_sent <==> packets.len() > 0 && packets.last().last_data
            &&& stream.closed && !cancels(events, stream_key) ==> stream.terminal_sent
        }),
{
    let start = RelayState::<R, W>::empty(max_packet_len);
    lemma_run(start, events, stream_key);
    let (after, actions) = start.run(events);
    let packets = packets_for(actions, stream_key);
    assert(start.stream(stream_key) == StreamState::<R, W>::fresh());
    assert forall|i: int| 0 <= i < packets.len() implies (#[trigger] packets[i]).sequence_number
        == i && (packets[i].last_data ==> i == packets.len() - 1) by {}
}

/// The first request of a stream: a request for a stream that the relay
/// does not know, with a destination and with no packet or the packet
/// numbered 0, is accepted; the relay asks for a connection to the
/// destination and for nothing else, and the stream waits for it.
pub proof fn law_first_request<R, W>(state: RelayState<R, W>, request: MeshRequestView)
    requires
        state.well_formed(),
        request.stream_key is Some,
        !state.knows(request.stream_key->0),
        request.target is Some,
        request.sequenced_packet matches Some(packet) ==> packet.sequence_number == 0,
    ensures
        ({
            let stream_key = request.stream_key->0;
            let (after, verdict, actions) = state.inbound(request);
            &&& verdict == InboundVerdict::Accepted
            &&& actions == seq![
                RelayActionView::<R, W>::Connect { stream_key, target: request.target->0 },
            ]
            &&& after.knows(stream_key)
            &&& after.stream(stream_key).phase() == StreamPhase::Connecting
        }),
{
    let stream_key = request.stream_key->0;
    let connect = seq![
        RelayActionView::<R, W>::Connect { stream_key, target: request.target->0 },
    ];
    assert(connect + Seq::<RelayActionView<R, W>>::empty() == connect);
}

/// A stream whose connection attempt fails: when the connector reports the
/// failure for a stream that waits for its connection, the mesh gets the
/// terminating envelope and nothing else is asked for; the stream is closed
/// and resolves to no connection; and every request that comes for it
/// afterwards is dropped, with nothing asked for and nothing changed.
pub proof fn law_failed_connection<R, W>(
    state: RelayState<R, W>,
    stream_key: StreamKey,
    error: IoError,
    later: MeshRequestView,
)
    requires
        state.well_formed(),
        state.knows(stream_key),
        state.stream(stream_key).phase() == StreamPhase::Connecting,
        later.stream_key == Some(stream_key),
    ensures
        ({
            let (after, actions) = state.connected(stream_key, Err(error));
            &&& actions == seq![RelayActionView::<R, W>::Emit(terminating_payload(stream_key))]
            &&& after.resolve(stream_key) is None
            &&& after.stream(stream_key).phase() == StreamPhase::Closed
            &&& after.inbound(later) == (
                after,
                InboundVerdict::Dropped,
                Seq::<RelayActionView<R, W>>::empty(),
            )
        }),
{
    let stream = state.stream(stream_key);
    let (after, actions) = state.connected(stream_key, Err(error));
    assert(stream.torn_down(stream_key).1 == seq![
        RelayActionView::<R, W>::Emit(terminating_payload(stream_key)),
    ]);
}

/// A closed stream is silent: whatever reaches the relay, nothing is handed
/// to the mesh for a stream that is closed, nothing is written to a
/// destination for it, and it stays as it is. A request for it is dropped:
/// the relay does not change and asks for nothing.
pub proof fn law_closed_stream_is_silent<R, W>(
    state: RelayState<R, W>,
    event: RelayEventView<R, W>,
    stream_key: StreamKey,
)
    requires
        state.well_formed(),
        state.knows(stream_key),
        state.stream(stream_key).closed,
    ensures
        ({
            let (after, actions) = state.step(event);
            &&& packets_for(actions, stream_key).len() == 0
            &&& written_for(actions, stream_key).len() == 0
            &&& after.stream(stream_key) == state.stream(stream_key)
            &&& match event {
                RelayEventView::Inbound(request) => request.stream_key == Some(stream_key)
                    ==> state.inbound(request) == (
                    state,
                    InboundVerdict::Dropped,
                    Seq::<RelayActionView<R, W>>::empty(),
                ),
                _ => true,
            }
        }),
{
    lemma_step(state, event, stream_key);
    lemma_step_writes(state, event, stream_key);
}

/// The request of a stream reaches its destination as it was sent: when
/// the packets of a stream arrive in turn, their bytes, one packet after the
/// other, are written to the destination if the stream has a connection,
/// and are kept behind the bytes kept before if it still waits for one. The
/// request is ended exactly when the last packet ends it.
pub proof fn law_request_written_in_order<R, W>(
    state: RelayState<R, W>,
    stream_key: StreamKey,
    packets: Seq<SequencedPacketView>,
)
    requires
        state.well_formed(),
        state.knows(stream_key),
        !state.stream(stream_key).closed,
        !state.stream(stream_key).inbound_finished,
        in_turn(state.stream(stream_key).accepted as int, packets),
    ensures
        ({
            let before = state.stream(stream_key);
            let (after, actions) = state.run(requests_of(stream_key, packets));
            let stream = after.stream(stream_key);
            let ended = packets.len() > 0 && packets.last().last_data;
            &&& after.well_formed()
            &&& after.knows(stream_key)
            &&& before.connection is Some ==> written_for(actions, stream_key) == payload_of(
                packets,
            ) && stream.backlog.len() == 0
            &&& before.connection is None ==> written_for(actions, stream_key).len() == 0
                && stream.backlog == before.backlog + payload_of(packets) && stream.connection
                is None && !stream.closed
            &&& stream.inbound_finished == ended
            &&& !ended ==> !stream.closed && (stream.connection is Some) == (before.connection
                is Some) && stream.accepted == before.accepted + packets.len()
        }),
    decreases packets.len(),
{
    let events = requests_of::<R, W>(stream_key, packets);
    let start = state.stream(stream_key);
    if packets.len() == 0 {
        assert(written_for(Seq::<RelayActionView<R, W>>::empty(), stream_key) == payload_of(
            packets,
        ));
        assert(start.backlog + payload_of(packets) == start.backlog);
    } else {
        let init = packets.drop_last();
        let packet = packets.last();
        assert(events.drop_last() == requests_of::<R, W>(stream_key, init));
        assert(in_turn(start.accepted as int, init)) by {
            assert forall|i: int| 0 <= i < init.len() implies (#[trigger] init[i]).sequence_number
                == start.accepted + i && (init[i].last_data ==> i == init.len() - 1) by {
                assert(init[i] == packets[i]);
            }
            if init.len() > 0 {
                assert(init.last() == packets[init.len() - 1]);
                assert(packets[init.len() as int].sequence_number == init.last().sequence_number
                    + 1);
            }
        }
        law_request_written_in_order(state, stream_key, init);
        let (before, earlier) = state.run(events.drop_last());
        let stream = before.stream(stream_key);
        if init.len() > 0 {
            assert(init.last() == packets[init.len() - 1]);
        }
        assert(stream.accepts(packet));
        let (after, actions) = before.step(events.last());
        lemma_step(before, events.last(), stream_key);
        lemma_taken_writes(stream, stream_key, packet, stream_key);
        assert(Seq::<RelayActionView<R, W>>::empty() + stream.taken(stream_key, packet).1
            == stream.taken(stream_key, packet).1);
        lemma_written_for_concat(earlier, actions, stream_key);
        lemma_payload_of_push(init, packet);
        assert(init.push(packet) == packets);
        if start.connection is None {
            assert(written_for(earlier, stream_key) + written_for(actions, stream_key)
                == Seq::<u8>::empty());
            assert((start.backlog + payload_of(init)) + packet.data == start.backlog + (
            payload_of(init) + packet.data));
        }
    }
}

/// What was kept is written when the connection is there: when the
/// connector answers with a connection for a stream that waits for one,
/// the bytes that were kept for the stream are written to it, all of them
/// and nothing else, and none is kept any longer.
pub proof fn law_kept_bytes_are_written<R, W>(
    state: RelayState<R, W>,
    stream_key: StreamKey,
    connection: ConnectionInfo<R, W>,
)
    requires
        state.well_formed(),
        state.knows(stream_key),
        state.stream(stream_key).phase() == StreamPhase::Connecting,
    ensures
        ({
            let (after, actions) = state.connected(stream_key, Ok(connection));
            &&& written_for(actions, stream_key) == state.stream(stream_key).backlog
            &&& packets_for(actions, stream_key).len() == 0
            &&& after.stream(stream_key).backlog.len() == 0
            &&& after.resolve(stream_key) == Some(connection)
        }),
{
    let stream = state.stream(stream_key);
    let (after, actions) = state.connected(stream_key, Ok(connection));
    if stream.backlog.len() > 0 {
        lemma_written_for_one(actions[0], stream_key);
        lemma_packets_for_one(actions[0], stream_key);
        assert(actions == seq![actions[0]]);
    } else {
        assert(stream.backlog == Seq::<u8>::empty());
        assert(packets_for(actions, stream_key).len() == 0);
        assert(written_for(actions, stream_key) == Seq::<u8>::empty());
    }
}

/// After the end of a request nothing more is written: once a stream has
/// taken the packet that ends its request and holds no bytes that wait for
/// the connection, no event makes the relay write to its destination, and
/// that stays so.
pub proof fn law_no_write_after_last_data<R, W>(
    state: RelayState<R, W>,
    events: Seq<RelayEventView<R, W>>,
    stream_key: StreamKey,
)
    requires
        state.well_formed(),
        state.stream(stream_key).inbound_finished,
        state.stream(stream_key).backlog.len() == 0,
    ensures
        ({
            let (after, actions) = state.run(events);
            &&& after.well_formed()
            &&& written_for(actions, stream_key).len() == 0
            &&& after.stream(stream_key).inbound_finished
            &&& after.stream(stream_key).backlog.len() == 0
        }),
    decreases events.len(),
{
    if events.len() == 0 {
        assert(written_for(Seq::<RelayActionView<R, W>>::empty(), stream_key).len() == 0);
    } else {
        law_no_write_after_last_data(state, events.drop_last(), stream_key);
        let (before, earlier) = state.run(events.drop_last());
        let (after, actions) = before.step(events.last());
        lemma_step(before, events.last(), stream_key);
        lemma_step_writes(before, events.last(), stream_key);
        lemma_written_for_concat(earlier, actions, stream_key);
    }
}

/// A destination that answers and then closes its side: when bytes are
/// read from the destination of a stream and the end of the data after
/// them, and the stream has numbers left for them, the mesh gets the bytes
/// in packets that do not close the stream, numbered on from the packets
/// sent before, and after them exactly one packet without bytes that closes
/// it. The bytes of the packets, put together, are the bytes that were read.
pub proof fn law_answer_then_end<R, W>(
    state: RelayState<R, W>,
    stream_key: StreamKey,
    data: Seq<u8>,
)
    requires
        state.well_formed(),
        state.knows(stream_key),
        state.stream(stream_key).readable(),
        state.stream(stream_key).emitted + framed(
            data,
            state.stream(stream_key).emitted as int,
            state.max_packet_len as int,
        ).len() <= u64::MAX,
    ensures
        ({
            let first = state.stream(stream_key).emitted;
            let cut = framed(data, first as int, state.max_packet_len as int);
            let (answered, answer) = state.read(stream_key, ReadOutcomeView::Data(data));
            let (ended, end) = answered.read(stream_key, ReadOutcomeView::EndOfData);
            &&& packets_for(answer, stream_key) == cut
            &&& payload_of(cut) == data
            &&& forall|i: int| 0 <= i < cut.len() ==> !(#[trigger] cut[i]).last_data
            &&& packets_for(end, stream_key) == seq![
                terminal_packet((first + cut.len()) as u64),
            ]
            &&& ended.stream(stream_key).terminal_sent
        }),
{
    let stream = state.stream(stream_key);
    let first = stream.emitted;
    let cut = framed(data, first as int, state.max_packet_len as int);
    lemma_framed(data, first as int, state.max_packet_len as int);
    lemma_packets_for_emissions::<R, W>(stream_key, cut, stream_key);
    let (answered, answer) = state.read(stream_key, ReadOutcomeView::Data(data));
    let (ended, end) = answered.read(stream_key, ReadOutcomeView::EndOfData);
    let between = answered.stream(stream_key);
    let closing = RelayActionView::<R, W>::Emit(
        ClientResponsePayloadView {
            stream_key,
            sequenced_packet: terminal_packet(between.emitted),
        },
    );
    lemma_packets_for_one(closing, stream_key);
    if between.inbound_finished {
        let release = seq![
            RelayActionView::<R, W>::Release { stream_key, connection: between.connection->0 },
        ];
        assert(end == seq![closing] + release);
        lemma_packets_for_one(release[0], stream_key);
        lemma_packets_for_concat(seq![closing], release, stream_key);
    } else {
        assert(end == seq![closing]);
    }
}

/// How far a stream has come: 0 for a stream that the relay does not know,
/// then one more for every phase.
pub open spec fn progress<R, W>(state: RelayState<R, W>, stream_key: StreamKey) -> int {
    if !state.knows(stream_key) {
        0
    } else {
        match state.stream(stream_key).phase() {
            StreamPhase::Connecting => 1,
            StreamPhase::Established => 2,
            StreamPhase::HalfClosed(_) => 3,
            StreamPhase::Closed => 4,
        }
    }
}

/// A stream never goes back: whatever reaches the relay, no stream is
/// afterwards in an earlier phase than before, a stream that the relay
/// knows stays known, and a half-closed stream stays closed in the same
/// direction until it is closed altogether.
pub proof fn law_streams_only_advance<R, W>(
    state: RelayState<R, W>,
    event: RelayEventView<R, W>,
    stream_key: StreamKey,
)
    requires
        state.well_formed(),
    ensures
        ({
            let (after, _) = state.step(event);
            &&& progress(after, stream_key) >= progress(state, stream_key)
            &&& progress(state, stream_key) == 3 && progress(after, stream_key) == 3
                ==> after.stream(stream_key).phase() == state.stream(stream_key).phase()
        }),
{
    lemma_step(state, event, stream_key);
}

/// Streams do not touch each other: an event that is about one stream
/// leaves every other stream as it is, hands nothing to the mesh for it and
/// writes nothing to its destination.
pub proof fn law_streams_are_isolated<R, W>(
    state: RelayState<R, W>,
    event: RelayEventView<R, W>,
    other: StreamKey,
)
    requires
        state.well_formed(),
        subject(event) != Some(other),
    ensures
        ({
            let (after, actions) = state.step(event);
            &&& after.knows(other) == state.knows(other)
            &&& after.stream(other) == state.stream(other)
            &&& packets_for(actions, other).len() == 0
            &&& written_for(actions, other).len() == 0
        }),
{
    lemma_step(state, event, other);
    lemma_step_writes(state, event, other);
}

/// A stream holds a connection exactly while it is established or half
/// closed: in every state that the relay can reach, a stream resolves to a
/// connection in these phases and in no other, and a stream both of whose
/// directions have ended is closed.
pub proof fn law_connection_is_held_while_open<R, W>(
    max_packet_len: usize,
    events: Seq<RelayEventView<R, W>>,
    stream_key: StreamKey,
)
    requires
        max_packet_len > 0,
    ensures
        ({
            let (state, _) = RelayState::<R, W>::empty(max_packet_len).run(events);
            let stream = state.stream(stream_key);
            &&& state.resolve(stream_key) is Some <==> progress(state, stream_key) == 2
                || progress(state, stream_key) == 3
            &&& stream.inbound_finished && stream.terminal_sent ==> stream.closed
        }),
{
    lemma_run(RelayState::<R, W>::empty(max_packet_len), events, stream_key);
}

} // verus!
