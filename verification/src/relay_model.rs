//! The relay as mathematics: the state of each stream, what reaches the
//! relay, and what the relay answers.
//!
//! A stream is unknown until the mesh first names it. It is then
//! `Connecting` until the connector answers, `Established` while both
//! directions are open, `HalfClosed` once one direction has ended, and
//! `Closed` when both have, when the stream has failed, or when it was
//! cancelled. A closed stream stays known, so that late traffic for it is
//! recognised and dropped.
//!
//! The response of a stream ends with a packet of its own that carries no
//! bytes: bytes that were read never travel in the closing packet. A stream
//! that fails is closed in the same way, with the number that its next
//! packet would have had, unless its response has ended before. A stream
//! that was cancelled gets no closing packet.
//!
//! Packet numbers are 64 bits wide. A request packet with the largest
//! number is taken only if it ends the request, and a stream whose response
//! has no numbers left for the bytes that were read, and for the closing
//! packet after them, fails.
use crate::net::{Async, IoError};
use crate::proxy_client::ClientResponsePayloadView;
use crate::sequenced_packet::{framed, terminal_packet, SequencedPacketView};
use crate::stream_connector::ConnectionInfo;
use crate::stream_key::StreamKey;
use vstd::prelude::*;

verus! {

/// One of the two directions of a stream.
#[derive(Clone, Copy, Debug, PartialEq, Eq, Structural)]
pub enum Direction {
    /// From the mesh to the destination: the request.
    Inbound,
    /// From the destination to the mesh: the response.
    Outbound,
}

/// Where a known stream stands.
#[derive(Clone, Copy, Debug, PartialEq, Eq, Structural)]
pub enum StreamPhase {
    /// A connection has been asked for and the answer is not in.
    Connecting,
    /// The connection is up and both directions are open.
    Established,
    /// The connection is up and the named direction has ended.
    HalfClosed(Direction),
    /// The stream is over and holds no connection.
    Closed,
}

/// What became of a request from the mesh.
#[derive(Clone, Copy, Debug, PartialEq, Eq, Structural)]
pub enum InboundVerdict {
    /// The request was taken.
    Accepted,
    /// The request was for a stream that is closed; nothing was done.
    Dropped,
    /// The request named no stream; nothing was done.
    MissingStreamKey,
    /// The request was the first of its stream and named no destination; the
    /// stream was closed.
    MissingDestination,
    /// The packet of the request was not the next one of its stream; the
    /// stream was closed.
    SequenceViolation,
}

/// The host and port that a new stream is to be connected to.
pub struct DestinationView {
    pub hostname: Seq<char>,
    pub port: u16,
}

/// A request as the mesh delivers it.
pub struct MeshRequestView {
    pub stream_key: Option<StreamKey>,
    pub sequenced_packet: Option<SequencedPacketView>,
    pub target: Option<DestinationView>,
}

/// What an attempt to read from a destination gave.
pub enum ReadOutcomeView {
    NotReady,
    Data(Seq<u8>),
    EndOfData,
    Failed(IoError),
}

/// What a poll of a reader says about its stream: `result` is what the
/// poll returned, and `buf` the buffer that it had to fill. No byte read
/// means that the destination has closed its side.
pub open spec fn read_outcome(result: Result<Async, IoError>, buf: Seq<u8>) -> ReadOutcomeView {
    match result {
        Ok(Async::Ready(n)) => if n == 0 {
            ReadOutcomeView::EndOfData
        } else {
            ReadOutcomeView::Data(buf.take(n as int))
        },
        Ok(Async::NotReady) => ReadOutcomeView::NotReady,
        Err(error) => ReadOutcomeView::Failed(error),
    }
}

/// The result of an attempt to read from the destination of one stream.
pub struct StreamReadView {
    pub stream_key: StreamKey,
    pub outcome: ReadOutcomeView,
}

/// What the relay asks of its caller.
pub enum RelayActionView<R, W> {
    /// Open a connection to `target` and report the result for `stream_key`.
    Connect { stream_key: StreamKey, target: DestinationView },
    /// Write `data` to the destination of `stream_key`, after all that was
    /// to be written before.
    Write { stream_key: StreamKey, data: Seq<u8> },
    /// Hand the envelope to the mesh.
    Emit(ClientResponsePayloadView),
    /// Close both halves of `connection`, which backed `stream_key`.
    Release { stream_key: StreamKey, connection: ConnectionInfo<R, W> },
}

/// Anything that can reach the relay.
pub enum RelayEventView<R, W> {
    /// The mesh delivered a request.
    Inbound(MeshRequestView),
    /// The connector answered for a stream.
    Connected(StreamKey, Result<ConnectionInfo<R, W>, IoError>),
    /// An attempt to read from the destination of a stream ended.
    Read(StreamReadView),
    /// A write to the destination of a stream failed.
    WriteFailed(StreamKey),
    /// A stream was cancelled from outside.
    Cancelled(StreamKey),
}

/// The envelopes that carry `packets` for the stream `stream_key`, in order.
pub open spec fn emissions<R, W>(stream_key: StreamKey, packets: Seq<SequencedPacketView>) -> Seq<
    RelayActionView<R, W>,
> {
    Seq::new(
        packets.len(),
        |i: int|
            RelayActionView::Emit(
                ClientResponsePayloadView { stream_key, sequenced_packet: packets[i] },
            ),
    )
}

/// What the relay knows of one stream.
pub struct StreamState<R, W> {
    /// The number of request packets taken, which is the number that the
    /// next one must bear.
    pub accepted: u64,
    /// Whether the request packet with `last_data` has been taken.
    pub inbound_finished: bool,
    /// The number of response packets with data handed to the mesh, which
    /// is the number that the next response packet will bear.
    pub emitted: u64,
    /// Whether the response packet with `last_data` has been handed to the
    /// mesh.
    pub terminal_sent: bool,
    /// Request bytes taken while no connection was there to write them to.
    pub backlog: Seq<u8>,
    /// The connection, while the stream has one.
    pub connection: Option<ConnectionInfo<R, W>>,
    /// Whether the stream is over.
    pub closed: bool,
}

impl<R, W> StreamState<R, W> {
    /// A stream of which nothing has been seen yet.
    pub open spec fn fresh() -> Self {
        StreamState {
            accepted: 0,
            inbound_finished: false,
            emitted: 0,
            terminal_sent: false,
            backlog: Seq::empty(),
            connection: None,
            closed: false,
        }
    }

    /// What holds of every stream that the relay knows: a closed stream
    /// holds neither a connection nor a backlog; a stream with a connection
    /// has no backlog and at least one open direction; a stream that waits
    /// for its connection has not sent anything to the mesh.
    pub open spec fn well_formed(self) -> bool {
        &&& self.closed ==> self.connection is None && self.backlog.len() == 0
        &&& self.connection is Some ==> self.backlog.len() == 0 && !(self.inbound_finished
            && self.terminal_sent)
        &&& !self.closed && self.connection is None ==> !self.terminal_sent && self.emitted == 0
    }

    pub open spec fn phase(self) -> StreamPhase {
        if self.closed {
            StreamPhase::Closed
        } else if self.connection is None {
            StreamPhase::Connecting
        } else if self.inbound_finished {
            StreamPhase::HalfClosed(Direction::Inbound)
        } else if self.terminal_sent {
            StreamPhase::HalfClosed(Direction::Outbound)
        } else {
            StreamPhase::Established
        }
    }

    /// Whether the destination may still have bytes for the mesh.
    pub open spec fn readable(self) -> bool {
        self.connection is Some && !self.terminal_sent
    }

    /// Whether `packet` is the next request packet of the stream: the request
    /// has not ended, the packet bears the next number, and, unless it ends
    /// the request, a number exists for a packet after it.
    pub open spec fn accepts(self, packet: SequencedPacketView) -> bool {
        &&& !self.inbound_finished
        &&& packet.sequence_number == self.accepted
        &&& (packet.last_data || packet.sequence_number < u64::MAX)
    }

    /// The end of a stream that failed: the mesh gets the closing packet
    /// unless it has it already, the connection, if there is one, is
    /// released, and the stream is closed.
    pub open spec fn torn_down(self, stream_key: StreamKey) -> (Self, Seq<RelayActionView<R, W>>) {
        let emit = if self.terminal_sent {
            Seq::empty()
        } else {
            seq![
                RelayActionView::Emit(
                    ClientResponsePayloadView {
                        stream_key,
                        sequenced_packet: terminal_packet(self.emitted),
                    },
                ),
            ]
        };
        let release = match self.connection {
            Some(connection) => seq![RelayActionView::Release { stream_key, connection }],
            None => Seq::empty(),
        };
        (
            StreamState {
                terminal_sent: true,
                backlog: Seq::empty(),
                connection: None,
                closed: true,
                ..self
            },
            emit + release,
        )
    }

    /// The end of a stream that was cancelled: the connection, if there is
    /// one, is released, the stream is closed, and the mesh gets nothing.
    pub open spec fn cancelled(self, stream_key: StreamKey) -> (Self, Seq<RelayActionView<R, W>>) {
        let release = match self.connection {
            Some(connection) => seq![RelayActionView::Release { stream_key, connection }],
            None => Seq::empty(),
        };
        (StreamState { backlog: Seq::empty(), connection: None, closed: true, ..self }, release)
    }

    /// The stream after it took `packet`, which it accepts. With a
    /// connection the bytes are written at once, without one they join the
    /// backlog. When the packet ends the request and the response has ended
    /// before, the stream is closed and its connection released.
    pub open spec fn taken(self, stream_key: StreamKey, packet: SequencedPacketView) -> (
        Self,
        Seq<RelayActionView<R, W>>,
    ) {
        let counted = StreamState {
            accepted: if self.accepted < u64::MAX {
                (self.accepted + 1) as u64
            } else {
                self.accepted
            },
            inbound_finished: packet.last_data,
            ..self
        };
        match self.connection {
            None => (StreamState { backlog: self.backlog + packet.data, ..counted }, Seq::empty()),
            Some(connection) => {
                let write = if packet.data.len() > 0 {
                    seq![RelayActionView::Write { stream_key, data: packet.data }]
                } else {
                    Seq::empty()
                };
                if packet.last_data && self.terminal_sent {
                    (
                        StreamState { connection: None, closed: true, ..counted },
                        write + seq![RelayActionView::Release { stream_key, connection }],
                    )
                } else {
                    (counted, write)
                }
            },
        }
    }

    /// The stream after its connection came up: the backlog, if there is
    /// any, is written.
    pub open spec fn opened(self, stream_key: StreamKey, connection: ConnectionInfo<R, W>) -> (
        Self,
        Seq<RelayActionView<R, W>>,
    ) {
        (
            StreamState { backlog: Seq::empty(), connection: Some(connection), ..self },
            if self.backlog.len() > 0 {
                seq![RelayActionView::Write { stream_key, data: self.backlog }]
            } else {
                Seq::empty()
            },
        )
    }

    /// The stream after `data` was read from its destination: the bytes go
    /// to the mesh in packets of at most `max_packet_len` bytes, numbered on
    /// from the last one. A stream that has not enough numbers left for
    /// them, and for the closing packet after them, fails.
    pub open spec fn data_read(self, stream_key: StreamKey, data: Seq<u8>, max_packet_len: usize) -> (
        Self,
        Seq<RelayActionView<R, W>>,
    ) {
        let packets = framed(data, self.emitted as int, max_packet_len as int);
        if self.emitted + packets.len() <= u64::MAX {
            (
                StreamState { emitted: (self.emitted + packets.len()) as u64, ..self },
                emissions(stream_key, packets),
            )
        } else {
            self.torn_down(stream_key)
        }
    }

    /// The stream after its destination had no more bytes: the mesh gets the
    /// closing packet. When the request has ended before, the stream is
    /// closed and its connection released.
    pub open spec fn end_of_data(self, stream_key: StreamKey) -> (
        Self,
        Seq<RelayActionView<R, W>>,
    ) {
        if self.inbound_finished {
            self.torn_down(stream_key)
        } else {
            (
                StreamState { terminal_sent: true, ..self },
                seq![
                    RelayActionView::Emit(
                        ClientResponsePayloadView {
                            stream_key,
                            sequenced_packet: terminal_packet(self.emitted),
                        },
                    ),
                ],
            )
        }
    }
}

/// The relay as a mathematical value: the streams that it knows, and the
/// most bytes that it puts into one response packet.
pub struct RelayState<R, W> {
    pub streams: Map<StreamKey, StreamState<R, W>>,
    pub max_packet_len: usize,
}

impl<R, W> RelayState<R, W> {
    /// The relay that knows no stream.
    pub open spec fn empty(max_packet_len: usize) -> Self {
        RelayState { streams: Map::empty(), max_packet_len }
    }

    pub open spec fn well_formed(self) -> bool {
        &&& self.max_packet_len > 0
        &&& forall|k: StreamKey| #[trigger]
            self.streams.dom().contains(k) ==> self.streams[k].well_formed()
    }

    pub open spec fn knows(self, stream_key: StreamKey) -> bool {
        self.streams.dom().contains(stream_key)
    }

    /// The state of `stream_key`; that of a fresh stream if the relay does
    /// not know it.
    pub open spec fn stream(self, stream_key: StreamKey) -> StreamState<R, W> {
        if self.knows(stream_key) {
            self.streams[stream_key]
        } else {
            StreamState::fresh()
        }
    }

    /// The relay with `stream_key` in the state `stream`.
    pub open spec fn with(self, stream_key: StreamKey, stream: StreamState<R, W>) -> Self {
        RelayState { streams: self.streams.insert(stream_key, stream), ..self }
    }

    /// The connection that `stream_key` resolves to.
    pub open spec fn resolve(self, stream_key: StreamKey) -> Option<ConnectionInfo<R, W>> {
        self.stream(stream_key).connection
    }

    /// A request from the mesh.
    ///
    /// A request without a stream key is refused. A request for a closed
    /// stream is dropped. A packet that the stream does not accept, and a
    /// first request without a destination, make the stream fail. Any other
    /// request is taken: for a stream not known before, a connection is asked
    /// for, and the packet, if there is one, is taken by the stream.
    pub open spec fn inbound(self, request: MeshRequestView) -> (
        Self,
        InboundVerdict,
        Seq<RelayActionView<R, W>>,
    ) {
        match request.stream_key {
            None => (self, InboundVerdict::MissingStreamKey, Seq::empty()),
            Some(k) => {
                let stream = self.stream(k);
                if stream.closed {
                    (self, InboundVerdict::Dropped, Seq::empty())
                } else if request.sequenced_packet is Some && !stream.accepts(
                    request.sequenced_packet->0,
                ) {
                    let (after, actions) = stream.torn_down(k);
                    (self.with(k, after), InboundVerdict::SequenceViolation, actions)
                } else if !self.knows(k) && request.target is None {
                    let (after, actions) = stream.torn_down(k);
                    (self.with(k, after), InboundVerdict::MissingDestination, actions)
                } else {
                    let connect = if self.knows(k) {
                        Seq::empty()
                    } else {
                        seq![RelayActionView::Connect { stream_key: k, target: request.target->0 }]
                    };
                    match request.sequenced_packet {
                        Some(packet) => {
                            let (after, actions) = stream.taken(k, packet);
                            (self.with(k, after), InboundVerdict::Accepted, connect + actions)
                        },
                        None => (self.with(k, stream), InboundVerdict::Accepted, connect),
                    }
                }
            },
        }
    }

    /// The answer of the connector for `stream_key`.
    ///
    /// For a stream that waits for it, a connection opens the stream and a
    /// failure makes it fail. For any other stream nothing changes, and a
    /// connection that came for it is released at once.
    pub open spec fn connected(
        self,
        stream_key: StreamKey,
        result: Result<ConnectionInfo<R, W>, IoError>,
    ) -> (Self, Seq<RelayActionView<R, W>>) {
        let stream = self.stream(stream_key);
        if self.knows(stream_key) && stream.phase() == StreamPhase::Connecting {
            let (after, actions) = match result {
                Ok(connection) => stream.opened(stream_key, connection),
                Err(_) => stream.torn_down(stream_key),
            };
            (self.with(stream_key, after), actions)
        } else {
            match result {
                Ok(connection) => (self, seq![RelayActionView::Release { stream_key, connection }]),
                Err(_) => (self, Seq::empty()),
            }
        }
    }

    /// The result of an attempt to read from the destination of
    /// `stream_key`.
    ///
    /// It counts only for a stream with a connection whose response has not
    /// ended. There, data goes to the mesh, the end of the data ends the
    /// response, a failure makes the stream fail, and `NotReady` changes
    /// nothing.
    pub open spec fn read(self, stream_key: StreamKey, outcome: ReadOutcomeView) -> (
        Self,
        Seq<RelayActionView<R, W>>,
    ) {
        let stream = self.stream(stream_key);
        if self.knows(stream_key) && stream.readable() {
            match outcome {
                ReadOutcomeView::NotReady => (self, Seq::empty()),
                ReadOutcomeView::Data(data) => {
                    let (after, actions) = stream.data_read(stream_key, data, self.max_packet_len);
                    (self.with(stream_key, after), actions)
                },
                ReadOutcomeView::EndOfData => {
                    let (after, actions) = stream.end_of_data(stream_key);
                    (self.with(stream_key, after), actions)
                },
                ReadOutcomeView::Failed(_) => {
                    let (after, actions) = stream.torn_down(stream_key);
                    (self.with(stream_key, after), actions)
                },
            }
        } else {
            (self, Seq::empty())
        }
    }

    /// The relay after `event`, and what it asks for.
    pub open spec fn step(self, event: RelayEventView<R, W>) -> (Self, Seq<RelayActionView<R, W>>) {
        match event {
            RelayEventView::Inbound(request) => {
                let (after, _, actions) = self.inbound(request);
                (after, actions)
            },
            RelayEventView::Connected(stream_key, result) => self.connected(stream_key, result),
            RelayEventView::Read(read) => self.read(read.stream_key, read.outcome),
            RelayEventView::WriteFailed(stream_key) => self.write_failed(stream_key),
            RelayEventView::Cancelled(stream_key) => self.cancelled(stream_key),
        }
    }

    /// The relay after `events`, one after the other, and all that it asked
    /// for on the way.
    pub open spec fn run(self, events: Seq<RelayEventView<R, W>>) -> (
        Self,
        Seq<RelayActionView<R, W>>,
    )
        decreases events.len(),
    {
        if events.len() == 0 {
            (self, Seq::empty())
        } else {
            let (before, earlier) = self.run(events.drop_last());
            let (after, actions) = before.step(events.last());
            (after, earlier + actions)
        }
    }

    /// One round of reads: each result is taken in its turn, by the relay
    /// as the results before it left it.
    pub open spec fn polled(self, reads: Seq<StreamReadView>) -> (Self, Seq<RelayActionView<R, W>>)
        decreases reads.len(),
    {
        if reads.len() == 0 {
            (self, Seq::empty())
        } else {
            let (next, first) = self.read(reads[0].stream_key, reads[0].outcome);
            let (last, rest) = next.polled(reads.skip(1));
            (last, first + rest)
        }
    }

    /// A write to the destination of `stream_key` failed: a stream with a
    /// connection fails, any other is left as it is.
    pub open spec fn write_failed(self, stream_key: StreamKey) -> (
        Self,
        Seq<RelayActionView<R, W>>,
    ) {
        let stream = self.stream(stream_key);
        if self.knows(stream_key) && stream.connection is Some {
            let (after, actions) = stream.torn_down(stream_key);
            (self.with(stream_key, after), actions)
        } else {
            (self, Seq::empty())
        }
    }

    /// The stream `stream_key` is cancelled from outside: a known stream
    /// that is not closed is closed without a word to the mesh.
    pub open spec fn cancelled(self, stream_key: StreamKey) -> (Self, Seq<RelayActionView<R, W>>) {
        let stream = self.stream(stream_key);
        if self.knows(stream_key) && !stream.closed {
            let (after, actions) = stream.cancelled(stream_key);
            (self.with(stream_key, after), actions)
        } else {
            (self, Seq::empty())
        }
    }
}

} // verus!
