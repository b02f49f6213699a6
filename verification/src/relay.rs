//! The relay: it maps stream keys to connections, takes what the mesh and the
//! destinations deliver, and says what is to be written, connected, handed
//! to the mesh and released.
use crate::net::{Async, IoError};
use crate::proxy_client::{ClientResponsePayload, ClientResponsePayloadView};
use crate::relay_model::{
    emissions, read_outcome, DestinationView, Direction, InboundVerdict, MeshRequestView,
    ReadOutcomeView, RelayActionView, RelayEventView, RelayState, StreamPhase, StreamReadView,
    StreamState,
};
use crate::sequenced_packet::{frame, framed, SequencedPacket};
use crate::stream_connector::ConnectionInfo;
use crate::stream_key::StreamKey;
use vstd::prelude::*;
use vstd::slice::{slice_subrange, slice_to_vec};

verus! {

/// The host and port that a new stream is to be connected to.
#[derive(Debug, PartialEq, Eq)]
pub struct Destination {
    pub hostname: String,
    pub port: u16,
}

impl Clone for Destination {
    fn clone(&self) -> (copy: Self)
        ensures
            copy@ == self@,
    {
        Destination { hostname: self.hostname.clone(), port: self.port }
    }
}

impl View for Destination {
    type V = DestinationView;

    open spec fn view(&self) -> DestinationView {
        DestinationView { hostname: self.hostname@, port: self.port }
    }
}

/// A request as the mesh delivers it, decrypted: the stream it belongs to,
/// the next packet of the request, and, with the first request of a stream,
/// where to connect.
#[derive(Debug, PartialEq, Eq)]
pub struct MeshRequest {
    pub stream_key: Option<StreamKey>,
    pub sequenced_packet: Option<SequencedPacket>,
    pub target: Option<Destination>,
}

impl View for MeshRequest {
    type V = MeshRequestView;

    open spec fn view(&self) -> MeshRequestView {
        MeshRequestView {
            stream_key: self.stream_key,
            sequenced_packet: match self.sequenced_packet {
                Some(packet) => Some(packet@),
                None => None,
            },
            target: match self.target {
                Some(target) => Some(target@),
                None => None,
            },
        }
    }
}

/// What an attempt to read from a destination gave.
#[derive(Debug, PartialEq, Eq)]
pub enum ReadOutcome {
    /// Nothing was there to read.
    NotReady,
    /// These bytes were read.
    Data(Vec<u8>),
    /// The destination has closed its side.
    EndOfData,
    /// The connection is broken.
    Failed(IoError),
}

impl View for ReadOutcome {
    type V = ReadOutcomeView;

    open spec fn view(&self) -> ReadOutcomeView {
        match self {
            ReadOutcome::NotReady => ReadOutcomeView::NotReady,
            ReadOutcome::Data(data) => ReadOutcomeView::Data(data@),
            ReadOutcome::EndOfData => ReadOutcomeView::EndOfData,
            ReadOutcome::Failed(error) => ReadOutcomeView::Failed(*error),
        }
    }
}

impl ReadOutcome {
    /// Reads what a poll of a reader says: `result` is what the poll
    /// returned, and `buf` the buffer that it had to fill.
    pub fn from_poll(result: Result<Async, IoError>, buf: &[u8]) -> (outcome: ReadOutcome)
        requires
            result matches Ok(Async::Ready(n)) ==> n <= buf@.len(),
        ensures
            outcome@ == read_outcome(result, buf@),
    {
        match result {
            Ok(Async::Ready(n)) => {
                if n == 0 {
                    ReadOutcome::EndOfData
                } else {
                    ReadOutcome::Data(slice_to_vec(slice_subrange(buf, 0, n)))
                }
            },
            Ok(Async::NotReady) => ReadOutcome::NotReady,
            Err(error) => ReadOutcome::Failed(error),
        }
    }
}

/// The result of an attempt to read from the destination of one stream.
#[derive(Debug, PartialEq, Eq)]
pub struct StreamRead {
    pub stream_key: StreamKey,
    pub outcome: ReadOutcome,
}

impl View for StreamRead {
    type V = StreamReadView;

    open spec fn view(&self) -> StreamReadView {
        StreamReadView { stream_key: self.stream_key, outcome: self.outcome@ }
    }
}

impl DeepView for StreamRead {
    type V = StreamReadView;

    open spec fn deep_view(&self) -> StreamReadView {
        self@
    }
}

/// Anything that can reach the relay.
#[derive(Debug, PartialEq, Eq)]
pub enum RelayEvent<R, W> {
    /// The mesh delivered a request.
    Inbound(MeshRequest),
    /// The connector answered for a stream.
    Connected(StreamKey, Result<ConnectionInfo<R, W>, IoError>),
    /// An attempt to read from the destination of a stream ended.
    Read(StreamRead),
    /// A write to the destination of a stream failed.
    WriteFailed(StreamKey),
    /// A stream was cancelled from outside.
    Cancelled(StreamKey),
}

impl<R, W> View for RelayEvent<R, W> {
    type V = RelayEventView<R, W>;

    open spec fn view(&self) -> RelayEventView<R, W> {
        match self {
            RelayEvent::Inbound(request) => RelayEventView::Inbound(request@),
            RelayEvent::Connected(stream_key, result) => RelayEventView::Connected(
                *stream_key,
                *result,
            ),
            RelayEvent::Read(read) => RelayEventView::Read(read@),
            RelayEvent::WriteFailed(stream_key) => RelayEventView::WriteFailed(*stream_key),
            RelayEvent::Cancelled(stream_key) => RelayEventView::Cancelled(*stream_key),
        }
    }
}

/// What the relay asks of its caller. The actions of one list are carried
/// out in the order of the list.
#[derive(Debug, PartialEq, Eq)]
pub enum RelayAction<R, W> {
    /// Open a connection to `target` and report the result for `stream_key`.
    Connect { stream_key: StreamKey, target: Destination },
    /// Write `data` to the destination of `stream_key`, after all that was
    /// to be written before.
    Write { stream_key: StreamKey, data: Vec<u8> },
    /// Hand the envelope to the mesh.
    Emit(ClientResponsePayload),
    /// Close both halves of `connection`, which backed `stream_key`.
    Release { stream_key: StreamKey, connection: ConnectionInfo<R, W> },
}

impl<R, W> View for RelayAction<R, W> {
    type V = RelayActionView<R, W>;

    open spec fn view(&self) -> RelayActionView<R, W> {
        match self {
            RelayAction::Connect { stream_key, target } => RelayActionView::Connect {
                stream_key: *stream_key,
                target: target@,
            },
            RelayAction::Write { stream_key, data } => RelayActionView::Write {
                stream_key: *stream_key,
                data: data@,
            },
            RelayAction::Emit(payload) => RelayActionView::Emit(payload@),
            RelayAction::Release { stream_key, connection } => RelayActionView::Release {
                stream_key: *stream_key,
                connection: *connection,
            },
        }
    }
}

impl<R, W> DeepView for RelayAction<R, W> {
    type V = RelayActionView<R, W>;

    open spec fn deep_view(&self) -> RelayActionView<R, W> {
        self@
    }
}

/// What became of a request, and what is to be done about it.
#[derive(Debug, PartialEq, Eq)]
pub struct InboundOutcome<R, W> {
    pub verdict: InboundVerdict,
    pub actions: Vec<RelayAction<R, W>>,
}

/// Adds `action` to the end of `actions`.
fn push_action<R, W>(actions: &mut Vec<RelayAction<R, W>>, action: RelayAction<R, W>)
    ensures
        final(actions).deep_view() == old(actions).deep_view() + seq![action@],
{
    let ghost before = actions.deep_view();
    actions.push(action);
    assert(actions.deep_view() == before + seq![action@]);
}

/// What the relay holds of one stream.
struct StreamRecord<R, W> {
    stream_key: StreamKey,
    accepted: u64,
    inbound_finished: bool,
    emitted: u64,
    terminal_sent: bool,
    backlog: Vec<u8>,
    connection: Option<ConnectionInfo<R, W>>,
    closed: bool,
}

impl<R, W> StreamRecord<R, W> {
    spec fn state(self) -> StreamState<R, W> {
        StreamState {
            accepted: self.accepted,
            inbound_finished: self.inbound_finished,
            emitted: self.emitted,
            terminal_sent: self.terminal_sent,
            backlog: self.backlog@,
            connection: self.connection,
            closed: self.closed,
        }
    }

    fn fresh(stream_key: StreamKey) -> (record: Self)
        ensures
            record.stream_key == stream_key,
            record.state() == StreamState::<R, W>::fresh(),
    {
        StreamRecord {
            stream_key,
            accepted: 0,
            inbound_finished: false,
            emitted: 0,
            terminal_sent: false,
            backlog: Vec::new(),
            connection: None,
            closed: false,
        }
    }

    fn phase(&self) -> (phase: StreamPhase)
        ensures
            phase == self.state().phase(),
    {
        if self.closed {
            StreamPhase::Closed
        } else if self.connection.is_none() {
            StreamPhase::Connecting
        } else if self.inbound_finished {
            StreamPhase::HalfClosed(Direction::Inbound)
        } else if self.terminal_sent {
            StreamPhase::HalfClosed(Direction::Outbound)
        } else {
            StreamPhase::Established
        }
    }

    fn accepts(&self, packet: &SequencedPacket) -> (yes: bool)
        ensures
            yes == self.state().accepts(packet@),
    {
        !self.inbound_finished && packet.sequence_number == self.accepted && (packet.last_data
            || packet.sequence_number < u64::MAX)
    }

    fn torn_down(self, actions: &mut Vec<RelayAction<R, W>>) -> (after: Self)
        ensures
            after.stream_key == self.stream_key,
            after.state() == self.state().torn_down(self.stream_key).0,
            final(actions).deep_view() == old(actions).deep_view() + self.state().torn_down(
                self.stream_key,
            ).1,
    {
        let ghost before = actions.deep_view();
        let StreamRecord {
            stream_key,
            accepted,
            inbound_finished,
            emitted,
            terminal_sent,
            backlog: _,
            connection,
            closed: _,
        } = self;
        if !terminal_sent {
            push_action(
                actions,
                RelayAction::Emit(
                    ClientResponsePayload {
                        stream_key,
                        sequenced_packet: SequencedPacket::terminal(emitted),
                    },
                ),
            );
        }
        match connection {
            Some(connection) => {
                push_action(actions, RelayAction::Release { stream_key, connection });
            },
            None => {},
        }
        proof {
            assert(actions.deep_view() == before + self.state().torn_down(self.stream_key).1);
        }
        StreamRecord {
            stream_key,
            accepted,
            inbound_finished,
            emitted,
            terminal_sent: true,
            backlog: Vec::new(),
            connection: None,
            closed: true,
        }
    }

    fn cancelled(self, actions: &mut Vec<RelayAction<R, W>>) -> (after: Self)
        ensures
            after.stream_key == self.stream_key,
            after.state() == self.state().cancelled(self.stream_key).0,
            final(actions).deep_view() == old(actions).deep_view() + self.state().cancelled(
                self.stream_key,
            ).1,
    {
        let ghost before = actions.deep_view();
        let StreamRecord {
            stream_key,
            accepted,
            inbound_finished,
            emitted,
            terminal_sent,
            backlog: _,
            connection,
            closed: _,
        } = self;
        match connection {
            Some(connection) => {
                push_action(actions, RelayAction::Release { stream_key, connection });
            },
            None => {},
        }
        proof {
            assert(actions.deep_view() == before + self.state().cancelled(self.stream_key).1);
        }
        StreamRecord {
            stream_key,
            accepted,
            inbound_finished,
            emitted,
            terminal_sent,
            backlog: Vec::new(),
            connection: None,
            closed: true,
        }
    }

    fn taken(self, packet: SequencedPacket, actions: &mut Vec<RelayAction<R, W>>) -> (after: Self)
        requires
            self.state().accepts(packet@),
        ensures
            after.stream_key == self.stream_key,
            after.state() == self.state().taken(self.stream_key, packet@).0,
            final(actions).deep_view() == old(actions).deep_view() + self.state().taken(
                self.stream_key,
                packet@,
            ).1,
    {
        let ghost before = actions.deep_view();
        let StreamRecord {
            stream_key,
            accepted,
            inbound_finished: _,
            emitted,
            terminal_sent,
            mut backlog,
            connection,
            closed,
        } = self;
        let SequencedPacket { mut data, sequence_number: _, last_data } = packet;
        let accepted = if accepted < u64::MAX {
            accepted + 1
        } else {
            accepted
        };
        match connection {
            None => {
                backlog.append(&mut data);
                proof {
                    assert(actions.deep_view() == before + self.state().taken(
                        self.stream_key,
                        packet@,
                    ).1);
                }
                StreamRecord {
                    stream_key,
                    accepted,
                    inbound_finished: last_data,
                    emitted,
                    terminal_sent,
                    backlog,
                    connection: None,
                    closed,
                }
            },
            Some(connection) => {
                if data.len() > 0 {
                    push_action(actions, RelayAction::Write { stream_key, data });
                }
                if last_data && terminal_sent {
                    push_action(actions, RelayAction::Release { stream_key, connection });
                    proof {
                        assert(actions.deep_view() == before + self.state().taken(
                            self.stream_key,
                            packet@,
                        ).1);
                    }
                    StreamRecord {
                        stream_key,
                        accepted,
                        inbound_finished: last_data,
                        emitted,
                        terminal_sent,
                        backlog,
                        connection: None,
                        closed: true,
                    }
                } else {
                    proof {
                        assert(actions.deep_view() == before + self.state().taken(
                            self.stream_key,
                            packet@,
                        ).1);
                    }
                    StreamRecord {
                        stream_key,
                        accepted,
                        inbound_finished: last_data,
                        emitted,
                        terminal_sent,
                        backlog,
                        connection: Some(connection),
                        closed,
                    }
                }
            },
        }
    }

    fn opened(self, connection: ConnectionInfo<R, W>, actions: &mut Vec<RelayAction<R, W>>) -> (after:
        Self)
        ensures
            after.stream_key == self.stream_key,
            after.state() == self.state().opened(self.stream_key, connection).0,
            final(actions).deep_view() == old(actions).deep_view() + self.state().opened(
                self.stream_key,
                connection,
            ).1,
    {
        let ghost before = actions.deep_view();
        let StreamRecord {
            stream_key,
            accepted,
            inbound_finished,
            emitted,
            terminal_sent,
            backlog,
            connection: _,
            closed,
        } = self;
        if backlog.len() > 0 {
            push_action(actions, RelayAction::Write { stream_key, data: backlog });
        }
        proof {
            assert(actions.deep_view() == before + self.state().opened(
                self.stream_key,
                connection,
            ).1);
        }
        StreamRecord {
            stream_key,
            accepted,
            inbound_finished,
            emitted,
            terminal_sent,
            backlog: Vec::new(),
            connection: Some(connection),
            closed,
        }
    }

    fn data_read(
        self,
        data: Vec<u8>,
        max_packet_len: usize,
        actions: &mut Vec<RelayAction<R, W>>,
    ) -> (after: Self)
        requires
            max_packet_len > 0,
        ensures
            after.stream_key == self.stream_key,
            after.state() == self.state().data_read(self.stream_key, data@, max_packet_len).0,
            final(actions).deep_view() == old(actions).deep_view() + self.state().data_read(
                self.stream_key,
                data@,
                max_packet_len,
            ).1,
    {
        match frame(&data, self.emitted, max_packet_len) {
            None => self.torn_down(actions),
            Some(packets) => {
                let ghost before = actions.deep_view();
                let ghost cut = framed(data@, self.emitted as int, max_packet_len as int);
                let ghost all = packets@;
                let count = packets.len();
                let stream_key = self.stream_key;
                assert(packets.deep_view().len() == count);
                for packet in iter: packets
                    invariant
                        iter.seq() == all,
                        all.len() == cut.len(),
                        forall|i: int| 0 <= i < all.len() ==> (#[trigger] all[i])@ == cut[i],
                        actions.deep_view() == before + emissions::<R, W>(
                            stream_key,
                            cut.take(iter.index() as int),
                        ),
                {
                    let ghost sent = actions.deep_view();
                    push_action(
                        actions,
                        RelayAction::Emit(
                            ClientResponsePayload { stream_key, sequenced_packet: packet },
                        ),
                    );
                    proof {
                        let i = iter.index() as int;
                        assert(packet == all[i]);
                        assert(emissions::<R, W>(stream_key, cut.take(i + 1)) == emissions::<R, W>(
                            stream_key,
                            cut.take(i),
                        ) + seq![
                            RelayActionView::Emit(
                                ClientResponsePayloadView { stream_key, sequenced_packet: cut[i] },
                            ),
                        ]);
                    }
                }
                proof {
                    assert(cut.take(cut.len() as int) == cut);
                }
                StreamRecord {
                    stream_key: self.stream_key,
                    accepted: self.accepted,
                    inbound_finished: self.inbound_finished,
                    emitted: self.emitted + count as u64,
                    terminal_sent: self.terminal_sent,
                    backlog: self.backlog,
                    connection: self.connection,
                    closed: self.closed,
                }
            },
        }
    }

    fn end_of_data(self, actions: &mut Vec<RelayAction<R, W>>) -> (after: Self)
        ensures
            after.stream_key == self.stream_key,
            after.state() == self.state().end_of_data(self.stream_key).0,
            final(actions).deep_view() == old(actions).deep_view() + self.state().end_of_data(
                self.stream_key,
            ).1,
    {
        if self.inbound_finished {
            self.torn_down(actions)
        } else {
            let StreamRecord {
                stream_key,
                accepted,
                inbound_finished,
                emitted,
                terminal_sent: _,
                backlog,
                connection,
                closed,
            } = self;
            push_action(
                actions,
                RelayAction::Emit(
                    ClientResponsePayload {
                        stream_key,
                        sequenced_packet: SequencedPacket::terminal(emitted),
                    },
                ),
            );
            StreamRecord {
                stream_key,
                accepted,
                inbound_finished,
                emitted,
                terminal_sent: true,
                backlog,
                connection,
                closed,
            }
        }
    }
}

/// Whether one of `records` is that of `stream_key`.
spec fn holds<R, W>(records: Seq<StreamRecord<R, W>>, stream_key: StreamKey) -> bool {
    exists|i: int| 0 <= i < records.len() && (#[trigger] records[i]).stream_key == stream_key
}

/// The place of the record of `stream_key` among `records`.
spec fn index_of<R, W>(records: Seq<StreamRecord<R, W>>, stream_key: StreamKey) -> int {
    choose|i: int| 0 <= i < records.len() && (#[trigger] records[i]).stream_key == stream_key
}

/// The streams that `records` describe, by their keys.
spec fn table<R, W>(records: Seq<StreamRecord<R, W>>) -> Map<StreamKey, StreamState<R, W>> {
    Map::new(
        |k: StreamKey| holds(records, k),
        |k: StreamKey| records[index_of(records, k)].state(),
    )
}

/// No two of `records` are of the same stream.
spec fn distinct<R, W>(records: Seq<StreamRecord<R, W>>) -> bool {
    forall|i: int, j: int|
        0 <= i < j < records.len() ==> (#[trigger] records[i]).stream_key != (
        #[trigger] records[j]).stream_key
}

/// No stream is held twice, and every stream is well formed.
spec fn in_order<R, W>(records: Seq<StreamRecord<R, W>>) -> bool {
    &&& distinct(records)
    &&& forall|i: int| 0 <= i < records.len() ==> (#[trigger] records[i]).state().well_formed()
}

proof fn lemma_table_at<R, W>(records: Seq<StreamRecord<R, W>>, i: int)
    requires
        distinct(records),
        0 <= i < records.len(),
    ensures
        table(records).dom().contains(records[i].stream_key),
        table(records)[records[i].stream_key] == records[i].state(),
{
    let k = records[i].stream_key;
    assert(holds(records, k));
    let j = index_of(records, k);
    assert(records[j].stream_key == records[i].stream_key);
    assert(i == j);
}

proof fn lemma_table_push<R, W>(records: Seq<StreamRecord<R, W>>, record: StreamRecord<R, W>)
    requires
        distinct(records),
        !holds(records, record.stream_key),
    ensures
        distinct(records.push(record)),
        table(records.push(record)) == table(records).insert(record.stream_key, record.state()),
{
    let more = records.push(record);
    assert forall|i: int, j: int| 0 <= i < j < more.len() implies (#[trigger] more[i]).stream_key
        != (#[trigger] more[j]).stream_key by {
        if j == records.len() {
            assert(more[i] == records[i]);
        } else {
            assert(more[i] == records[i]);
            assert(more[j] == records[j]);
        }
    }
    assert forall|k: StreamKey| holds(more, k) <==> (k == record.stream_key || holds(records, k)) by {
        if holds(more, k) {
            let i = index_of(more, k);
            if i < records.len() {
                assert(records[i].stream_key == k);
            }
        }
        if k == record.stream_key {
            assert(more[records.len() as int].stream_key == k);
        }
        if holds(records, k) {
            let i = index_of(records, k);
            assert(more[i].stream_key == k);
        }
    }
    assert forall|k: StreamKey| holds(more, k) implies #[trigger] table(more)[k] == table(
        records,
    ).insert(record.stream_key, record.state())[k] by {
        let i = index_of(more, k);
        lemma_table_at(more, i);
        if i < records.len() {
            assert(more[i] == records[i]);
            lemma_table_at(records, i);
        }
    }
    assert(table(more) =~= table(records).insert(record.stream_key, record.state()));
}

proof fn lemma_table_swap_remove<R, W>(records: Seq<StreamRecord<R, W>>, i: int)
    requires
        distinct(records),
        0 <= i < records.len(),
    ensures
        distinct(records.update(i, records.last()).drop_last()),
        table(records.update(i, records.last()).drop_last()) == table(records).remove(
            records[i].stream_key,
        ),
{
    let less = records.update(i, records.last()).drop_last();
    let gone = records[i].stream_key;
    let last = records.len() - 1;
    // Where a record of `less` stood in `records`.
    let origin = |j: int| if j == i { last } else { j };
    assert forall|j: int| 0 <= j < less.len() implies #[trigger] less[j] == records[origin(j)] by {}
    assert forall|a: int, b: int| 0 <= a < b < less.len() implies (#[trigger] less[a]).stream_key
        != (#[trigger] less[b]).stream_key by {
        assert(less[a] == records[origin(a)]);
        assert(less[b] == records[origin(b)]);
        assert(origin(a) != origin(b));
        if origin(a) < origin(b) {
            assert(records[origin(a)].stream_key != records[origin(b)].stream_key);
        } else {
            assert(records[origin(b)].stream_key != records[origin(a)].stream_key);
        }
    }
    assert forall|k: StreamKey| holds(less, k) <==> (k != gone && holds(records, k)) by {
        if holds(less, k) {
            let j = index_of(less, k);
            assert(less[j] == records[origin(j)]);
            assert(records[origin(j)].stream_key == k);
            if origin(j) < i {
                assert(records[origin(j)].stream_key != records[i].stream_key);
            } else {
                assert(records[i].stream_key != records[origin(j)].stream_key);
            }
        }
        if k != gone && holds(records, k) {
            let j = index_of(records, k);
            if j == last {
                assert(less[i] == records[last]);
                assert(less[i].stream_key == k);
            } else {
                assert(less[j] == records[j]);
                assert(less[j].stream_key == k);
            }
        }
    }
    assert forall|k: StreamKey| holds(less, k) implies #[trigger] table(less)[k] == table(
        records,
    ).remove(gone)[k] by {
        let j = index_of(less, k);
        lemma_table_at(less, j);
        assert(less[j] == records[origin(j)]);
        lemma_table_at(records, origin(j));
    }
    assert(table(less) =~= table(records).remove(gone));
}

proof fn lemma_table_update<R, W>(
    records: Seq<StreamRecord<R, W>>,
    i: int,
    record: StreamRecord<R, W>,
)
    requires
        distinct(records),
        0 <= i < records.len(),
        record.stream_key == records[i].stream_key,
    ensures
        distinct(records.update(i, record)),
        table(records.update(i, record)) == table(records).insert(
            record.stream_key,
            record.state(),
        ),
{
    let changed = records.update(i, record);
    assert forall|a: int, b: int| 0 <= a < b < changed.len() implies (
    #[trigger] changed[a]).stream_key != (#[trigger] changed[b]).stream_key by {
        assert(changed[a].stream_key == records[a].stream_key);
        assert(changed[b].stream_key == records[b].stream_key);
    }
    assert forall|k: StreamKey| holds(changed, k) <==> holds(records, k) by {
        if holds(changed, k) {
            let j = index_of(changed, k);
            assert(records[j].stream_key == k);
        }
        if holds(records, k) {
            let j = index_of(records, k);
            assert(changed[j].stream_key == k);
        }
    }
    lemma_table_at(records, i);
    assert forall|k: StreamKey| holds(changed, k) implies #[trigger] table(changed)[k] == table(
        records,
    ).insert(record.stream_key, record.state())[k] by {
        let j = index_of(changed, k);
        lemma_table_at(changed, j);
        if j != i {
            assert(changed[j] == records[j]);
            lemma_table_at(records, j);
        }
    }
    assert(table(changed) =~= table(records).insert(record.stream_key, record.state()));
}

/// The relay.
///
/// It owns the mapping from stream keys to connections. A stream that is
/// over stays known as closed, without a connection, so that late traffic
/// for it is dropped.
pub struct Relay<R, W> {
    streams: Vec<StreamRecord<R, W>>,
    max_packet_len: usize,
}

impl<R, W> View for Relay<R, W> {
    type V = RelayState<R, W>;

    closed spec fn view(&self) -> RelayState<R, W> {
        RelayState { streams: table(self.streams@), max_packet_len: self.max_packet_len }
    }
}

impl<R, W> Relay<R, W> {
    /// No stream is held twice, and every stream is in a state that the
    /// relay can have brought it to.
    pub closed spec fn wf(&self) -> bool {
        self.max_packet_len > 0 && in_order(self.streams@)
    }

    /// A relay in order is a well-formed value.
    pub proof fn lemma_well_formed(&self)
        requires
            self.wf(),
        ensures
            self@.well_formed(),
    {
        assert forall|k: StreamKey| #[trigger] self@.streams.dom().contains(k) implies self@.streams[k].well_formed() by {
            let i = index_of(self.streams@, k);
            lemma_table_at(self.streams@, i);
        }
    }

    /// A relay that knows no stream and puts at most `max_packet_len` bytes
    /// into one response packet.
    pub fn new(max_packet_len: usize) -> (relay: Self)
        requires
            max_packet_len > 0,
        ensures
            relay.wf(),
            relay@ == RelayState::<R, W>::empty(max_packet_len),
    {
        let relay = Relay { streams: Vec::new(), max_packet_len };
        assert(relay@.streams =~= Map::empty());
        relay
    }

    /// The place of the record of `stream_key`.
    fn find(&self, stream_key: StreamKey) -> (place: Option<usize>)
        requires
            self.wf(),
        ensures
            match place {
                Some(i) => {
                    &&& i < self.streams@.len()
                    &&& self.streams@[i as int].stream_key == stream_key
                    &&& self@.knows(stream_key)
                    &&& self@.streams[stream_key] == self.streams@[i as int].state()
                },
                None => !self@.knows(stream_key),
            },
    {
        let mut i: usize = 0;
        while i < self.streams.len()
            invariant
                self.wf(),
                i <= self.streams@.len(),
                forall|j: int| 0 <= j < i ==> (#[trigger] self.streams@[j]).stream_key != stream_key,
            decreases self.streams@.len() - i,
        {
            if self.streams[i].stream_key == stream_key {
                proof {
                    lemma_table_at(self.streams@, i as int);
                }
                return Some(i);
            }
            i = i + 1;
        }
        proof {
            if holds(self.streams@, stream_key) {
                let j = index_of(self.streams@, stream_key);
                assert(self.streams@[j].stream_key == stream_key);
            }
        }
        None
    }

    /// Takes the record at `place` out of the relay.
    fn take_record(&mut self, place: usize) -> (record: StreamRecord<R, W>)
        requires
            old(self).wf(),
            place < old(self).streams@.len(),
        ensures
            final(self).wf(),
            record == old(self).streams@[place as int],
            record.state().well_formed(),
            old(self)@.knows(record.stream_key),
            old(self)@.streams[record.stream_key] == record.state(),
            final(self)@ == (RelayState {
                streams: old(self)@.streams.remove(record.stream_key),
                ..old(self)@
            }),
    {
        proof {
            lemma_table_swap_remove(self.streams@, place as int);
            lemma_table_at(self.streams@, place as int);
        }
        let ghost before = self.streams@;
        let record = self.streams.swap_remove(place);
        proof {
            let less = self.streams@;
            assert forall|j: int| 0 <= j < less.len() implies (#[trigger] less[j]).state().well_formed() by {
                if j == place {
                    assert(less[j] == before[before.len() - 1]);
                } else {
                    assert(less[j] == before[j]);
                }
            }
        }
        record
    }

    /// Puts the record of a stream that the relay does not hold into it.
    fn put_record(&mut self, record: StreamRecord<R, W>)
        requires
            old(self).wf(),
            !old(self)@.knows(record.stream_key),
            record.state().well_formed(),
        ensures
            final(self).wf(),
            final(self)@ == old(self)@.with(record.stream_key, record.state()),
    {
        proof {
            lemma_table_push(self.streams@, record);
        }
        let ghost before = self.streams@;
        self.streams.push(record);
        proof {
            let more = self.streams@;
            assert forall|j: int| 0 <= j < more.len() implies (#[trigger] more[j]).state().well_formed() by {
                if j < before.len() {
                    assert(more[j] == before[j]);
                }
            }
        }
    }
}

impl<R, W> Relay<R, W> {
    /// Takes a request from the mesh.
    ///
    /// A request without a stream key is refused, and one for a closed
    /// stream is dropped; neither changes anything. The first request of a
    /// stream asks for a connection. The packet of a request is written to
    /// the destination, or kept until the connection is there. A packet out
    /// of turn, and a first request without a destination, end the stream:
    /// the mesh gets the closing packet and the connection is released.
    pub fn handle_inbound(&mut self, request: MeshRequest) -> (outcome: InboundOutcome<R, W>)
        requires
            old(self).wf(),
        ensures
            final(self).wf(),
            (final(self)@, outcome.verdict, outcome.actions.deep_view()) == old(self)@.inbound(
                request@,
            ),
    {
        let MeshRequest { stream_key, sequenced_packet, target } = request;
        let mut actions: Vec<RelayAction<R, W>> = Vec::new();
        assert(actions.deep_view() == Seq::<RelayActionView<R, W>>::empty());
        let key = match stream_key {
            Some(key) => key,
            None => {
                return InboundOutcome { verdict: InboundVerdict::MissingStreamKey, actions };
            },
        };
        let found = self.find(key);
        let known = found.is_some();
        let record = match found {
            Some(place) => {
                if self.streams[place].closed {
                    return InboundOutcome { verdict: InboundVerdict::Dropped, actions };
                }
                self.take_record(place)
            },
            None => StreamRecord::fresh(key),
        };
        let acceptable = match &sequenced_packet {
            Some(packet) => record.accepts(packet),
            None => true,
        };
        let verdict;
        let after;
        if !acceptable {
            verdict = InboundVerdict::SequenceViolation;
            after = record.torn_down(&mut actions);
        } else if !known && target.is_none() {
            verdict = InboundVerdict::MissingDestination;
            after = record.torn_down(&mut actions);
        } else {
            verdict = InboundVerdict::Accepted;
            if !known {
                match target {
                    Some(target) => {
                        push_action(&mut actions, RelayAction::Connect { stream_key: key, target });
                    },
                    None => {},
                }
            }
            after = match sequenced_packet {
                Some(packet) => record.taken(packet, &mut actions),
                None => record,
            };
        }
        self.put_record(after);
        proof {
            let expected = old(self)@.inbound(request@);
            assert(self@.streams =~= expected.0.streams);
            assert(actions.deep_view() =~= expected.2);
        }
        InboundOutcome { verdict, actions }
    }

    /// Takes the connector's answer for `stream_key`.
    ///
    /// A stream that waits for its connection gets it, and what was kept for
    /// it is written; on a failure the stream ends and the mesh gets the
    /// closing packet. For any other stream nothing changes, and a
    /// connection that came for it is released.
    pub fn connection_result(
        &mut self,
        stream_key: StreamKey,
        result: Result<ConnectionInfo<R, W>, IoError>,
    ) -> (actions: Vec<RelayAction<R, W>>)
        requires
            old(self).wf(),
        ensures
            final(self).wf(),
            (final(self)@, actions.deep_view()) == old(self)@.connected(stream_key, result),
    {
        let mut actions: Vec<RelayAction<R, W>> = Vec::new();
        assert(actions.deep_view() == Seq::<RelayActionView<R, W>>::empty());
        let waiting = match self.find(stream_key) {
            Some(place) => {
                if !self.streams[place].closed && self.streams[place].connection.is_none() {
                    Some(place)
                } else {
                    None
                }
            },
            None => None,
        };
        match waiting {
            Some(place) => {
                let record = self.take_record(place);
                let after = match result {
                    Ok(connection) => record.opened(connection, &mut actions),
                    Err(_) => record.torn_down(&mut actions),
                };
                self.put_record(after);
                proof {
                    let expected = old(self)@.connected(stream_key, result);
                    assert(self@.streams =~= expected.0.streams);
                    assert(actions.deep_view() =~= expected.1);
                }
            },
            None => {
                match result {
                    Ok(connection) => {
                        push_action(&mut actions, RelayAction::Release { stream_key, connection });
                    },
                    Err(_) => {},
                }
                proof {
                    assert(actions.deep_view() =~= old(self)@.connected(stream_key, result).1);
                }
            },
        }
        actions
    }

    /// Takes the result of an attempt to read from the destination of
    /// `stream_key`.
    ///
    /// It counts only while the stream has a connection and its response has
    /// not ended. Data goes to the mesh in packets numbered on from the last
    /// one; the end of the data gives the closing packet; a failure ends the
    /// stream. When both directions have ended the connection is released.
    pub fn deliver_read(&mut self, stream_key: StreamKey, outcome: ReadOutcome) -> (actions: Vec<
        RelayAction<R, W>,
    >)
        requires
            old(self).wf(),
        ensures
            final(self).wf(),
            (final(self)@, actions.deep_view()) == old(self)@.read(stream_key, outcome@),
    {
        let mut actions: Vec<RelayAction<R, W>> = Vec::new();
        assert(actions.deep_view() == Seq::<RelayActionView<R, W>>::empty());
        let readable = match self.find(stream_key) {
            Some(place) => {
                if self.streams[place].connection.is_some() && !self.streams[place].terminal_sent {
                    Some(place)
                } else {
                    None
                }
            },
            None => None,
        };
        match readable {
            Some(place) => {
                match outcome {
                    ReadOutcome::NotReady => {},
                    ReadOutcome::Data(data) => {
                        let record = self.take_record(place);
                        let after = record.data_read(data, self.max_packet_len, &mut actions);
                        self.put_record(after);
                    },
                    ReadOutcome::EndOfData => {
                        let record = self.take_record(place);
                        let after = record.end_of_data(&mut actions);
                        self.put_record(after);
                    },
                    ReadOutcome::Failed(_) => {
                        let record = self.take_record(place);
                        let after = record.torn_down(&mut actions);
                        self.put_record(after);
                    },
                }
                proof {
                    let expected = old(self)@.read(stream_key, outcome@);
                    assert(self@.streams =~= expected.0.streams);
                    assert(actions.deep_view() =~= expected.1);
                }
            },
            None => {},
        }
        actions
    }

    /// Takes the news that a write to the destination of `stream_key`
    /// failed: a stream with a connection ends, the mesh gets the closing
    /// packet unless it has it, and the connection is released.
    pub fn write_failed(&mut self, stream_key: StreamKey) -> (actions: Vec<RelayAction<R, W>>)
        requires
            old(self).wf(),
        ensures
            final(self).wf(),
            (final(self)@, actions.deep_view()) == old(self)@.write_failed(stream_key),
    {
        let mut actions: Vec<RelayAction<R, W>> = Vec::new();
        assert(actions.deep_view() == Seq::<RelayActionView<R, W>>::empty());
        match self.find(stream_key) {
            Some(place) => {
                if self.streams[place].connection.is_some() {
                    let record = self.take_record(place);
                    let after = record.torn_down(&mut actions);
                    self.put_record(after);
                    proof {
                        let expected = old(self)@.write_failed(stream_key);
                        assert(self@.streams =~= expected.0.streams);
                        assert(actions.deep_view() =~= expected.1);
                    }
                }
            },
            None => {},
        }
        actions
    }

    /// Ends `stream_key` on a signal from outside: its connection is
    /// released, it is closed, and the mesh gets nothing more for it.
    pub fn cancel(&mut self, stream_key: StreamKey) -> (actions: Vec<RelayAction<R, W>>)
        requires
            old(self).wf(),
        ensures
            final(self).wf(),
            (final(self)@, actions.deep_view()) == old(self)@.cancelled(stream_key),
    {
        let mut actions: Vec<RelayAction<R, W>> = Vec::new();
        assert(actions.deep_view() == Seq::<RelayActionView<R, W>>::empty());
        match self.find(stream_key) {
            Some(place) => {
                if !self.streams[place].closed {
                    let record = self.take_record(place);
                    let after = record.cancelled(&mut actions);
                    self.put_record(after);
                    proof {
                        let expected = old(self)@.cancelled(stream_key);
                        assert(self@.streams =~= expected.0.streams);
                        assert(actions.deep_view() =~= expected.1);
                    }
                }
            },
            None => {},
        }
        actions
    }
}

impl<R, W> Relay<R, W> {
    /// The most bytes that the relay puts into one response packet.
    pub fn max_packet_len(&self) -> (len: usize)
        ensures
            len == self@.max_packet_len,
    {
        self.max_packet_len
    }

    /// Where `stream_key` stands; nothing for a stream that the relay has
    /// not seen.
    pub fn phase(&self, stream_key: StreamKey) -> (phase: Option<StreamPhase>)
        requires
            self.wf(),
        ensures
            phase == if self@.knows(stream_key) {
                Some(self@.streams[stream_key].phase())
            } else {
                None
            },
    {
        match self.find(stream_key) {
            Some(place) => Some(self.streams[place].phase()),
            None => None,
        }
    }

    /// The connection that backs `stream_key`. There is one while the
    /// stream is established or half closed, and none before and after.
    pub fn resolve(&self, stream_key: StreamKey) -> (connection: Option<&ConnectionInfo<R, W>>)
        requires
            self.wf(),
        ensures
            match connection {
                Some(found) => self@.resolve(stream_key) == Some(*found),
                None => self@.resolve(stream_key) is None,
            },
    {
        match self.find(stream_key) {
            Some(place) => self.streams[place].connection.as_ref(),
            None => None,
        }
    }

    /// The streams from whose destinations the relay still takes bytes:
    /// those with a connection whose response has not ended, each once.
    pub fn readable_streams(&self) -> (keys: Vec<StreamKey>)
        requires
            self.wf(),
        ensures
            keys@.no_duplicates(),
            forall|k: StreamKey|
                keys@.contains(k) <==> self@.knows(k) && self@.streams[k].readable(),
    {
        let mut keys: Vec<StreamKey> = Vec::new();
        let mut i: usize = 0;
        while i < self.streams.len()
            invariant
                self.wf(),
                i <= self.streams@.len(),
                keys@.no_duplicates(),
                forall|k: StreamKey|
                    keys@.contains(k) <==> exists|j: int|
                        0 <= j < i && (#[trigger] self.streams@[j]).stream_key == k
                            && self.streams@[j].state().readable(),
            decreases self.streams@.len() - i,
        {
            let record = &self.streams[i];
            let ghost before = keys@;
            if record.connection.is_some() && !record.terminal_sent {
                proof {
                    if before.contains(record.stream_key) {
                        let j = choose|j: int|
                            0 <= j < i && (#[trigger] self.streams@[j]).stream_key
                                == record.stream_key && self.streams@[j].state().readable();
                        assert(self.streams@[j].stream_key != self.streams@[i as int].stream_key);
                    }
                }
                keys.push(record.stream_key);
                proof {
                    assert forall|k: StreamKey| keys@.contains(k) <==> exists|j: int|
                        0 <= j < i + 1 && (#[trigger] self.streams@[j]).stream_key == k
                            && self.streams@[j].state().readable() by {
                        if keys@.contains(k) {
                            let n = choose|n: int| 0 <= n < keys@.len() && keys@[n] == k;
                            if n < before.len() {
                                assert(before[n] == k);
                                assert(before.contains(k));
                            } else {
                                assert(self.streams@[i as int].stream_key == k);
                            }
                        }
                        if exists|j: int|
                            0 <= j < i + 1 && (#[trigger] self.streams@[j]).stream_key == k
                                && self.streams@[j].state().readable() {
                            let j = choose|j: int|
                                0 <= j < i + 1 && (#[trigger] self.streams@[j]).stream_key == k
                                    && self.streams@[j].state().readable();
                            if j < i {
                                assert(before.contains(k));
                                let n = choose|n: int| 0 <= n < before.len() && before[n] == k;
                                assert(keys@[n] == k);
                            } else {
                                assert(keys@[before.len() as int] == k);
                            }
                        }
                    }
                }
            } else {
                proof {
                    assert forall|k: StreamKey| keys@.contains(k) <==> exists|j: int|
                        0 <= j < i + 1 && (#[trigger] self.streams@[j]).stream_key == k
                            && self.streams@[j].state().readable() by {
                        if exists|j: int|
                            0 <= j < i + 1 && (#[trigger] self.streams@[j]).stream_key == k
                                && self.streams@[j].state().readable() {
                            let j = choose|j: int|
                                0 <= j < i + 1 && (#[trigger] self.streams@[j]).stream_key == k
                                    && self.streams@[j].state().readable();
                            assert(j < i);
                        }
                    }
                }
            }
            i = i + 1;
        }
        proof {
            assert forall|k: StreamKey| keys@.contains(k) <==> self@.knows(k)
                && self@.streams[k].readable() by {
                if keys@.contains(k) {
                    let j = choose|j: int|
                        0 <= j < i && (#[trigger] self.streams@[j]).stream_key == k
                            && self.streams@[j].state().readable();
                    lemma_table_at(self.streams@, j);
                }
                if self@.knows(k) && self@.streams[k].readable() {
                    let j = index_of(self.streams@, k);
                    lemma_table_at(self.streams@, j);
                }
            }
        }
        keys
    }

    /// Takes the results of one round of reads, in their order: each is
    /// delivered as `deliver_read` delivers it, and the actions of all of
    /// them come back in one list.
    pub fn poll_outbound(&mut self, reads: Vec<StreamRead>) -> (actions: Vec<RelayAction<R, W>>)
        requires
            old(self).wf(),
        ensures
            final(self).wf(),
            (final(self)@, actions.deep_view()) == old(self)@.polled(reads.deep_view()),
    {
        let mut actions: Vec<RelayAction<R, W>> = Vec::new();
        let ghost all = reads@;
        let ghost views = reads.deep_view();
        proof {
            assert(actions.deep_view() == Seq::<RelayActionView<R, W>>::empty());
            assert(views.skip(0) == views);
            let rest = self@.polled(views);
            assert(actions.deep_view() + rest.1 == rest.1);
        }
        for read in iter: reads
            invariant
                self.wf(),
                iter.seq() == all,
                views.len() == all.len(),
                forall|i: int| 0 <= i < all.len() ==> (#[trigger] all[i])@ == views[i],
                ({
                    let rest = self@.polled(views.skip(iter.index() as int));
                    (rest.0, actions.deep_view() + rest.1)
                }) == old(self)@.polled(views),
        {
            let ghost i = iter.index() as int;
            let ghost before = self@;
            let ghost done = actions.deep_view();
            let StreamRead { stream_key, outcome } = read;
            let mut more = self.deliver_read(stream_key, outcome);
            let ghost added = more.deep_view();
            actions.append(&mut more);
            proof {
                assert(read == all[i]);
                assert(views.skip(i)[0] == views[i]);
                assert(views.skip(i).skip(1) == views.skip(i + 1));
                assert(actions.deep_view() == done + added);
                let rest = self@.polled(views.skip(i + 1));
                assert(done + (added + rest.1) == (done + added) + rest.1);
            }
        }
        proof {
            assert(views.skip(views.len() as int) == Seq::<StreamReadView>::empty());
            let rest = self@.polled(views.skip(views.len() as int));
            assert(actions.deep_view() + rest.1 == actions.deep_view());
        }
        actions
    }
}

impl<R, W> Relay<R, W> {
    /// Takes `event`, whatever it is, and says what is to be done.
    pub fn handle(&mut self, event: RelayEvent<R, W>) -> (actions: Vec<RelayAction<R, W>>)
        requires
            old(self).wf(),
        ensures
            final(self).wf(),
            (final(self)@, actions.deep_view()) == old(self)@.step(event@),
    {
        match event {
            RelayEvent::Inbound(request) => self.handle_inbound(request).actions,
            RelayEvent::Connected(stream_key, result) => self.connection_result(
                stream_key,
                result,
            ),
            RelayEvent::Read(read) => {
                let StreamRead { stream_key, outcome } = read;
                self.deliver_read(stream_key, outcome)
            },
            RelayEvent::WriteFailed(stream_key) => self.write_failed(stream_key),
            RelayEvent::Cancelled(stream_key) => self.cancel(stream_key),
        }
    }

    /// Lends the connection of the record at `place`.
    fn connection_at(&mut self, place: usize) -> (connection: Option<&mut ConnectionInfo<R, W>>)
        requires
            place < old(self).streams@.len(),
        ensures
            final(self).max_packet_len == old(self).max_packet_len,
            final(self).streams@ == old(self).streams@.update(
                place as int,
                final(self).streams@[place as int],
            ),
            final(self).streams@[place as int].state() == (StreamState {
                connection: final(self).streams@[place as int].connection,
                ..old(self).streams@[place as int].state()
            }),
            final(self).streams@[place as int].stream_key == old(self).streams@[place
                as int].stream_key,
            match connection {
                Some(found) => {
                    &&& old(self).streams@[place as int].connection == Some(*found)
                    &&& final(self).streams@[place as int].connection == Some(*final(found))
                },
                None => {
                    &&& old(self).streams@[place as int].connection is None
                    &&& final(self).streams@[place as int].connection is None
                },
            },
    {
        let record = &mut self.streams[place];
        record.connection.as_mut()
    }

    /// Lends the connection that backs `stream_key`, so that its halves can
    /// be driven. What is done to the connection changes nothing else in
    /// the relay.
    pub fn connection_mut(&mut self, stream_key: StreamKey) -> (connection: Option<
        &mut ConnectionInfo<R, W>,
    >)
        requires
            old(self).wf(),
        ensures
            final(self).wf(),
            match connection {
                Some(found) => {
                    &&& old(self)@.resolve(stream_key) == Some(*found)
                    &&& final(self)@ == old(self)@.with(
                        stream_key,
                        StreamState {
                            connection: Some(*final(found)),
                            ..old(self)@.stream(stream_key)
                        },
                    )
                },
                None => old(self)@.resolve(stream_key) is None && final(self)@ == old(self)@,
            },
    {
        match self.find(stream_key) {
            Some(place) => {
                let ghost before = self.streams@;
                proof {
                    lemma_table_at(before, place as int);
                    assert forall|record: StreamRecord<R, W>|
                        record.stream_key == before[place as int].stream_key
                            && record.state().well_formed() implies in_order(
                        #[trigger] before.update(place as int, record),
                    ) && table(before.update(place as int, record)) == table(before).insert(
                        stream_key,
                        record.state(),
                    ) by {
                        let changed = before.update(place as int, record);
                        lemma_table_update(before, place as int, record);
                        assert forall|j: int| 0 <= j < changed.len() implies (
                        #[trigger] changed[j]).state().well_formed() by {
                            if j != place {
                                assert(changed[j] == before[j]);
                            }
                        }
                    }
                    assert(table(before).insert(stream_key, before[place as int].state())
                        =~= table(before));
                }
                self.connection_at(place)
            },
            None => None,
        }
    }
}

} // verus!
