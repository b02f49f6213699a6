//! A stand-in for the connector: it hands out the results that it was told
//! to, and keeps the addresses that it was asked to connect to.
use crate::net::{Async, IoError, IpAddress, SocketAddress};
use crate::stream_connector::{Attempt, ConnectionInfo, StreamConnector};
use crate::tokio_wrapper_mocks::{
    read_script, ReadHalfWrapperMock, WriteHalfWrapperMock, WriteHalfWrapperMockView,
};
use futures::future::FutureResult;
use vstd::prelude::*;

verus! {

/// A connection whose two halves are stand-ins.
pub type MockConnection = ConnectionInfo<ReadHalfWrapperMock, WriteHalfWrapperMock>;

/// The future of the crate `futures` that is finished from the start.
/// Nothing of its inside is known here.
#[verifier::external_type_specification]
#[verifier::external_body]
#[verifier::reject_recursive_types(T)]
#[verifier::reject_recursive_types(E)]
pub struct ExFutureResult<T, E>(FutureResult<T, E>);

/// The result that `future` resolves with when it is polled.
pub uninterp spec fn resolves_with(future: FutureResult<MockConnection, IoError>) -> Result<
    MockConnection,
    IoError,
>;

/// Calls `futures::future::result`, which makes the future that is finished
/// from the start. Taken on trust: the future resolves with the result that
/// it was made from.
#[verifier::external_body]
fn finished(result: Result<MockConnection, IoError>) -> (future: FutureResult<
    MockConnection,
    IoError,
>)
    ensures
        resolves_with(future) == result,
{
    futures::future::result(result)
}

/// What a connector that is no connector holds, as mathematics.
pub struct StreamConnectorMockView {
    /// The addresses given to `connect` so far, after those that the
    /// connector was made with.
    pub connect_pair_params: Seq<SocketAddress>,
    /// The results that are still prepared.
    pub connect_pair_results: Seq<Result<MockConnection, IoError>>,
}

/// A connector that opens nothing: every call gives the result that was
/// prepared for it, in the order of preparation.
pub struct StreamConnectorMock {
    connect_pair_params: Vec<SocketAddress>,
    connect_pair_results: Vec<Result<MockConnection, IoError>>,
    attempts: Ghost<Seq<Attempt<ReadHalfWrapperMock, WriteHalfWrapperMock>>>,
}

impl View for StreamConnectorMock {
    type V = StreamConnectorMockView;

    closed spec fn view(&self) -> StreamConnectorMockView {
        StreamConnectorMockView {
            connect_pair_params: self.connect_pair_params@,
            connect_pair_results: self.connect_pair_results@,
        }
    }
}

impl StreamConnectorMock {
    /// A connector that was asked nothing and has nothing prepared.
    pub fn new() -> (connector: StreamConnectorMock)
        ensures
            connector@ == (StreamConnectorMockView {
                connect_pair_params: Seq::empty(),
                connect_pair_results: Seq::empty(),
            }),
            connector.attempts().len() == 0,
    {
        StreamConnectorMock {
            connect_pair_params: Vec::new(),
            connect_pair_results: Vec::new(),
            attempts: Ghost(Seq::empty()),
        }
    }

    /// Prepares one more success, after the results prepared before: a
    /// connection between `local_addr` and `peer_addr` whose reader gives
    /// `reads`, one to a poll, and whose writer returns `writes`, one to a
    /// poll.
    pub fn connection(
        self,
        local_addr: SocketAddress,
        peer_addr: SocketAddress,
        reads: Vec<(Vec<u8>, Result<Async, IoError>)>,
        writes: Vec<Result<Async, IoError>>,
    ) -> (connector: StreamConnectorMock)
        ensures
            connector@.connect_pair_params == self@.connect_pair_params,
            connector@.connect_pair_results.len() == self@.connect_pair_results.len() + 1,
            connector@.connect_pair_results.drop_last() == self@.connect_pair_results,
            connector.attempts() == self.attempts(),
            connector@.connect_pair_results.last() matches Ok(prepared) && {
                &&& prepared.local_addr == local_addr
                &&& prepared.peer_addr == peer_addr
                &&& prepared.reader@ == read_script(reads@)
                &&& prepared.writer@ == (WriteHalfWrapperMockView {
                    poll_write_params: Seq::empty(),
                    poll_write_results: writes@,
                })
            },
    {
        let ghost prepared = reads@;
        let ghost script = read_script(prepared);
        let mut read_half = ReadHalfWrapperMock::new();
        assert(script.take(0) == read_half@);
        for elem in iter: reads
            invariant
                iter.seq() == prepared,
                script == read_script(prepared),
                read_half@ == script.take(iter.index() as int),
        {
            let ghost so_far = read_half@;
            let ghost i = iter.index() as int;
            read_half = read_half.poll_read_result(elem.0, elem.1);
            proof {
                assert(elem == prepared[i]);
                assert(script.take(i + 1) == so_far.push(script[i]));
            }
        }
        assert(script.take(script.len() as int) == script);
        let ghost results = writes@;
        let mut write_half = WriteHalfWrapperMock::new();
        assert(results.take(0) == Seq::<Result<Async, IoError>>::empty());
        for elem in iter: writes
            invariant
                iter.seq() == results,
                write_half@ == (WriteHalfWrapperMockView {
                    poll_write_params: Seq::empty(),
                    poll_write_results: results.take(iter.index() as int),
                }),
        {
            let ghost i = iter.index() as int;
            write_half = write_half.poll_write_result(elem);
            proof {
                assert(elem == results[i]);
                assert(results.take(i + 1) == results.take(i).push(results[i]));
            }
        }
        assert(results.take(results.len() as int) == results);
        let connection_info = ConnectionInfo {
            reader: read_half,
            writer: write_half,
            local_addr,
            peer_addr,
        };
        self.connect_pair_result(Ok(connection_info))
    }

    /// Prepares one more success, after the results prepared before: a
    /// connection between `local_addr` and `peer_addr` with the halves
    /// `reader` and `writer`.
    pub fn with_connection(
        self,
        local_addr: SocketAddress,
        peer_addr: SocketAddress,
        reader: ReadHalfWrapperMock,
        writer: WriteHalfWrapperMock,
    ) -> (connector: StreamConnectorMock)
        ensures
            connector@ == (StreamConnectorMockView {
                connect_pair_results: self@.connect_pair_results.push(
                    Ok(ConnectionInfo { reader, writer, local_addr, peer_addr }),
                ),
                ..self@
            }),
            connector.attempts() == self.attempts(),
    {
        let connection_info = ConnectionInfo { reader, writer, local_addr, peer_addr };
        self.connect_pair_result(Ok(connection_info))
    }

    /// Makes the connector keep the addresses that it is asked for after
    /// those of `params`.
    pub fn connect_pair_params(self, params: Vec<SocketAddress>) -> (connector: StreamConnectorMock)
        ensures
            connector@ == (StreamConnectorMockView { connect_pair_params: params@, ..self@ }),
            connector.attempts() == self.attempts(),
    {
        let mut connector = self;
        connector.connect_pair_params = params;
        connector
    }

    /// Prepares one more result, after those prepared before.
    pub fn connect_pair_result(self, result: Result<MockConnection, IoError>) -> (connector:
        StreamConnectorMock)
        ensures
            connector@ == (StreamConnectorMockView {
                connect_pair_results: self@.connect_pair_results.push(result),
                ..self@
            }),
            connector.attempts() == self.attempts(),
    {
        let mut connector = self;
        connector.connect_pair_results.push(result);
        connector
    }

    /// How many prepared results are left.
    pub fn results_left(&self) -> (left: usize)
        ensures
            left == self@.connect_pair_results.len(),
    {
        self.connect_pair_results.len()
    }

    /// Keeps `socket_addr` and gives the next of the prepared results, as
    /// a future that is finished from the start. The attempt is kept among
    /// the attempts.
    pub fn connect_future(&mut self, socket_addr: SocketAddress) -> (future: FutureResult<
        MockConnection,
        IoError,
    >)
        requires
            old(self)@.connect_pair_results.len() > 0,
        ensures
            resolves_with(future) == old(self)@.connect_pair_results[0],
            final(self)@ == (StreamConnectorMockView {
                connect_pair_params: old(self)@.connect_pair_params.push(socket_addr),
                connect_pair_results: old(self)@.connect_pair_results.skip(1),
            }),
            final(self).attempts() == old(self).attempts().push(
                (socket_addr, old(self)@.connect_pair_results[0]),
            ),
    {
        let result = self.connect(socket_addr);
        finished(result)
    }

    /// The addresses that the connector was asked to connect to, in order.
    pub fn connect_params(&self) -> (params: &Vec<SocketAddress>)
        ensures
            params@ == self@.connect_pair_params,
    {
        &self.connect_pair_params
    }

    /// Gives the next of the prepared results, whatever the addresses. The
    /// call is not kept among the attempts.
    pub fn connect_one(
        &mut self,
        ip_addrs: Vec<IpAddress>,
        target_hostname: &String,
        target_port: u16,
    ) -> (result: Result<MockConnection, IoError>)
        requires
            old(self)@.connect_pair_results.len() > 0,
        ensures
            result == old(self)@.connect_pair_results[0],
            final(self)@ == (StreamConnectorMockView {
                connect_pair_results: old(self)@.connect_pair_results.skip(1),
                ..old(self)@
            }),
            final(self).attempts() == old(self).attempts(),
    {
        let result = self.connect_pair_results.remove(0);
        assert(self.connect_pair_results@ == old(self)@.connect_pair_results.skip(1));
        result
    }
}

impl StreamConnector for StreamConnectorMock {
    type Reader = ReadHalfWrapperMock;

    type Writer = WriteHalfWrapperMock;

    /// This connector keeps a record of its attempts.
    open spec fn keeps_record(&self) -> bool {
        true
    }

    closed spec fn attempts(&self) -> Seq<Attempt<ReadHalfWrapperMock, WriteHalfWrapperMock>> {
        self.attempts@
    }

    /// The connector can take as many attempts as it has results prepared.
    open spec fn prepared(&self) -> nat {
        self@.connect_pair_results.len()
    }

    /// Keeps `socket_addr` and gives the next of the prepared results.
    fn connect(&mut self, socket_addr: SocketAddress) -> (result: Result<MockConnection, IoError>)
        ensures
            result == old(self)@.connect_pair_results[0],
            final(self)@ == (StreamConnectorMockView {
                connect_pair_params: old(self)@.connect_pair_params.push(socket_addr),
                connect_pair_results: old(self)@.connect_pair_results.skip(1),
            }),
    {
        self.connect_pair_params.push(socket_addr);
        let result = self.connect_pair_results.remove(0);
        assert(self.connect_pair_results@ == old(self)@.connect_pair_results.skip(1));
        proof {
            self.attempts@ = self.attempts@.push((socket_addr, result));
        }
        result
    }
}

} // verus!
