//! Stand-ins for the two halves of a connection: a reader that hands out
//! what it was told to, and a writer that keeps what it was given.
use crate::net::{Async, IoError};
use vstd::prelude::*;

verus! {

/// What a prepared read is to give, as mathematics: the bytes that land in
/// the buffer, and the result of the poll.
pub type ReadScript = Seq<(Seq<u8>, Result<Async, IoError>)>;

/// The prepared reads `reads` as mathematics.
pub open spec fn read_script(reads: Seq<(Vec<u8>, Result<Async, IoError>)>) -> ReadScript {
    Seq::new(reads.len(), |i: int| (reads[i].0@, reads[i].1))
}

/// The buffers `buffers` as mathematics.
pub open spec fn buffers_view(buffers: Seq<Vec<u8>>) -> Seq<Seq<u8>> {
    Seq::new(buffers.len(), |i: int| buffers[i]@)
}

/// The read half of a connection that is no connection: each poll gives
/// what was prepared for it, in the order of preparation.
#[derive(Debug, PartialEq, Eq)]
pub struct ReadHalfWrapperMock {
    poll_read_results: Vec<(Vec<u8>, Result<Async, IoError>)>,
}

impl View for ReadHalfWrapperMock {
    type V = ReadScript;

    /// The reads that are still prepared.
    closed spec fn view(&self) -> ReadScript {
        read_script(self.poll_read_results@)
    }
}

impl ReadHalfWrapperMock {
    /// A reader with nothing prepared.
    pub fn new() -> (reader: ReadHalfWrapperMock)
        ensures
            reader@ == ReadScript::empty(),
    {
        let reader = ReadHalfWrapperMock { poll_read_results: Vec::new() };
        assert(reader@ == ReadScript::empty());
        reader
    }

    /// Prepares one more poll, after those prepared before: it will put
    /// `data` at the start of the buffer and return `result`.
    pub fn poll_read_result(self, data: Vec<u8>, result: Result<Async, IoError>) -> (reader:
        ReadHalfWrapperMock)
        ensures
            reader@ == self@.push((data@, result)),
    {
        let mut reader = self;
        reader.poll_read_results.push((data, result));
        assert(reader@ == self@.push((data@, result)));
        reader
    }

    /// How many prepared reads are left.
    pub fn reads_left(&self) -> (left: usize)
        ensures
            left == self@.len(),
    {
        self.poll_read_results.len()
    }

    /// Gives what was prepared for this poll: the prepared bytes replace the
    /// start of `buf`, and the prepared result comes back.
    pub fn poll_read(&mut self, buf: &mut Vec<u8>) -> (result: Result<Async, IoError>)
        requires
            old(self)@.len() > 0,
            old(self)@[0].0.len() <= old(buf)@.len(),
        ensures
            result == old(self)@[0].1,
            final(self)@ == old(self)@.skip(1),
            final(buf)@ == old(self)@[0].0 + old(buf)@.skip(old(self)@[0].0.len() as int),
    {
        let (data, result) = self.poll_read_results.remove(0);
        assert(self@ == old(self)@.skip(1));
        let mut i: usize = 0;
        while i < data.len()
            invariant
                i <= data@.len() <= buf@.len(),
                buf@.len() == old(buf)@.len(),
                buf@ == data@.take(i as int) + old(buf)@.skip(i as int),
            decreases data@.len() - i,
        {
            buf.set(i, data[i]);
            i = i + 1;
        }
        assert(data@.take(data@.len() as int) == data@);
        result
    }
}

/// What a writer holds, as mathematics.
pub struct WriteHalfWrapperMockView {
    /// The buffers that were given to the polls so far.
    pub poll_write_params: Seq<Seq<u8>>,
    /// The results that are still prepared.
    pub poll_write_results: Seq<Result<Async, IoError>>,
}

/// The write half of a connection that is no connection: each poll keeps
/// the bytes that it was given and returns what was prepared for it.
#[derive(Debug, PartialEq, Eq)]
pub struct WriteHalfWrapperMock {
    poll_write_params: Vec<Vec<u8>>,
    poll_write_results: Vec<Result<Async, IoError>>,
}

impl View for WriteHalfWrapperMock {
    type V = WriteHalfWrapperMockView;

    closed spec fn view(&self) -> WriteHalfWrapperMockView {
        WriteHalfWrapperMockView {
            poll_write_params: buffers_view(self.poll_write_params@),
            poll_write_results: self.poll_write_results@,
        }
    }
}

impl WriteHalfWrapperMock {
    /// A writer that was given nothing and has nothing prepared.
    pub fn new() -> (writer: WriteHalfWrapperMock)
        ensures
            writer@ == (WriteHalfWrapperMockView {
                poll_write_params: Seq::empty(),
                poll_write_results: Seq::empty(),
            }),
    {
        let writer = WriteHalfWrapperMock {
            poll_write_params: Vec::new(),
            poll_write_results: Vec::new(),
        };
        assert(writer@.poll_write_params == Seq::<Seq<u8>>::empty());
        writer
    }

    /// Prepares the result of one more poll, after those prepared before.
    pub fn poll_write_result(self, result: Result<Async, IoError>) -> (writer: WriteHalfWrapperMock)
        ensures
            writer@ == (WriteHalfWrapperMockView {
                poll_write_results: self@.poll_write_results.push(result),
                ..self@
            }),
    {
        let mut writer = self;
        writer.poll_write_results.push(result);
        writer
    }

    /// The buffers that were given to the polls so far, in order.
    pub fn poll_write_params(&self) -> (params: &Vec<Vec<u8>>)
        ensures
            buffers_view(params@) == self@.poll_write_params,
    {
        &self.poll_write_params
    }

    /// How many prepared results are left.
    pub fn results_left(&self) -> (left: usize)
        ensures
            left == self@.poll_write_results.len(),
    {
        self.poll_write_results.len()
    }

    /// Keeps a copy of `buf` and returns what was prepared for this poll.
    pub fn poll_write(&mut self, buf: &Vec<u8>) -> (result: Result<Async, IoError>)
        requires
            old(self)@.poll_write_results.len() > 0,
        ensures
            result == old(self)@.poll_write_results[0],
            final(self)@ == (WriteHalfWrapperMockView {
                poll_write_params: old(self)@.poll_write_params.push(buf@),
                poll_write_results: old(self)@.poll_write_results.skip(1),
            }),
    {
        self.poll_write_params.push(buf.clone());
        assert(buffers_view(self.poll_write_params@) == old(self)@.poll_write_params.push(buf@));
        let result = self.poll_write_results.remove(0);
        assert(self.poll_write_results@ == old(self)@.poll_write_results.skip(1));
        result
    }
}

} // verus!
