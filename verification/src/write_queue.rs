//! The bytes that wait to be written to one destination. A write may take
//! fewer bytes than it was offered; the rest is offered again, from where the
//! write stopped.
use crate::net::{Async, IoError};
use vstd::prelude::*;
use vstd::slice::slice_subrange;

verus! {

/// How a queue stands after a write.
#[derive(Clone, Copy, Debug, PartialEq, Eq, Structural)]
pub enum WriteStep {
    /// Nothing waits to be written.
    Idle,
    /// Bytes wait to be written.
    Pending,
    /// The write failed; the connection is of no more use.
    Failed(IoError),
}

/// What happens to the waiting bytes `pending` when a write that was offered
/// all of them ends in `result`: the bytes that the write took are gone,
/// and the others stay as they are.
pub open spec fn after_write(pending: Seq<u8>, result: Result<Async, IoError>) -> Seq<u8> {
    match result {
        Ok(Async::Ready(n)) => pending.skip(n as int),
        _ => pending,
    }
}

/// How a queue with the waiting bytes `pending` stands after a write that
/// ended in `result`.
pub open spec fn step_after(pending: Seq<u8>, result: Result<Async, IoError>) -> WriteStep {
    match result {
        Err(error) => WriteStep::Failed(error),
        Ok(_) => if after_write(pending, result).len() == 0 {
            WriteStep::Idle
        } else {
            WriteStep::Pending
        },
    }
}

/// The bytes that wait to be written to one destination, in order.
#[derive(Debug)]
pub struct WriteQueue {
    data: Vec<u8>,
    written: usize,
}

impl View for WriteQueue {
    type V = Seq<u8>;

    /// The bytes that wait, the next to be written first.
    closed spec fn view(&self) -> Seq<u8> {
        self.data@.skip(self.written as int)
    }
}

impl WriteQueue {
    /// The place of the next byte is within the bytes.
    pub closed spec fn wf(&self) -> bool {
        self.written <= self.data@.len()
    }

    /// A queue in which nothing waits.
    pub fn new() -> (queue: WriteQueue)
        ensures
            queue.wf(),
            queue@ == Seq::<u8>::empty(),
    {
        WriteQueue { data: Vec::new(), written: 0 }
    }

    /// Whether nothing waits.
    pub fn is_empty(&self) -> (empty: bool)
        requires
            self.wf(),
        ensures
            empty == (self@.len() == 0),
    {
        self.written == self.data.len()
    }

    /// Puts `data` behind the bytes that wait.
    pub fn enqueue(&mut self, data: Vec<u8>)
        requires
            old(self).wf(),
        ensures
            final(self).wf(),
            final(self)@ == old(self)@ + data@,
    {
        if self.written == self.data.len() {
            self.data = data;
            self.written = 0;
            assert(self@ == old(self)@ + data@);
        } else {
            let ghost added = data@;
            let mut data = data;
            self.data.append(&mut data);
            assert(self@ == old(self)@ + added);
        }
    }

    /// The bytes that wait: what the next write is to be offered.
    pub fn remaining(&self) -> (bytes: &[u8])
        requires
            self.wf(),
        ensures
            bytes@ == self@,
    {
        slice_subrange(self.data.as_slice(), self.written, self.data.len())
    }

    /// Takes the result of a write that was offered `remaining()`. The bytes
    /// that the write took wait no more; after a write that took nothing,
    /// and after one that failed, the same bytes wait as before.
    pub fn write_result(&mut self, result: Result<Async, IoError>) -> (step: WriteStep)
        requires
            old(self).wf(),
            result matches Ok(Async::Ready(n)) ==> n <= old(self)@.len(),
        ensures
            final(self).wf(),
            final(self)@ == after_write(old(self)@, result),
            step == step_after(old(self)@, result),
    {
        match result {
            Ok(Async::Ready(n)) => {
                assert(old(self)@.len() == self.data.len() - self.written);
                self.written = self.written + n;
                assert(self@ == old(self)@.skip(n as int));
            },
            Ok(Async::NotReady) => {},
            Err(error) => {
                return WriteStep::Failed(error);
            },
        }
        if self.written == self.data.len() {
            WriteStep::Idle
        } else {
            WriteStep::Pending
        }
    }
}

/// A write loses and repeats nothing: the bytes that it took, followed by
/// the bytes that still wait, are the bytes that waited before.
pub proof fn lemma_write_resumes(pending: Seq<u8>, taken: usize)
    requires
        taken <= pending.len(),
    ensures
        pending.take(taken as int) + after_write(pending, Ok(Async::Ready(taken))) == pending,
{
}

} // verus!
