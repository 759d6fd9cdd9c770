//! The transport capability: "send a byte buffer, with a timeout" and
//! "receive up to N bytes, with a timeout". A USB bulk-transfer
//! implementation lives outside the verified crate; [`MockBackend`] is an
//! in-memory implementation for exercising the protocol engine.

use vstd::prelude::*;

use crate::PrinterError;

verus! {

/// A printing transport.
///
/// The abstract state of a transport is the log of buffers successfully
/// handed to the device, in order. Receiving never changes that log, and a
/// failed send leaves it unchanged: a send either delivers the whole
/// buffer or fails with a transport error.
pub trait Backend: Sized {
    /// The log of buffers sent so far, oldest first. Every implementation
    /// the library reasons about overrides this; the default stands in
    /// for implementations outside the verified crate.
    open spec fn sent(&self) -> Seq<Seq<u8>> {
        Seq::empty()
    }

    /// Send all of `buf` to the device, or fail without delivering it.
    /// A timeout expiry is reported as an error.
    fn send(&mut self, buf: &[u8], timeout_ms: u64) -> (r: Result<(), PrinterError>)
        ensures
            r is Ok ==> final(self).sent() == old(self).sent().push(buf@),
            r is Err ==> final(self).sent() == old(self).sent(),
    ;

    /// Receive at most `buf.len()` bytes from the device into the front of
    /// `buf`, returning how many were received; fewer arrive if the
    /// timeout elapses or the peer supplies less.
    fn recv(&mut self, buf: &mut Vec<u8>, timeout_ms: u64) -> (r: Result<usize, PrinterError>)
        ensures
            final(self).sent() == old(self).sent(),
            final(buf)@.len() == old(buf)@.len(),
            r matches Ok(n) ==> n <= old(buf)@.len(),
    ;

    /// Pause for `ms` milliseconds without touching the device. The
    /// chunked print pipeline uses this between chunks for thermal
    /// throttling.
    fn wait(&mut self, ms: u64)
        ensures
            final(self).sent() == old(self).sent(),
    ;

    /// Reserve the device for exclusive use for the duration of one
    /// printer operation. Fails with a claim error when the device is
    /// busy or unavailable.
    fn claim(&mut self) -> (r: Result<(), PrinterError>)
        ensures
            final(self).sent() == old(self).sent(),
    ;

    /// Give up the reservation taken by `claim`. The printer ignores a
    /// failure here, so that it never masks the operation's own result.
    fn release(&mut self) -> (r: Result<(), PrinterError>)
        ensures
            final(self).sent() == old(self).sent(),
    ;
}

/// An in-memory transport: it records every sent buffer and answers
/// receives from a fixed script of responses, one per receive, in order.
/// Once the script is exhausted, receives return zero bytes.
pub struct MockBackend {
    sends: Vec<Vec<u8>>,
    responses: Vec<Vec<u8>>,
    cursor: usize,
}

impl MockBackend {
    /// The scripted responses that have not been consumed yet.
    pub closed spec fn remaining_responses(&self) -> Seq<Seq<u8>> {
        self.responses@.map_values(|v: Vec<u8>| v@).skip(self.cursor as int)
    }

    /// A mock transport that will answer successive receives with
    /// `responses`, in order.
    pub fn new(responses: Vec<Vec<u8>>) -> (r: MockBackend)
        ensures
            r.sent() == Seq::<Seq<u8>>::empty(),
    {
        MockBackend { sends: Vec::new(), responses, cursor: 0 }
    }

    /// The buffers sent so far, oldest first.
    pub fn sends(&self) -> (r: &Vec<Vec<u8>>)
        ensures
            r@.map_values(|v: Vec<u8>| v@) == self.sent(),
    {
        &self.sends
    }
}

impl Backend for MockBackend {
    closed spec fn sent(&self) -> Seq<Seq<u8>> {
        self.sends@.map_values(|v: Vec<u8>| v@)
    }

    fn send(&mut self, buf: &[u8], timeout_ms: u64) -> (r: Result<(), PrinterError>) {
        let copy: Vec<u8> = vstd::slice::slice_to_vec(buf);
        proof {
            assert(old(self).sends@.push(copy).map_values(|v: Vec<u8>| v@) =~= old(
                self,
            ).sends@.map_values(|v: Vec<u8>| v@).push(buf@));
        }
        self.sends.push(copy);
        Ok(())
    }

    fn recv(&mut self, buf: &mut Vec<u8>, timeout_ms: u64) -> (r: Result<usize, PrinterError>) {
        let cap = buf.len();
        if self.cursor >= self.responses.len() {
            return Ok(0);
        }
        let resp = &self.responses[self.cursor];
        let n = if resp.len() < cap {
            resp.len()
        } else {
            cap
        };
        let mut out: Vec<u8> = Vec::new();
        let mut i: usize = 0;
        while i < n
            invariant
                i <= n,
                n <= resp@.len(),
                n <= cap,
                out@ == resp@.take(i as int),
            decreases n - i,
        {
            out.push(resp[i]);
            proof {
                assert(resp@.take(i as int).push(resp@[i as int]) =~= resp@.take(i + 1));
            }
            i = i + 1;
        }
        while i < cap
            invariant
                n <= i <= cap,
                cap == old(buf)@.len(),
                out@.len() == i,
                buf@ == old(buf)@,
            decreases cap - i,
        {
            out.push(buf[i]);
            i = i + 1;
        }
        self.cursor = self.cursor + 1;
        *buf = out;
        Ok(n)
    }

    fn wait(&mut self, ms: u64) {
    }

    fn claim(&mut self) -> (r: Result<(), PrinterError>) {
        Ok(())
    }

    fn release(&mut self) -> (r: Result<(), PrinterError>) {
        Ok(())
    }
}

} // verus!
