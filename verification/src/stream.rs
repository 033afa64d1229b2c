//! The incremental reader: a growable buffer of unconsumed bytes and a
//! try-parse step over it. The caller feeds bytes as they arrive, retries
//! while the parser wants more, and switches to a complete-mode parse when
//! the source reports the end of its data. No byte is parsed twice: a
//! successful parse drops exactly the consumed prefix, and what remains
//! stays buffered for the next message.

use vstd::prelude::*;

verus! {

use crate::error::Error;
use crate::parse::{spec_request, StepV};
use crate::parser::parse_request;
use crate::request::Request;

/// One attempt to parse the buffered bytes.
pub enum ParseStep {
    /// A full request was parsed and its bytes consumed.
    Done(Request),
    /// The buffer holds no full request yet; feed more bytes and retry.
    NeedMore,
    /// The buffered bytes cannot begin a request.
    Failed,
}

/// A parse buffer over a byte source that delivers data in arbitrary
/// fragments.
pub struct StreamParser {
    pub buffer: Vec<u8>,
}

impl StreamParser {
    /// An empty buffer.
    pub fn new() -> (p: StreamParser)
        ensures
            p.buffer@ == Seq::<u8>::empty(),
    {
        let buffer: Vec<u8> = Vec::new();
        proof {
            assert(buffer@ =~= Seq::<u8>::empty());
        }
        StreamParser { buffer }
    }

    /// Append bytes read from the source.
    pub fn feed(&mut self, data: &[u8])
        ensures
            final(self).buffer@ == old(self).buffer@ + data@,
    {
        self.buffer.extend_from_slice(data);
    }

    /// Try to parse one request from the buffered bytes, in partial mode:
    /// the end of the buffer may just mean that more bytes have not arrived
    /// yet. On success exactly the consumed prefix leaves the buffer; any
    /// other answer leaves the buffer untouched.
    pub fn parse(&mut self) -> (r: ParseStep)
        ensures
            match spec_request(old(self).buffer@, 0, false) {
                StepV::Done { v, next } => r matches ParseStep::Done(req) && req@ == v
                    && final(self).buffer@ == old(self).buffer@.skip(next),
                StepV::More => r is NeedMore && final(self).buffer@ == old(self).buffer@,
                StepV::Fail => r is Failed && final(self).buffer@ == old(self).buffer@,
            },
    {
        match parse_request(&self.buffer, 0, false) {
            crate::parse::Step::Done { value, next } => {
                proof {
                    crate::parse::lemma_request_bounds(self.buffer@, 0, false);
                }
                let tail = self.buffer.split_off(next);
                self.buffer = tail;
                ParseStep::Done(value)
            },
            crate::parse::Step::More => ParseStep::NeedMore,
            crate::parse::Step::Fail => ParseStep::Failed,
        }
    }

    /// Parse one request from exactly the buffered bytes: the end of the
    /// buffer is the end of the input. On success exactly the consumed
    /// prefix leaves the buffer; on failure the buffer stays as it is and
    /// the error names the problem.
    pub fn parse_complete(&mut self) -> (r: Result<Request, Error>)
        ensures
            match spec_request(old(self).buffer@, 0, true) {
                StepV::Done { v, next } => r matches Ok(req) && req@ == v && final(self).buffer@
                    == old(self).buffer@.skip(next),
                StepV::More => r is Err && final(self).buffer@ == old(self).buffer@,
                StepV::Fail => r is Err && final(self).buffer@ == old(self).buffer@,
            },
    {
        match parse_request(&self.buffer, 0, true) {
            crate::parse::Step::Done { value, next } => {
                proof {
                    crate::parse::lemma_request_bounds(self.buffer@, 0, true);
                }
                let tail = self.buffer.split_off(next);
                self.buffer = tail;
                Ok(value)
            },
            crate::parse::Step::More => Err(Error::custom_str("unexpected eof")),
            crate::parse::Step::Fail => Err(Error::custom_str("malformed request")),
        }
    }

    /// The unconsumed bytes, as they stand.
    pub fn complete_buffer(&self) -> (r: &Vec<u8>)
        ensures
            r@ == self.buffer@,
    {
        &self.buffer
    }
}

} // verus!
