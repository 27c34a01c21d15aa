//! Watching a response for silence: a reader takes chunks from a pump, and
//! fails when nothing arrives for too long. A response that keeps coming is
//! never interrupted; only silence is.

use vstd::prelude::*;

use crate::text;
use crate::text::decimal;

verus! {

/// What waiting for the pump came to.
#[derive(Debug)]
pub enum PumpEvent {
    /// Bytes arrived; none at all mark the end of the response.
    Chunk(Vec<u8>),
    /// Reading failed.
    Failed(String),
    /// Nothing arrived in time.
    Silence,
}

/// What a read is served with.
#[derive(Debug, Clone, Copy, PartialEq, Eq, Structural)]
pub enum Want {
    /// Bytes that are there.
    Serve,
    /// The end of the response.
    End,
    /// What the pump brings next.
    Wait,
}

/// The bytes that arrived and were not read yet.
#[derive(Debug)]
pub struct IdleBuffer {
    buffer: Vec<u8>,
    offset: usize,
    done: bool,
    idle_secs: u64,
}

/// What a silent endpoint is reported with.
pub open spec fn silence_text(idle_secs: u64) -> Seq<char> {
    "no data received for "@ + decimal(idle_secs as nat)
        + "s (idle timeout; the endpoint may be stalled)"@
}

impl IdleBuffer {
    /// The bytes that arrived and were not read yet.
    pub closed spec fn pending(&self) -> Seq<u8> {
        self.buffer@.skip(self.offset as int)
    }

    /// Whether the response is over.
    pub closed spec fn is_done(&self) -> bool {
        self.done
    }

    /// The seconds of silence that fail a response.
    pub closed spec fn patience(&self) -> u64 {
        self.idle_secs
    }

    /// No more was read than has arrived.
    pub closed spec fn wf(&self) -> bool {
        self.offset <= self.buffer@.len()
    }

    /// A buffer before the first byte.
    pub fn new(idle_secs: u64) -> (buffer: Self)
        ensures
            buffer.wf(),
            buffer.pending() == Seq::<u8>::empty(),
            !buffer.is_done(),
            buffer.patience() == idle_secs,
    {
        let buffer = IdleBuffer { buffer: Vec::new(), offset: 0, done: false, idle_secs };
        assert(buffer.pending() =~= Seq::<u8>::empty());
        buffer
    }

    /// What the next read is served with.
    pub fn want(&self) -> (want: Want)
        requires
            self.wf(),
        ensures
            want == if self.pending().len() > 0 {
                Want::Serve
            } else if self.is_done() {
                Want::End
            } else {
                Want::Wait
            },
    {
        if self.offset < self.buffer.len() {
            Want::Serve
        } else if self.done {
            Want::End
        } else {
            Want::Wait
        }
    }

    /// Take in what waiting for the pump came to, when nothing is pending:
    /// whether there are bytes to serve, or why the read fails. Behind the
    /// end, a failure or silence nothing more is waited for.
    pub fn accept(&mut self, event: PumpEvent) -> (more: Result<bool, String>)
        requires
            old(self).wf(),
            old(self).pending().len() == 0,
        ensures
            final(self).wf(),
            final(self).patience() == old(self).patience(),
            match event {
                PumpEvent::Chunk(chunk) => {
                    &&& more is Ok
                    &&& more->Ok_0 == (chunk@.len() > 0)
                    &&& final(self).pending() == chunk@
                    &&& final(self).is_done() == (old(self).is_done() || chunk@.len() == 0)
                },
                PumpEvent::Failed(error) => {
                    &&& more is Err
                    &&& more->Err_0 == error
                    &&& final(self).pending().len() == 0
                    &&& final(self).is_done()
                },
                PumpEvent::Silence => {
                    &&& more is Err
                    &&& more->Err_0@ == silence_text(old(self).patience())
                    &&& final(self).pending().len() == 0
                    &&& final(self).is_done()
                },
            },
    {
        match event {
            PumpEvent::Chunk(chunk) => {
                if chunk.len() == 0 {
                    self.done = true;
                    assert(self.pending() =~= chunk@);
                    Ok(false)
                } else {
                    let ghost bytes = chunk@;
                    self.buffer = chunk;
                    self.offset = 0;
                    assert(self.pending() =~= bytes);
                    Ok(true)
                }
            },
            PumpEvent::Failed(error) => {
                self.done = true;
                Err(error)
            },
            PumpEvent::Silence => {
                self.done = true;
                let mut error = "no data received for ".to_owned();
                error.append(text::decimal_text(self.idle_secs).as_str());
                error.append("s (idle timeout; the endpoint may be stalled)");
                Err(error)
            },
        }
    }

    /// Take at most `max` of the pending bytes, in order.
    pub fn take(&mut self, max: usize) -> (bytes: Vec<u8>)
        requires
            old(self).wf(),
        ensures
            final(self).wf(),
            final(self).patience() == old(self).patience(),
            final(self).is_done() == old(self).is_done(),
            bytes@.len() == if old(self).pending().len() < max {
                old(self).pending().len() as int
            } else {
                max as int
            },
            bytes@ + final(self).pending() == old(self).pending(),
    {
        let len: usize = self.buffer.len();
        let left: usize = len - self.offset;
        let count: usize = if left < max {
            left
        } else {
            max
        };
        let ghost before = self.pending();
        let mut bytes: Vec<u8> = Vec::new();
        let mut i: usize = 0;
        while i < count
            invariant
                *self == *old(self),
                self.wf(),
                len == self.buffer@.len(),
                self.offset + count <= len,
                before == self.pending(),
                i <= count,
                bytes@ =~= before.take(i as int),
            decreases count - i,
        {
            bytes.push(self.buffer[self.offset + i]);
            i += 1;
        }
        self.offset = self.offset + count;
        assert(bytes@ + self.pending() =~= before);
        bytes
    }
}

}
