//! The state of one client connection: it reads one framed request, then
//! writes one framed response, then closes.
use vstd::prelude::*;

use crate::frame::{decode_frame, encode_frame, frame_complete, frame_of, frame_payload, ProtocolError};

verus! {

#[derive(Clone, Copy, Debug, PartialEq, Eq, Structural)]
pub enum Phase {
    AwaitingHeader,
    AwaitingPayload,
    Decoded,
    ResponsePending,
    Closed,
}

/// The reading phase after the bytes `received` have arrived.
pub open spec fn reading_phase(received: Seq<u8>) -> Phase {
    if received.len() < 8 {
        Phase::AwaitingHeader
    } else if !frame_complete(received) {
        Phase::AwaitingPayload
    } else {
        Phase::Decoded
    }
}

pub struct Connection {
    received: Vec<u8>,
    phase: Phase,
    response: Vec<u8>,
    written: usize,
}

impl Connection {
    /// Bytes read from the client so far.
    pub closed spec fn received_spec(&self) -> Seq<u8> {
        self.received@
    }

    pub closed spec fn phase_spec(&self) -> Phase {
        self.phase
    }

    /// The framed response, once there is one.
    pub closed spec fn response_spec(&self) -> Seq<u8> {
        self.response@
    }

    /// How many bytes of the response have been written.
    pub closed spec fn written_spec(&self) -> nat {
        self.written as nat
    }

    /// While reading, the phase follows from the bytes received; while
    /// writing, the written count stays within the response.
    pub open spec fn wf(&self) -> bool {
        &&& (self.phase_spec() == Phase::AwaitingHeader || self.phase_spec() == Phase::AwaitingPayload
            || self.phase_spec() == Phase::Decoded) ==> self.phase_spec() == reading_phase(
            self.received_spec(),
        )
        &&& self.phase_spec() == Phase::ResponsePending ==> self.written_spec()
            <= self.response_spec().len()
    }

    /// A freshly accepted connection.
    pub fn new() -> (r: Connection)
        ensures
            r.wf(),
            r.phase_spec() == Phase::AwaitingHeader,
            r.received_spec().len() == 0,
    {
        Connection { received: Vec::new(), phase: Phase::AwaitingHeader, response: Vec::new(), written: 0 }
    }

    pub fn phase(&self) -> (r: Phase)
        ensures
            r == self.phase_spec(),
    {
        self.phase
    }

    /// Takes the bytes of `chunk` while the request is being read; once the
    /// frame is complete, further bytes are not read.
    pub fn receive(&mut self, chunk: &[u8])
        requires
            old(self).wf(),
        ensures
            final(self).wf(),
            old(self).phase_spec() == Phase::AwaitingHeader || old(self).phase_spec()
                == Phase::AwaitingPayload ==> final(self).received_spec() == old(self).received_spec()
                + chunk@ && final(self).phase_spec() == reading_phase(final(self).received_spec()),
            !(old(self).phase_spec() == Phase::AwaitingHeader || old(self).phase_spec()
                == Phase::AwaitingPayload) ==> *final(self) == *old(self),
    {
        if self.phase != Phase::AwaitingHeader && self.phase != Phase::AwaitingPayload {
            return;
        }
        let ghost before = self.received@;
        let mut i: usize = 0;
        while i < chunk.len()
            invariant
                0 <= i <= chunk@.len(),
                self.received@ == before + chunk@.subrange(0, i as int),
            decreases chunk@.len() - i,
        {
            self.received.push(chunk[i]);
            i = i + 1;
            assert(self.received@ =~= before + chunk@.subrange(0, i as int));
        }
        assert(chunk@.subrange(0, i as int) =~= chunk@);
        self.phase = match decode_frame(self.received.as_slice()) {
            Ok(_) => Phase::Decoded,
            Err(_) => if self.received.len() < 8 {
                Phase::AwaitingHeader
            } else {
                Phase::AwaitingPayload
            },
        };
    }

    /// The client closed its side. A request that is still incomplete is a
    /// `TruncatedFrame`, and the connection is dropped.
    pub fn end_of_stream(&mut self) -> (r: Result<(), ProtocolError>)
        requires
            old(self).wf(),
        ensures
            final(self).wf(),
            final(self).received_spec() == old(self).received_spec(),
            old(self).phase_spec() == Phase::AwaitingHeader || old(self).phase_spec()
                == Phase::AwaitingPayload ==> r == Err::<(), ProtocolError>(ProtocolError::TruncatedFrame)
                && final(self).phase_spec() == Phase::Closed,
            !(old(self).phase_spec() == Phase::AwaitingHeader || old(self).phase_spec()
                == Phase::AwaitingPayload) ==> r.is_ok() && *final(self) == *old(self),
    {
        if self.phase == Phase::AwaitingHeader || self.phase == Phase::AwaitingPayload {
            self.phase = Phase::Closed;
            return Err(ProtocolError::TruncatedFrame);
        }
        Ok(())
    }

    /// The request payload, once the whole frame has arrived.
    pub fn request(&self) -> (r: Option<Vec<u8>>)
        requires
            self.wf(),
        ensures
            self.phase_spec() == Phase::Decoded ==> r.is_some() && r.unwrap()@ == frame_payload(
                self.received_spec(),
            ),
            self.phase_spec() != Phase::Decoded ==> r.is_none(),
    {
        if self.phase != Phase::Decoded {
            return None;
        }
        match decode_frame(self.received.as_slice()) {
            Ok(p) => Some(p),
            Err(_) => None,
        }
    }

    /// The request could not be decoded: the connection is dropped.
    pub fn reject(&mut self) -> (r: ProtocolError)
        ensures
            r == ProtocolError::UndecodablePayload,
            final(self).phase_spec() == Phase::Closed,
            final(self).received_spec() == old(self).received_spec(),
    {
        self.phase = Phase::Closed;
        ProtocolError::UndecodablePayload
    }

    /// Queues the framed response `payload` after a decoded request.
    pub fn respond(&mut self, payload: &[u8]) -> (r: bool)
        requires
            old(self).wf(),
            payload@.len() <= u64::MAX,
        ensures
            final(self).wf(),
            r == (old(self).phase_spec() == Phase::Decoded),
            r ==> final(self).phase_spec() == Phase::ResponsePending && final(self).response_spec()
                == frame_of(payload@) && final(self).written_spec() == 0,
            !r ==> *final(self) == *old(self),
    {
        if self.phase != Phase::Decoded {
            return false;
        }
        self.response = encode_frame(payload);
        self.written = 0;
        self.phase = Phase::ResponsePending;
        true
    }

    /// The part of the response not yet written.
    pub fn unsent(&self) -> (r: &[u8])
        requires
            self.wf(),
            self.phase_spec() == Phase::ResponsePending,
        ensures
            r@ == self.response_spec().subrange(self.written_spec() as int, self.response_spec().len() as int),
    {
        vstd::slice::slice_subrange(self.response.as_slice(), self.written, self.response.len())
    }

    /// `n` more bytes of the response were written; the connection closes
    /// once all of it is out.
    pub fn wrote(&mut self, n: usize)
        requires
            old(self).wf(),
            old(self).phase_spec() == Phase::ResponsePending,
            old(self).written_spec() + n <= old(self).response_spec().len(),
        ensures
            final(self).wf(),
            final(self).response_spec() == old(self).response_spec(),
            final(self).written_spec() == old(self).written_spec() + n,
            final(self).phase_spec() == if final(self).written_spec() == final(self).response_spec().len() {
                Phase::Closed
            } else {
                Phase::ResponsePending
            },
    {
        let total = self.response.len();
        self.written = self.written + n;
        if self.written == total {
            self.phase = Phase::Closed;
        }
    }
}

} // verus!
