use vstd::prelude::*;

use crate::codec::{decode_step, encode_frame, encoded, wanted, FrameError, Reader, MAX_FRAME_LEN};
use crate::endpoint::Endpoint;

verus! {

/// What the server relay is started with.
#[derive(Debug, Clone, Copy)]
pub struct ServerArgs {
    /// The stream address to listen on.
    pub address: Endpoint,
    /// The UDP address that every session forwards to.
    pub target: Endpoint,
}

/// What a session asks its event loop to do, in the abstract.
pub enum SessionStep {
    Write(Seq<u8>),
    Send(Seq<u8>),
    Continue,
    End,
    Fail(FrameError),
}

/// What a session asks its event loop to do.
#[derive(Debug)]
pub enum SessionAction {
    /// Write `frame` to the stream and flush; a failure ends the session.
    Write { frame: Vec<u8> },
    /// Send `payload` to the target as one datagram; a failure ends the session.
    Send { payload: Vec<u8> },
    /// Wait for the next event.
    Continue,
    /// The peer closed the stream between two frames: the session ends well.
    End,
    /// The session ends with this error.
    Fail(FrameError),
}

impl View for SessionAction {
    type V = SessionStep;

    open spec fn view(&self) -> SessionStep {
        match self {
            SessionAction::Write { frame } => SessionStep::Write(frame@),
            SessionAction::Send { payload } => SessionStep::Send(payload@),
            SessionAction::Continue => SessionStep::Continue,
            SessionAction::End => SessionStep::End,
            SessionAction::Fail(e) => SessionStep::Fail(*e),
        }
    }
}

/// A datagram `p` came from the target: it goes to the stream as one frame,
/// or, too long for a frame, ends the session.
pub open spec fn session_on_datagram(p: Seq<u8>) -> SessionStep {
    if p.len() <= MAX_FRAME_LEN {
        SessionStep::Write(encoded(p))
    } else {
        SessionStep::Fail(FrameError::TooLong)
    }
}

/// Bytes `d` came from the stream, whose frame in progress holds `q`: a frame
/// that they complete goes to the target.
pub open spec fn session_on_stream_data(q: Seq<u8>, d: Seq<u8>) -> (Seq<u8>, SessionStep) {
    let (q2, out) = decode_step(q, d);
    match out {
        Some(f) => (q2, SessionStep::Send(f)),
        None => (q2, SessionStep::Continue),
    }
}

/// The stream ended: well between two frames, with an error inside one.
pub open spec fn session_on_stream_end(q: Seq<u8>) -> SessionStep {
    if q.len() == 0 {
        SessionStep::End
    } else {
        SessionStep::Fail(FrameError::UnexpectedEof)
    }
}

/// The decisions of one server session, which bridges one accepted stream to
/// the target. Each session owns its state alone.
pub struct Session {
    reader: Reader,
}

impl View for Session {
    type V = Seq<u8>;

    /// The bytes of the frame in progress on the stream.
    closed spec fn view(&self) -> Seq<u8> {
        self.reader@
    }
}

impl Session {
    /// The session's consistency: that of its decoder.
    pub closed spec fn inv(&self) -> bool {
        self.reader.inv()
    }

    /// A session on a stream that has delivered nothing yet.
    pub fn new() -> (r: Session)
        ensures
            r.inv(),
            r@ == Seq::<u8>::empty(),
    {
        Session { reader: Reader::new() }
    }

    /// The most bytes that the next read of the stream may hand over.
    pub fn want(&self) -> (r: usize)
        requires
            self.inv(),
        ensures
            r == wanted(self@),
            r > 0,
    {
        self.reader.want()
    }

    /// A datagram `payload` came from the target.
    pub fn on_datagram(&self, payload: &[u8]) -> (r: SessionAction)
        ensures
            r@ == session_on_datagram(payload@),
    {
        match encode_frame(payload) {
            Ok(frame) => SessionAction::Write { frame },
            Err(e) => SessionAction::Fail(e),
        }
    }

    /// One read of the stream delivered `data`.
    pub fn on_stream_data(&mut self, data: &[u8]) -> (r: SessionAction)
        requires
            old(self).inv(),
            data@.len() <= wanted(old(self)@),
        ensures
            final(self).inv(),
            (final(self)@, r@) == session_on_stream_data(old(self)@, data@),
    {
        match self.reader.read(data) {
            Some(payload) => SessionAction::Send { payload },
            None => SessionAction::Continue,
        }
    }

    /// The stream ended.
    pub fn on_stream_end(&self) -> (r: SessionAction)
        requires
            self.inv(),
        ensures
            r@ == session_on_stream_end(self@),
    {
        match self.reader.finish() {
            Ok(()) => SessionAction::End,
            Err(e) => SessionAction::Fail(e),
        }
    }
}

/// A stream that ends right after a read that completed a frame ends the
/// session well; one that ends with bytes of a next frame held ends it with an
/// error.
pub proof fn lemma_end_on_frame_boundary(q: Seq<u8>, d: Seq<u8>)
    ensures
        decode_step(q, d).1 is Some ==> session_on_stream_end(session_on_stream_data(q, d).0)
            == SessionStep::End,
        decode_step(q, d).0.len() > 0 ==> session_on_stream_end(session_on_stream_data(q, d).0)
            == SessionStep::Fail(FrameError::UnexpectedEof),
{
}

} // verus!
