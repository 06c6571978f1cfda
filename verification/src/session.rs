//! The session state machine: one long-lived renderer process, one
//! strictly sequential request/response exchange at a time over its pair
//! of pipes. The pipe writes and reads themselves happen outside the
//! library; the caller reports each outcome back and this type decides
//! what it means and what may happen next.

use vstd::prelude::*;
use vstd::string::StringSliceAdditionalSpecFns;
use crate::codec::{
    decode_response, encode_request, opt_bytes, result_view, spec_decode_response,
    spec_request_line,
};
use crate::errors::{Error, ErrorSpec};
use crate::result::RenderResult;

verus! {

/// Where a session stands: ready for a request, waiting for the one
/// response line of an issued request, or broken for good after a
/// transport failure.
#[derive(PartialEq, Eq, Structural, Clone, Copy, Debug)]
pub enum SessionPhase {
    Ready,
    AwaitingResponse,
    Broken,
}

/// One render attempt on a session: the phase it leaves behind, and
/// whether a request line is issued. A broken session refuses and stays
/// broken; a ready one issues its request and waits.
pub open spec fn spec_begin_transition(p: SessionPhase) -> (SessionPhase, bool) {
    match p {
        SessionPhase::Ready => (SessionPhase::AwaitingResponse, true),
        SessionPhase::AwaitingResponse => (SessionPhase::AwaitingResponse, false),
        SessionPhase::Broken => (SessionPhase::Broken, false),
    }
}

pub open spec fn msg_connection_closed() -> Seq<char> {
    "process closed connection"@
}

pub open spec fn msg_session_broken() -> Seq<char> {
    "session transport is broken"@
}

/// The protocol-state half of a session. The process handle and its two
/// pipes live with the caller; this type enforces the request/response
/// discipline and never recovers a broken transport.
pub struct Session {
    pub phase: SessionPhase,
}

impl Session {
    /// A fresh session, ready for its first request.
    pub fn new() -> (s: Session)
        ensures
            s.phase is Ready,
    {
        Session { phase: SessionPhase::Ready }
    }

    /// True while a request line has been issued and its response line
    /// has not been consumed yet.
    pub fn in_flight(&self) -> (b: bool)
        ensures
            b == (self.phase is AwaitingResponse),
    {
        match self.phase {
            SessionPhase::AwaitingResponse => true,
            _ => false,
        }
    }

    /// True once the transport has failed; no later call can succeed.
    pub fn is_broken(&self) -> (b: bool)
        ensures
            b == (self.phase is Broken),
    {
        match self.phase {
            SessionPhase::Broken => true,
            _ => false,
        }
    }

    /// Starts one render call: on a ready session, the encoded request
    /// line to write, and the session then waits for exactly one
    /// response line; on a broken session, a transport error. Calls are
    /// strictly sequential: a second render may not begin while one is
    /// in flight, which the precondition enforces.
    pub fn begin_render(
        &mut self,
        diagram: &str,
        format: &str,
        theme: Option<&str>,
        engine: Option<&str>,
    ) -> (r: Result<Vec<u8>, Error>)
        requires
            !(old(self).phase is AwaitingResponse),
        ensures
            final(self).phase == spec_begin_transition(old(self).phase).0,
            (r is Ok) == spec_begin_transition(old(self).phase).1,
            r matches Ok(line) ==> line@ == spec_request_line(
                diagram.spec_bytes(),
                format.spec_bytes(),
                opt_bytes(theme),
                opt_bytes(engine),
            ),
            r matches Err(e) ==> e@ == ErrorSpec::TransportError(msg_session_broken()),
    {
        match self.phase {
            SessionPhase::Broken => Err(
                Error::TransportError("session transport is broken".to_owned()),
            ),
            _ => {
                self.phase = SessionPhase::AwaitingResponse;
                Ok(encode_request(diagram, format, theme, engine))
            },
        }
    }

    /// Records that writing the request line (or flushing it) failed:
    /// the process is gone, the session is broken for good, and the
    /// reported reason becomes the transport error.
    pub fn transport_failed(&mut self, reason: String) -> (e: Error)
        requires
            old(self).phase is AwaitingResponse,
        ensures
            final(self).phase is Broken,
            e@ == ErrorSpec::TransportError(reason@),
    {
        self.phase = SessionPhase::Broken;
        Error::TransportError(reason)
    }

    /// Records that the output pipe reached end of stream before any
    /// response line came: the process closed the connection and the
    /// session is broken for good.
    pub fn connection_closed(&mut self) -> (e: Error)
        requires
            old(self).phase is AwaitingResponse,
        ensures
            final(self).phase is Broken,
            e@ == ErrorSpec::TransportError(msg_connection_closed()),
    {
        self.phase = SessionPhase::Broken;
        Error::TransportError("process closed connection".to_owned())
    }

    /// Consumes the one response line of the in-flight request and
    /// decodes it. The session is ready again afterwards, whatever the
    /// decode said: a malformed line or a renderer failure does not kill
    /// the transport.
    pub fn handle_response(&mut self, line: &[u8]) -> (r: Result<RenderResult, Error>)
        requires
            old(self).phase is AwaitingResponse,
        ensures
            final(self).phase is Ready,
            result_view(r) == spec_decode_response(line@),
            r matches Ok(rr) ==> rr@.wf(),
    {
        self.phase = SessionPhase::Ready;
        decode_response(line)
    }
}

/// The phase a session is in after some number of further render
/// attempts, each taken on the phase the one before left behind.
pub open spec fn phase_after_attempts(p: SessionPhase, n: nat) -> SessionPhase
    decreases n,
{
    if n == 0 {
        p
    } else {
        spec_begin_transition(phase_after_attempts(p, (n - 1) as nat)).0
    }
}

/// Law: a broken session never recovers. However many render attempts
/// follow, the session is still broken and the next attempt again
/// refuses to issue a request.
pub proof fn lemma_broken_session_never_recovers(p: SessionPhase, n: nat)
    requires
        p is Broken,
    ensures
        phase_after_attempts(p, n) is Broken,
        !spec_begin_transition(phase_after_attempts(p, n)).1,
    decreases n,
{
    if n > 0 {
        lemma_broken_session_never_recovers(p, (n - 1) as nat);
    }
}

} // verus!
