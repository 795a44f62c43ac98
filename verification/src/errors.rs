//! The error taxonomy of the session subsystem.

use vstd::prelude::*;

verus! {

/// What went wrong while serving a request against the session store.
#[derive(Clone, Copy, Debug, PartialEq, Eq, Structural)]
pub enum SessionErrKind {
    /// The session table itself could not be reached; fatal to the request.
    StoreUnavailable,
    /// A typed attribute the handler requires is absent from the record.
    AttributeMissing,
    /// The anti-forgery value presented by a login callback does not match
    /// the one stored in the session.
    TokenMismatch,
    /// The identity provider call failed; distinct from any session error.
    UpstreamFailure,
}

/// A request-level session failure, carrying its taxonomy kind.
#[derive(Clone, Copy, Debug, PartialEq, Eq, Structural)]
pub struct SessionErr {
    pub kind: SessionErrKind,
}

impl SessionErr {
    /// Builds the error for a given kind.
    pub fn new(kind: SessionErrKind) -> (r: SessionErr)
        ensures
            r.kind == kind,
    {
        SessionErr { kind }
    }

    /// The fixed description surfaced for each kind of failure.
    pub fn describe(&self) -> (r: &'static str)
        ensures
            self.kind == SessionErrKind::StoreUnavailable ==> r@ == "unable to reach the session store"@,
            self.kind == SessionErrKind::AttributeMissing ==> r@ == "required session attribute missing"@,
            self.kind == SessionErrKind::TokenMismatch ==> r@ == "state value does not match the session"@,
            self.kind == SessionErrKind::UpstreamFailure ==> r@ == "identity provider request failed"@,
    {
        match self.kind {
            SessionErrKind::StoreUnavailable => "unable to reach the session store",
            SessionErrKind::AttributeMissing => "required session attribute missing",
            SessionErrKind::TokenMismatch => "state value does not match the session",
            SessionErrKind::UpstreamFailure => "identity provider request failed",
        }
    }
}

} // verus!
