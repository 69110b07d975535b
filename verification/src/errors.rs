use vstd::prelude::*;

verus! {

/// The failure kinds that registry and lifecycle operations report.
#[derive(Clone, Copy, Debug, PartialEq, Eq, Structural)]
pub enum ErrorKind {
    /// A read, write or create of persistent state failed.
    Io,
    /// An unknown instance id, or an account that is not bound where binding is required.
    NotFound,
    /// A duplicate data directory, or an attempt to delete the default instance.
    Conflict,
    /// The registry's mutation lock is unusable.
    Lock,
    /// The executable could not be resolved, or spawning it failed.
    Launch,
    /// The application is still alive after the full shutdown escalation.
    Termination,
}

/// An operation failure: a kind for the caller's control flow,
/// and a free-text message for presentation.
#[derive(Debug)]
pub struct OpError {
    pub kind: ErrorKind,
    pub message: String,
}

impl OpError {
    pub fn new(kind: ErrorKind, message: String) -> (r: OpError)
        ensures
            r.kind == kind,
            r.message@ == message@,
    {
        OpError { kind, message }
    }

    pub fn kind(&self) -> (k: ErrorKind)
        ensures
            k == self.kind,
    {
        self.kind
    }

    pub fn message(&self) -> (m: String)
        ensures
            m@ == self.message@,
    {
        self.message.clone()
    }
}

} // verus!
