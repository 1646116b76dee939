use vstd::prelude::*;

verus! {

/// The failures that can abort an invocation. Parse and read failures of the
/// persisted reset record are deliberately absent: they are absorbed into
/// "no reset on record" and never surface.
#[derive(Clone, Copy, PartialEq, Eq, Structural, Debug)]
pub enum UptError {
    /// The operating system could not report the time since boot.
    SystemQuery,
    /// The per-user storage location could not be resolved.
    HomeResolution,
    /// The persisted reset record could not be written.
    PersistedWrite,
    /// The terminal could not be controlled in watch mode.
    TerminalControl,
}

impl UptError {
    pub open spec fn spec_message(self) -> Seq<char> {
        match self {
            UptError::SystemQuery => "could not determine the system boot time"@,
            UptError::HomeResolution => "impossible to get your home dir"@,
            UptError::PersistedWrite => "could not reset the uptime"@,
            UptError::TerminalControl => "could not control the terminal"@,
        }
    }

    /// A human-readable description, reported on standard error by callers.
    pub fn message(&self) -> (r: &'static str)
        ensures
            r@ == self.spec_message(),
    {
        match self {
            UptError::SystemQuery => "could not determine the system boot time",
            UptError::HomeResolution => "impossible to get your home dir",
            UptError::PersistedWrite => "could not reset the uptime",
            UptError::TerminalControl => "could not control the terminal",
        }
    }
}

} // verus!
