use vstd::prelude::*;

verus! {

/// The only recoverable failure the codec reports: the input bytes do not
/// form a well-formed datagram. Carries a human-readable reason.
/// Programmer errors (layer mismatch, clock moving backward) are excluded by
/// preconditions instead and never surface as a `Fail`.
#[derive(Debug, Clone, PartialEq, Eq)]
pub enum Fail {
    Malformed { details: &'static str },
}

impl Fail {
    /// The human-readable reason carried by this failure.
    pub fn details(&self) -> (r: &'static str)
        ensures
            self matches Fail::Malformed { details } && r == details,
    {
        match self {
            Fail::Malformed { details } => details,
        }
    }
}

} // verus!
