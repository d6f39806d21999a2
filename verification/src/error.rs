//! Structured errors surfaced by the core.

use vstd::prelude::*;

verus! {

/// Errors returned by the propagation core.
///
/// Each variant carries a human-readable message.  `TleParseError` is
/// returned when a TLE fails validation, `PropagatorError` when the orbital
/// model cannot be initialized or diverges, and `InvalidTimestamp` when a
/// requested time or time window is rejected.
#[derive(Debug, Clone)]
pub enum PropagationError {
    TleParseError(String),
    PropagatorError(String),
    InvalidTimestamp(String),
}

impl PropagationError {
    /// The message carried by the error, whichever variant it is.
    pub open spec fn text(self) -> Seq<char> {
        match self {
            PropagationError::TleParseError(m) => m@,
            PropagationError::PropagatorError(m) => m@,
            PropagationError::InvalidTimestamp(m) => m@,
        }
    }

    /// Returns the error's message.
    pub fn message(&self) -> (m: String)
        ensures
            m@ == self.text(),
    {
        match self {
            PropagationError::TleParseError(s) => s.clone(),
            PropagationError::PropagatorError(s) => s.clone(),
            PropagationError::InvalidTimestamp(s) => s.clone(),
        }
    }

    /// True exactly when the error reports a malformed TLE.
    pub fn is_tle_parse_error(&self) -> (r: bool)
        ensures
            r == (self is TleParseError),
    {
        match self {
            PropagationError::TleParseError(_) => true,
            _ => false,
        }
    }
}

} // verus!
