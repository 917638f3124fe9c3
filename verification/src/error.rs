//! Errors the routing core reports to its callers.

use vstd::prelude::*;

verus! {

/// What went wrong, with a message for the operator.
///
/// `Config` covers a missing or invalid provider, no current provider set,
/// and every candidate being circuit-open. `Persistence` covers a failing
/// health-store read or write. `Probe` covers a transport failure or a
/// non-success status during a connectivity test.
#[derive(Debug)]
pub enum AppError {
    Config(String),
    Persistence(String),
    Probe(String),
}

impl AppError {
    /// The message carried by the error, whichever kind it is.
    pub open spec fn message_view(self) -> Seq<char> {
        match self {
            AppError::Config(m) => m@,
            AppError::Persistence(m) => m@,
            AppError::Probe(m) => m@,
        }
    }

    /// Reads the error's message.
    pub fn message(&self) -> (m: &str)
        ensures
            m@ == self.message_view(),
    {
        match self {
            AppError::Config(m) => m.as_str(),
            AppError::Persistence(m) => m.as_str(),
            AppError::Probe(m) => m.as_str(),
        }
    }
}

impl Clone for AppError {
    fn clone(&self) -> (r: Self)
        ensures
            r == *self,
    {
        match self {
            AppError::Config(m) => AppError::Config(m.clone()),
            AppError::Persistence(m) => AppError::Persistence(m.clone()),
            AppError::Probe(m) => AppError::Probe(m.clone()),
        }
    }
}

} // verus!
