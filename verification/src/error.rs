//! The library's error type: a message, as the connection handler reports it.

use vstd::prelude::*;

verus! {

/// An error surfaced to the connection handler; it carries a diagnostic
/// message and ends the current connection's loop.
#[derive(Debug)]
pub enum Error {
    Error(String),
}

impl Error {
    /// Wrap a message, as an error.
    pub fn custom(msg: String) -> (e: Error)
        ensures
            e matches Error::Error(m) && m@ == msg@,
    {
        Error::Error(msg)
    }

    /// Wrap a borrowed message, as an error.
    pub fn custom_str(msg: &str) -> (e: Error)
        ensures
            e matches Error::Error(m) && m@ == msg@,
    {
        Error::Error(msg.to_owned())
    }

    /// The diagnostic message carried by this error.
    pub fn message(&self) -> (m: &String)
        ensures
            self matches Error::Error(s) && m@ == s@,
    {
        match self {
            Error::Error(m) => m,
        }
    }
}

} // verus!
