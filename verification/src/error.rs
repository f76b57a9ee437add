//! The error type of the command-line operations.

use vstd::prelude::*;

verus! {

/// Errors surfaced to the command line.
#[derive(Debug)]
pub enum Error {
    /// A user-facing failure with a message for the terminal.
    Cli(String),
}

/// The message an error carries.
pub open spec fn error_message(e: Error) -> Seq<char> {
    match e {
        Error::Cli(m) => m@,
    }
}

/// Result alias for fallible command-line operations.
pub type Result<T> = core::result::Result<T, Error>;

} // verus!
