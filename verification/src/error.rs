//! Error type returned by the devlog library.

use vstd::prelude::*;

verus! {

/// The failures a devlog operation can report.
#[derive(Debug)]
pub enum Error {
    /// An invalid argument was passed to the command line app.
    InvalidArg(&'static str),
    /// The repository contains the maximum number of log file entries,
    /// so no more can be created.
    LogFileLimitExceeded,
    /// A filesystem operation failed; the field carries its description.
    IOError(String),
}

} // verus!
