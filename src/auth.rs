//! Why gaining administrative privileges can fail.

use vstd::prelude::*;

verus! {

/// Why authentication failed.
#[derive(Debug)]
pub enum AuthError {
    /// The password was wrong.
    InvalidPassword,
    /// No password was given.
    Cancelled,
    /// The privilege tool could not be run.
    ProcessError(std::io::Error),
    /// There is no privilege tool.
    SudoNotFound,
}

} // verus!
