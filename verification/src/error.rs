//! Error kinds shared by all layers of the container.

use vstd::prelude::*;

verus! {

/// Why sealing or opening a container failed.
#[derive(Clone, Copy, Debug, PartialEq, Eq, Structural)]
pub enum RstfError {
    /// The credentials could not be turned into a key.
    Credential,
    /// The container or its header is malformed.
    Format,
    /// A frame did not authenticate: wrong password or keyfile, or tampering.
    Auth,
    /// The sealed stream ended before its closing frame.
    Truncation,
    /// The compression codec rejected its input.
    Compression,
    /// A frame could not be sealed: the frame counter is used up, or the
    /// sealer was closed already.
    Seal,
}

/// `result` is the value `value`.
pub open spec fn gives<T>(result: Result<T, RstfError>, value: T) -> bool {
    result == Ok::<T, RstfError>(value)
}

/// `result` is the failure `e`.
pub open spec fn fails<T>(result: Result<T, RstfError>, e: RstfError) -> bool {
    result == Err::<T, RstfError>(e)
}

/// What a call gave, as a plain value.
pub open spec fn outcome<T: View>(result: Result<T, RstfError>) -> Result<T::V, RstfError> {
    match result {
        Ok(value) => Ok(value@),
        Err(e) => Err(e),
    }
}

impl RstfError {
    /// The line that tells a user what went wrong.
    pub fn message(&self) -> (text: &'static str)
        ensures
            text@ == match self {
                RstfError::Credential => "cannot derive a key from the credentials"@,
                RstfError::Format => "not a container, or its header is damaged"@,
                RstfError::Auth => "wrong password or keyfile"@,
                RstfError::Truncation => "the container ends before its closing frame"@,
                RstfError::Compression => "the compressed payload is damaged"@,
                RstfError::Seal => "the container cannot hold more frames"@,
            },
    {
        match self {
            RstfError::Credential => "cannot derive a key from the credentials",
            RstfError::Format => "not a container, or its header is damaged",
            RstfError::Auth => "wrong password or keyfile",
            RstfError::Truncation => "the container ends before its closing frame",
            RstfError::Compression => "the compressed payload is damaged",
            RstfError::Seal => "the container cannot hold more frames",
        }
    }
}

} // verus!
