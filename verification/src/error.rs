//! Error kinds shared across the engine.

use vstd::prelude::*;

verus! {

/// The error kinds of the engine.
///
/// `InvalidArgument` marks malformed input (parse failure, unknown algorithm
/// name, missing metadata) and is recoverable by the caller. `Io` carries a
/// file or network failure as a message. `Internal` marks codec failures,
/// protocol mismatches, state-store errors and unexpected frame kinds, all
/// fatal to the current job.
#[derive(Debug, Clone)]
pub enum GeaFlowError {
    InvalidArgument(String),
    Io(String),
    Internal(String),
}

impl GeaFlowError {
    /// The free-form message carried by the error.
    pub fn message(&self) -> (r: String)
        ensures
            r@ == self.message_spec(),
    {
        match self {
            GeaFlowError::InvalidArgument(m) => m.clone(),
            GeaFlowError::Io(m) => m.clone(),
            GeaFlowError::Internal(m) => m.clone(),
        }
    }

    /// The message of the error, as a sequence of characters.
    pub open spec fn message_spec(&self) -> Seq<char> {
        match self {
            GeaFlowError::InvalidArgument(m) => m@,
            GeaFlowError::Io(m) => m@,
            GeaFlowError::Internal(m) => m@,
        }
    }

    /// Whether the error is the recoverable, caller-facing kind.
    pub open spec fn is_invalid_argument(&self) -> bool {
        self is InvalidArgument
    }
}

pub type GeaFlowResult<T> = Result<T, GeaFlowError>;

} // verus!
