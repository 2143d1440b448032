//! The ways in which a call on the engine can fail.
use vstd::prelude::*;

verus! {

/// Why a call was rejected. Every rejection leaves the engine's state as it was.
///
/// The stores of this crate live in memory and cannot fail, so no function of
/// this crate returns `StorageError`. It is for hosts that keep the records
/// elsewhere, to report a failure of their own accessor in the same terms.
#[derive(Clone, Copy, Debug, PartialEq, Eq, Structural)]
pub enum Error {
    /// The address already has an agent.
    AlreadyRegistered,
    /// The address has no agent.
    NotRegistered,
    /// An agent cannot be registered with a stake of zero.
    InvalidStake,
    /// More stake was asked back than the agent holds.
    InsufficientStake,
    /// A belief needs a question.
    EmptyQuestion,
    /// A probability above `SCALE`; at genesis also a belief id so large that
    /// the id counter has no room above it.
    ValueOutOfRange,
    /// No belief has the given id.
    NotFound,
    /// The submitter's weight is zero.
    ZeroWeight,
    /// The host's storage accessor failed.
    StorageError,
}

impl Error {
    /// The text of each error.
    pub open spec fn message_spec(self) -> Seq<char> {
        match self {
            Error::AlreadyRegistered => "Agent already registered"@,
            Error::NotRegistered => "Agent not registered"@,
            Error::InvalidStake => "Initial stake must be greater than zero"@,
            Error::InsufficientStake => "Insufficient stake balance"@,
            Error::EmptyQuestion => "Question cannot be empty"@,
            Error::ValueOutOfRange => "Value must be between 0 and 10000"@,
            Error::NotFound => "Belief not found"@,
            Error::ZeroWeight => "Agent has no weight (stake × score = 0)"@,
            Error::StorageError => "Storage accessor failed"@,
        }
    }

    /// A short description for logs and transaction receipts.
    pub fn message(&self) -> (msg: &'static str)
        ensures
            msg@ == self.message_spec(),
    {
        match self {
            Error::AlreadyRegistered => "Agent already registered",
            Error::NotRegistered => "Agent not registered",
            Error::InvalidStake => "Initial stake must be greater than zero",
            Error::InsufficientStake => "Insufficient stake balance",
            Error::EmptyQuestion => "Question cannot be empty",
            Error::ValueOutOfRange => "Value must be between 0 and 10000",
            Error::NotFound => "Belief not found",
            Error::ZeroWeight => "Agent has no weight (stake × score = 0)",
            Error::StorageError => "Storage accessor failed",
        }
    }
}

} // verus!
