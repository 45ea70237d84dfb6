//! The ways in which an operation can be refused.

use vstd::prelude::*;

verus! {

/// Why an operation was refused. Every refusal leaves all records as they were.
#[derive(Clone, Copy, Debug, PartialEq, Eq, Hash)]
pub enum VotingError {
    /// Fewer than two options were given.
    InsufficientOptions,
    /// More than four options were given.
    TooManyOptions,
    /// The question takes more than 200 bytes.
    QuestionTooLong,
    /// An option takes more than 30 bytes.
    OptionTooLong,
    /// The option index does not name an option of the poll.
    InvalidOption,
    /// The voter has a record for this poll already.
    AlreadyVoted,
    /// The caller may not perform the action.
    Unauthorized,
    /// The creator has a poll under this number already.
    DuplicatePoll,
    /// No poll is stored under the given key.
    PollNotFound,
    /// No storage key could be derived for the record.
    AddressUnavailable,
}

} // verus!
