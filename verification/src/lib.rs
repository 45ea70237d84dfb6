//! A minimal polling service over fixed-size records: polls with two to four
//! bounded options, and at most one vote per identity and poll.
//!
//! - `codec`: text in fixed-size buffers with an explicit length.
//! - `poll`, `voter`: the records.
//! - `instructions`: creating a poll and casting a vote, on the records handed in.
//! - `key`: identities, and the derivation of a record's storage key.
//! - `store`: records under keys, created only where the key is free.
//! - `ledger`: the two operations as transactions on the records of one program.
//! - `layout`: the stored form of the records.
//! - `laws`: what holds of the operations together.

pub mod codec;
pub mod error;
pub mod instructions;
pub mod key;
pub mod laws;
pub mod layout;
pub mod ledger;
pub mod poll;
pub mod store;
pub mod voter;

pub use error::VotingError;
pub use instructions::{cast_vote, create_poll, CastVote, ClosePoll, CreatePoll};
pub use key::Key;
pub use ledger::Ledger;
pub use poll::Poll;
pub use voter::{VoteCast, VoterRecord};
