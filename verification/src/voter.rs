//! The record that marks a vote, and the notice that a vote was cast.

use vstd::prelude::*;
use crate::key::{Key, KEY_LENGTH};

verus! {

/// The marker that an identity has voted on a poll. It is stored under a key
/// derived from the poll and the voter, so at most one exists for each pair.
#[derive(Clone, Copy, Debug, PartialEq, Eq)]
pub struct VoterRecord {
    pub has_voted: bool,
    pub voted_option: u8,
    pub voted_at: i64,
    pub voter: Key,
    pub poll: Key,
}

/// The notice sent out when a vote has been cast.
#[derive(Clone, Copy, Debug, PartialEq, Eq)]
pub struct VoteCast {
    pub poll: Key,
    pub voter: Key,
    pub option_index: u8,
    pub timestamp: i64,
}

impl VoterRecord {
    /// The size of a stored record in bytes: an 8-byte header, then the fields.
    pub const LEN: usize = 8 + 1 + 1 + 8 + 32 + 32;

    /// Whether the record is as freshly allocated storage holds it: all zero.
    pub open spec fn is_blank(self) -> bool {
        &&& !self.has_voted
        &&& self.voted_option == 0
        &&& self.voted_at == 0
        &&& self.voter@ == Seq::new(KEY_LENGTH as nat, |i: int| 0u8)
        &&& self.poll@ == Seq::new(KEY_LENGTH as nat, |i: int| 0u8)
    }

    /// The record of a vote for `option_index`, cast by `voter` on the poll at `poll` at time `now`.
    pub open spec fn spec_cast(poll: Key, voter: Key, option_index: u8, now: i64) -> VoterRecord {
        VoterRecord { has_voted: true, voted_option: option_index, voted_at: now, voter, poll }
    }

    /// A record as it stands in freshly allocated storage.
    pub fn blank() -> (record: VoterRecord)
        ensures
            record.is_blank(),
    {
        let record = VoterRecord {
            has_voted: false,
            voted_option: 0,
            voted_at: 0,
            voter: Key { bytes: [0u8; KEY_LENGTH] },
            poll: Key { bytes: [0u8; KEY_LENGTH] },
        };
        assert(record.voter@ =~= Seq::new(KEY_LENGTH as nat, |i: int| 0u8));
        assert(record.poll@ =~= Seq::new(KEY_LENGTH as nat, |i: int| 0u8));
        record
    }
}

} // verus!
