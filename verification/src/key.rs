//! Identities and storage keys: 32-byte values, and the derivation of a record's
//! key from the seeds that name it.

use vstd::prelude::*;
use vstd::bytes::*;

verus! {

/// The number of bytes in a key.
pub const KEY_LENGTH: usize = 32;

/// The seed that marks the key of a poll record: the ASCII text `poll`.
pub const POLL_SEED: [u8; 4] = [112, 111, 108, 108];

/// The seed that marks the key of a voter record: the ASCII text `voter`.
pub const VOTER_SEED: [u8; 5] = [118, 111, 116, 101, 114];

/// An identity or a storage key.
#[derive(Clone, Copy, Debug, PartialEq, Eq, Hash)]
pub struct Key {
    pub bytes: [u8; KEY_LENGTH],
}

impl View for Key {
    type V = Seq<u8>;

    open spec fn view(&self) -> Seq<u8> {
        self.bytes@
    }
}

/// The address that `Pubkey::try_find_program_address` derives from a list of
/// seeds under a program, where it finds one.
pub uninterp spec fn derived_address(seeds: Seq<Seq<u8>>, program: Seq<u8>) -> Option<Seq<u8>>;

/// The views of an optional key.
pub open spec fn key_view(key: Option<Key>) -> Option<Seq<u8>> {
    match key {
        Some(k) => Some(k@),
        None => None,
    }
}

/// The key of the poll that `creator` made under the number `poll_id`.
pub open spec fn spec_poll_address(program: Seq<u8>, creator: Seq<u8>, poll_id: u64) -> Option<
    Seq<u8>,
> {
    derived_address(seq![POLL_SEED@, creator, spec_u64_to_le_bytes(poll_id)], program)
}

/// The key of the record that marks the vote of `voter` on the poll at `poll`.
pub open spec fn spec_voter_address(program: Seq<u8>, poll: Seq<u8>, voter: Seq<u8>) -> Option<
    Seq<u8>,
> {
    derived_address(seq![VOTER_SEED@, poll, voter], program)
}

/// Calls `Pubkey::try_find_program_address` on three seeds and keeps the address,
/// dropping the bump seed. The contract claims only that the outcome, found or
/// not, is a function of the seeds and the program.
#[verifier::external_body]
fn find_address(tag: &[u8], first: &[u8], second: &[u8], program: &Key) -> (r: Option<Key>)
    ensures
        key_view(r) == derived_address(seq![tag@, first@, second@], program@),
{
    let program_id = anchor_lang::prelude::Pubkey::new_from_array(program.bytes);
    match anchor_lang::prelude::Pubkey::try_find_program_address(
        &[tag, first, second],
        &program_id,
    ) {
        Some((address, _)) => Some(Key { bytes: address.to_bytes() }),
        None => None,
    }
}

impl Key {
    /// The key made of the given bytes.
    pub fn new(bytes: [u8; KEY_LENGTH]) -> (key: Key)
        ensures
            key.bytes == bytes,
    {
        Key { bytes }
    }

    /// Whether two keys hold the same bytes.
    pub fn same(&self, other: &Key) -> (r: bool)
        ensures
            r == (self@ == other@),
            r == (*self == *other),
    {
        let mut i: usize = 0;
        while i < KEY_LENGTH
            invariant
                i <= KEY_LENGTH,
                forall|j: int| 0 <= j < i ==> self.bytes@[j] == other.bytes@[j],
            decreases KEY_LENGTH - i,
        {
            if self.bytes[i] != other.bytes[i] {
                return false;
            }
            i += 1;
        }
        assert(self.bytes@ =~= other.bytes@);
        assert(self.bytes =~= other.bytes);
        true
    }
}

/// Derives the key of the poll that `creator` makes under the number `poll_id`.
pub fn poll_address(program: &Key, creator: &Key, poll_id: u64) -> (r: Option<Key>)
    ensures
        key_view(r) == spec_poll_address(program@, creator@, poll_id),
{
    let number = u64_to_le_bytes(poll_id);
    find_address(&POLL_SEED, &creator.bytes, number.as_slice(), program)
}

/// Derives the key of the record that marks the vote of `voter` on the poll at `poll`.
pub fn voter_address(program: &Key, poll: &Key, voter: &Key) -> (r: Option<Key>)
    ensures
        key_view(r) == spec_voter_address(program@, poll@, voter@),
{
    find_address(&VOTER_SEED, &poll.bytes, &voter.bytes, program)
}

} // verus!
