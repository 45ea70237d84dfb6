//! The stored form of the records: fixed-size byte layouts, integers little-endian.

use vstd::prelude::*;
use vstd::bytes::*;
use vstd::slice::slice_subrange;
use crate::key::{Key, KEY_LENGTH};
use crate::poll::{Poll, MAX_OPTIONS, MAX_OPTION_LENGTH, MAX_QUESTION_LENGTH};
use crate::voter::{VoteCast, VoterRecord};

verus! {

/// The number of bytes in a stored poll.
pub const POLL_SIZE: usize = 407;

/// The number of bytes in a stored voter record.
pub const VOTER_RECORD_SIZE: usize = 74;

/// The number of bytes in the notice of a vote.
pub const VOTE_CAST_SIZE: usize = 73;

/// The 64 bits of a signed integer in two's complement, as an unsigned one.
pub open spec fn spec_i64_bits(x: i64) -> u64 {
    if x >= 0 {
        x as u64
    } else {
        (x + 0x1_0000_0000_0000_0000) as u64
    }
}

/// The signed integer whose two's complement has the given 64 bits.
pub open spec fn spec_i64_of_bits(bits: u64) -> i64 {
    if bits <= 0x7fff_ffff_ffff_ffff {
        bits as i64
    } else {
        (bits - 0x1_0000_0000_0000_0000) as i64
    }
}

/// The eight bytes of a signed integer, little-endian.
pub open spec fn spec_i64_to_le_bytes(x: i64) -> Seq<u8> {
    spec_u64_to_le_bytes(spec_i64_bits(x))
}

/// The byte that stands for a truth value.
pub open spec fn spec_bool_byte(b: bool) -> u8 {
    if b {
        1
    } else {
        0
    }
}

/// The stored form of a poll: 407 bytes.
pub open spec fn poll_layout(poll: Poll) -> Seq<u8> {
    spec_u64_to_le_bytes(poll.poll_id) + poll.creator@ + poll.question@ + spec_u16_to_le_bytes(
        poll.question_length,
    ) + poll.options@[0]@ + poll.options@[1]@ + poll.options@[2]@ + poll.options@[3]@
        + poll.option_lengths@ + spec_u64_to_le_bytes(poll.votes@[0]) + spec_u64_to_le_bytes(
        poll.votes@[1],
    ) + spec_u64_to_le_bytes(poll.votes@[2]) + spec_u64_to_le_bytes(poll.votes@[3])
        + seq![poll.option_count] + spec_i64_to_le_bytes(poll.created_at)
}

/// The stored form of a voter record: 74 bytes.
pub open spec fn voter_record_layout(record: VoterRecord) -> Seq<u8> {
    seq![spec_bool_byte(record.has_voted), record.voted_option] + spec_i64_to_le_bytes(
        record.voted_at,
    ) + record.voter@ + record.poll@
}

/// The form in which the notice of a vote is sent: 73 bytes.
pub open spec fn vote_cast_layout(event: VoteCast) -> Seq<u8> {
    event.poll@ + event.voter@ + seq![event.option_index] + spec_i64_to_le_bytes(event.timestamp)
}

/// The bits of a signed integer, as an unsigned one.
fn i64_bits(x: i64) -> (bits: u64)
    ensures
        bits == spec_i64_bits(x),
{
    if x >= 0 {
        x as u64
    } else {
        ((x - i64::MIN) as u64) + 0x8000_0000_0000_0000u64
    }
}

/// The signed integer with the given bits.
fn i64_of_bits(bits: u64) -> (x: i64)
    ensures
        x == spec_i64_of_bits(bits),
        spec_i64_bits(x) == bits,
{
    if bits <= 0x7fff_ffff_ffff_ffffu64 {
        bits as i64
    } else {
        ((bits - 0x8000_0000_0000_0000u64) as i64) + i64::MIN
    }
}

/// Writes `bytes` at the end of `out`.
fn append(out: &mut Vec<u8>, bytes: &[u8])
    ensures
        final(out)@ == old(out)@ + bytes@,
{
    let mut i: usize = 0;
    while i < bytes.len()
        invariant
            i <= bytes@.len(),
            out@ == old(out)@ + bytes@.take(i as int),
        decreases bytes@.len() - i,
    {
        out.push(bytes[i]);
        i += 1;
        assert(out@ =~= old(out)@ + bytes@.take(i as int));
    }
    assert(bytes@.take(i as int) =~= bytes@);
}

/// Writes the eight bytes of `x`, little-endian, at the end of `out`.
fn append_u64(out: &mut Vec<u8>, x: u64)
    ensures
        final(out)@ == old(out)@ + spec_u64_to_le_bytes(x),
{
    let bytes = u64_to_le_bytes(x);
    append(out, bytes.as_slice());
}

/// The `N` bytes that start at `at`.
fn read<const N: usize>(bytes: &[u8], at: usize) -> (out: [u8; N])
    requires
        at + N <= bytes@.len(),
    ensures
        out@ == bytes@.subrange(at as int, at + N),
{
    let total: usize = bytes.len();
    let mut out: [u8; N] = [0u8; N];
    let mut i: usize = 0;
    while i < N
        invariant
            i <= N,
            at + N <= total == bytes@.len(),
            forall|j: int| 0 <= j < i ==> out@[j] == bytes@[at + j],
        decreases N - i,
    {
        out[i] = bytes[at + i];
        i += 1;
    }
    assert(out@ =~= bytes@.subrange(at as int, at + N));
    out
}

/// The integer whose eight bytes, little-endian, start at `at`.
fn read_u64(bytes: &[u8], at: usize) -> (x: u64)
    requires
        at + 8 <= bytes@.len(),
    ensures
        spec_u64_to_le_bytes(x) == bytes@.subrange(at as int, at + 8),
{
    proof {
        lemma_auto_spec_u64_to_from_le_bytes();
    }
    let total: usize = bytes.len();
    u64_from_le_bytes(slice_subrange(bytes, at, at + 8))
}

/// The signed integer whose eight bytes, little-endian, start at `at`.
fn read_i64(bytes: &[u8], at: usize) -> (x: i64)
    requires
        at + 8 <= bytes@.len(),
    ensures
        spec_i64_to_le_bytes(x) == bytes@.subrange(at as int, at + 8),
{
    i64_of_bits(read_u64(bytes, at))
}

/// Two byte sequences that begin with pieces of one length are equal only if
/// the pieces are equal and what follows them is.
proof fn lemma_split(a: Seq<u8>, x: Seq<u8>, b: Seq<u8>, y: Seq<u8>)
    requires
        a + x == b + y,
        x.len() == y.len(),
    ensures
        a == b,
        x == y,
{
    let n = a.len() as int;
    assert(a.len() == b.len()) by {
        assert((a + x).len() == (b + y).len());
    }
    assert(a =~= (a + x).subrange(0, n));
    assert(b =~= (b + y).subrange(0, n));
    assert(x =~= (a + x).subrange(n, (a + x).len() as int));
    assert(y =~= (b + y).subrange(n, (b + y).len() as int));
}

/// A signed integer is told by its eight bytes.
proof fn lemma_i64_bytes_injective(x: i64, y: i64)
    requires
        spec_i64_to_le_bytes(x) == spec_i64_to_le_bytes(y),
    ensures
        x == y,
{
    lemma_auto_spec_u64_to_from_le_bytes();
    assert(spec_u64_from_le_bytes(spec_u64_to_le_bytes(spec_i64_bits(x))) == spec_i64_bits(x));
    assert(spec_u64_from_le_bytes(spec_u64_to_le_bytes(spec_i64_bits(y))) == spec_i64_bits(y));
}

/// An unsigned integer is told by its eight bytes.
proof fn lemma_u64_bytes_injective(x: u64, y: u64)
    requires
        spec_u64_to_le_bytes(x) == spec_u64_to_le_bytes(y),
    ensures
        x == y,
{
    lemma_auto_spec_u64_to_from_le_bytes();
    assert(spec_u64_from_le_bytes(spec_u64_to_le_bytes(x)) == x);
    assert(spec_u64_from_le_bytes(spec_u64_to_le_bytes(y)) == y);
}

/// A 16-bit integer is told by its two bytes.
proof fn lemma_u16_bytes_injective(x: u16, y: u16)
    requires
        spec_u16_to_le_bytes(x) == spec_u16_to_le_bytes(y),
    ensures
        x == y,
{
    lemma_auto_spec_u16_to_from_le_bytes();
    assert(spec_u16_to_le_bytes(x).len() == 2 && spec_u16_to_le_bytes(y).len() == 2);
}

impl VoterRecord {
    /// The stored form of the record.
    pub fn to_bytes(&self) -> (bytes: Vec<u8>)
        ensures
            bytes@ == voter_record_layout(*self),
            bytes@.len() == VOTER_RECORD_SIZE,
    {
        proof {
            lemma_auto_spec_u64_to_from_le_bytes();
        }
        let mut out: Vec<u8> = Vec::with_capacity(VOTER_RECORD_SIZE);
        out.push(if self.has_voted { 1u8 } else { 0u8 });
        out.push(self.voted_option);
        assert(out@ =~= seq![spec_bool_byte(self.has_voted), self.voted_option]);
        append_u64(&mut out, i64_bits(self.voted_at));
        append(&mut out, &self.voter.bytes);
        append(&mut out, &self.poll.bytes);
        out
    }

    /// The record that `bytes` store: there is one where they are 74 and the
    /// first, the truth value, is 0 or 1.
    pub fn from_bytes(bytes: &[u8]) -> (record: Option<VoterRecord>)
        ensures
            record is Some <==> bytes@.len() == VOTER_RECORD_SIZE && bytes@[0] <= 1,
            record matches Some(r) ==> voter_record_layout(r) == bytes@,
    {
        if bytes.len() != VOTER_RECORD_SIZE {
            return None;
        }
        if bytes[0] > 1 {
            return None;
        }
        let record = VoterRecord {
            has_voted: bytes[0] == 1,
            voted_option: bytes[1],
            voted_at: read_i64(bytes, 2),
            voter: Key { bytes: read::<KEY_LENGTH>(bytes, 10) },
            poll: Key { bytes: read::<KEY_LENGTH>(bytes, 42) },
        };
        assert(voter_record_layout(record) =~= bytes@);
        Some(record)
    }
}

impl VoteCast {
    /// The form in which the notice is sent.
    pub fn to_bytes(&self) -> (bytes: Vec<u8>)
        ensures
            bytes@ == vote_cast_layout(*self),
            bytes@.len() == VOTE_CAST_SIZE,
    {
        proof {
            lemma_auto_spec_u64_to_from_le_bytes();
        }
        let mut out: Vec<u8> = Vec::with_capacity(VOTE_CAST_SIZE);
        append(&mut out, &self.poll.bytes);
        append(&mut out, &self.voter.bytes);
        out.push(self.option_index);
        assert(out@ =~= self.poll@ + self.voter@ + seq![self.option_index]);
        append_u64(&mut out, i64_bits(self.timestamp));
        out
    }

    /// The notice that `bytes` carry: there is one where they are 73.
    pub fn from_bytes(bytes: &[u8]) -> (event: Option<VoteCast>)
        ensures
            event is Some <==> bytes@.len() == VOTE_CAST_SIZE,
            event matches Some(e) ==> vote_cast_layout(e) == bytes@,
    {
        if bytes.len() != VOTE_CAST_SIZE {
            return None;
        }
        let event = VoteCast {
            poll: Key { bytes: read::<KEY_LENGTH>(bytes, 0) },
            voter: Key { bytes: read::<KEY_LENGTH>(bytes, 32) },
            option_index: bytes[64],
            timestamp: read_i64(bytes, 65),
        };
        assert(vote_cast_layout(event) =~= bytes@);
        Some(event)
    }
}

impl Poll {
    /// The stored form of the poll.
    pub fn to_bytes(&self) -> (bytes: Vec<u8>)
        ensures
            bytes@ == poll_layout(*self),
            bytes@.len() == POLL_SIZE,
    {
        proof {
            lemma_auto_spec_u64_to_from_le_bytes();
            lemma_auto_spec_u16_to_from_le_bytes();
        }
        let mut out: Vec<u8> = Vec::with_capacity(POLL_SIZE);
        append_u64(&mut out, self.poll_id);
        assert(out@ =~= spec_u64_to_le_bytes(self.poll_id));
        append(&mut out, &self.creator.bytes);
        append(&mut out, &self.question);
        let length = u16_to_le_bytes(self.question_length);
        append(&mut out, length.as_slice());
        append(&mut out, &self.options[0]);
        append(&mut out, &self.options[1]);
        append(&mut out, &self.options[2]);
        append(&mut out, &self.options[3]);
        append(&mut out, &self.option_lengths);
        append_u64(&mut out, self.votes[0]);
        append_u64(&mut out, self.votes[1]);
        append_u64(&mut out, self.votes[2]);
        append_u64(&mut out, self.votes[3]);
        let ghost before = out@;
        out.push(self.option_count);
        assert(out@ =~= before + seq![self.option_count]);
        append_u64(&mut out, i64_bits(self.created_at));
        out
    }

    /// The poll that `bytes` store: there is one where they are 407. Whether it
    /// is well-formed is not looked at.
    pub fn from_bytes(bytes: &[u8]) -> (poll: Option<Poll>)
        ensures
            poll is Some <==> bytes@.len() == POLL_SIZE,
            poll matches Some(p) ==> poll_layout(p) == bytes@,
    {
        if bytes.len() != POLL_SIZE {
            return None;
        }
        proof {
            lemma_auto_spec_u16_to_from_le_bytes();
        }
        let poll = Poll {
            poll_id: read_u64(bytes, 0),
            creator: Key { bytes: read::<KEY_LENGTH>(bytes, 8) },
            question: read::<MAX_QUESTION_LENGTH>(bytes, 40),
            question_length: u16_from_le_bytes(slice_subrange(bytes, 240, 242)),
            options: [
                read::<MAX_OPTION_LENGTH>(bytes, 242),
                read::<MAX_OPTION_LENGTH>(bytes, 272),
                read::<MAX_OPTION_LENGTH>(bytes, 302),
                read::<MAX_OPTION_LENGTH>(bytes, 332),
            ],
            option_lengths: read::<MAX_OPTIONS>(bytes, 362),
            votes: [
                read_u64(bytes, 366),
                read_u64(bytes, 374),
                read_u64(bytes, 382),
                read_u64(bytes, 390),
            ],
            option_count: bytes[398],
            created_at: read_i64(bytes, 399),
        };
        assert(poll_layout(poll) =~= bytes@);
        Some(poll)
    }
}

/// Every record has the size of its kind in stored form.
pub proof fn lemma_layout_sizes(poll: Poll, record: VoterRecord, event: VoteCast)
    ensures
        poll_layout(poll).len() == POLL_SIZE,
        voter_record_layout(record).len() == VOTER_RECORD_SIZE,
        vote_cast_layout(event).len() == VOTE_CAST_SIZE,
{
    lemma_auto_spec_u64_to_from_le_bytes();
    lemma_auto_spec_u16_to_from_le_bytes();
    assert(spec_u16_to_le_bytes(poll.question_length).len() == 2);
}

/// A voter record is told by its stored form: two records with the same bytes
/// are the same record, so reading what was written gives the record back.
pub proof fn lemma_voter_record_layout_injective(a: VoterRecord, b: VoterRecord)
    requires
        voter_record_layout(a) == voter_record_layout(b),
    ensures
        a == b,
{
    lemma_auto_spec_u64_to_from_le_bytes();
    let a0 = seq![spec_bool_byte(a.has_voted), a.voted_option];
    let b0 = seq![spec_bool_byte(b.has_voted), b.voted_option];
    let a1 = a0 + spec_i64_to_le_bytes(a.voted_at);
    let b1 = b0 + spec_i64_to_le_bytes(b.voted_at);
    lemma_split(a1 + a.voter@, a.poll@, b1 + b.voter@, b.poll@);
    lemma_split(a1, a.voter@, b1, b.voter@);
    lemma_split(a0, spec_i64_to_le_bytes(a.voted_at), b0, spec_i64_to_le_bytes(b.voted_at));
    lemma_i64_bytes_injective(a.voted_at, b.voted_at);
    assert(a0[0] == b0[0] && a0[1] == b0[1]);
    assert(a.voter.bytes =~= b.voter.bytes);
    assert(a.poll.bytes =~= b.poll.bytes);
}

/// The notice of a vote is told by the form in which it is sent.
pub proof fn lemma_vote_cast_layout_injective(a: VoteCast, b: VoteCast)
    requires
        vote_cast_layout(a) == vote_cast_layout(b),
    ensures
        a == b,
{
    lemma_auto_spec_u64_to_from_le_bytes();
    let a1 = a.poll@ + a.voter@;
    let b1 = b.poll@ + b.voter@;
    let a2 = a1 + seq![a.option_index];
    let b2 = b1 + seq![b.option_index];
    lemma_split(a2, spec_i64_to_le_bytes(a.timestamp), b2, spec_i64_to_le_bytes(b.timestamp));
    lemma_split(a1, seq![a.option_index], b1, seq![b.option_index]);
    lemma_split(a.poll@, a.voter@, b.poll@, b.voter@);
    lemma_i64_bytes_injective(a.timestamp, b.timestamp);
    assert(seq![a.option_index][0] == seq![b.option_index][0]);
    assert(a.voter.bytes =~= b.voter.bytes);
    assert(a.poll.bytes =~= b.poll.bytes);
}

/// A poll is told by its stored form, padding included: two polls with the same
/// bytes are the same poll, so reading what was written gives the poll back.
pub proof fn lemma_poll_layout_injective(a: Poll, b: Poll)
    requires
        poll_layout(a) == poll_layout(b),
    ensures
        a == b,
{
    lemma_auto_spec_u64_to_from_le_bytes();
    lemma_auto_spec_u16_to_from_le_bytes();
    let a1 = spec_u64_to_le_bytes(a.poll_id) + a.creator@;
    let b1 = spec_u64_to_le_bytes(b.poll_id) + b.creator@;
    let a2 = a1 + a.question@;
    let b2 = b1 + b.question@;
    let a3 = a2 + spec_u16_to_le_bytes(a.question_length);
    let b3 = b2 + spec_u16_to_le_bytes(b.question_length);
    let a4 = a3 + a.options@[0]@;
    let b4 = b3 + b.options@[0]@;
    let a5 = a4 + a.options@[1]@;
    let b5 = b4 + b.options@[1]@;
    let a6 = a5 + a.options@[2]@;
    let b6 = b5 + b.options@[2]@;
    let a7 = a6 + a.options@[3]@;
    let b7 = b6 + b.options@[3]@;
    let a8 = a7 + a.option_lengths@;
    let b8 = b7 + b.option_lengths@;
    let a9 = a8 + spec_u64_to_le_bytes(a.votes@[0]);
    let b9 = b8 + spec_u64_to_le_bytes(b.votes@[0]);
    let a10 = a9 + spec_u64_to_le_bytes(a.votes@[1]);
    let b10 = b9 + spec_u64_to_le_bytes(b.votes@[1]);
    let a11 = a10 + spec_u64_to_le_bytes(a.votes@[2]);
    let b11 = b10 + spec_u64_to_le_bytes(b.votes@[2]);
    let a12 = a11 + spec_u64_to_le_bytes(a.votes@[3]);
    let b12 = b11 + spec_u64_to_le_bytes(b.votes@[3]);
    let a13 = a12 + seq![a.option_count];
    let b13 = b12 + seq![b.option_count];
    assert(spec_u16_to_le_bytes(a.question_length).len() == 2);
    assert(spec_u16_to_le_bytes(b.question_length).len() == 2);
    lemma_split(a13, spec_i64_to_le_bytes(a.created_at), b13, spec_i64_to_le_bytes(b.created_at));
    lemma_split(a12, seq![a.option_count], b12, seq![b.option_count]);
    lemma_split(a11, spec_u64_to_le_bytes(a.votes@[3]), b11, spec_u64_to_le_bytes(b.votes@[3]));
    lemma_split(a10, spec_u64_to_le_bytes(a.votes@[2]), b10, spec_u64_to_le_bytes(b.votes@[2]));
    lemma_split(a9, spec_u64_to_le_bytes(a.votes@[1]), b9, spec_u64_to_le_bytes(b.votes@[1]));
    lemma_split(a8, spec_u64_to_le_bytes(a.votes@[0]), b8, spec_u64_to_le_bytes(b.votes@[0]));
    lemma_split(a7, a.option_lengths@, b7, b.option_lengths@);
    lemma_split(a6, a.options@[3]@, b6, b.options@[3]@);
    lemma_split(a5, a.options@[2]@, b5, b.options@[2]@);
    lemma_split(a4, a.options@[1]@, b4, b.options@[1]@);
    lemma_split(a3, a.options@[0]@, b3, b.options@[0]@);
    lemma_split(a2, spec_u16_to_le_bytes(a.question_length), b2, spec_u16_to_le_bytes(b.question_length));
    lemma_split(a1, a.question@, b1, b.question@);
    lemma_split(spec_u64_to_le_bytes(a.poll_id), a.creator@, spec_u64_to_le_bytes(b.poll_id), b.creator@);
    lemma_i64_bytes_injective(a.created_at, b.created_at);
    lemma_u64_bytes_injective(a.poll_id, b.poll_id);
    lemma_u16_bytes_injective(a.question_length, b.question_length);
    lemma_u64_bytes_injective(a.votes@[0], b.votes@[0]);
    lemma_u64_bytes_injective(a.votes@[1], b.votes@[1]);
    lemma_u64_bytes_injective(a.votes@[2], b.votes@[2]);
    lemma_u64_bytes_injective(a.votes@[3], b.votes@[3]);
    assert(seq![a.option_count][0] == seq![b.option_count][0]);
    assert(a.creator.bytes =~= b.creator.bytes);
    assert(a.question =~= b.question);
    assert(a.option_lengths =~= b.option_lengths);
    assert(a.votes =~= b.votes);
    assert(a.options@[0] =~= b.options@[0]);
    assert(a.options@[1] =~= b.options@[1]);
    assert(a.options@[2] =~= b.options@[2]);
    assert(a.options@[3] =~= b.options@[3]);
    assert(a.options =~= b.options);
}

} // verus!
