//! The two operations on the records they are handed: creating a poll, and casting a vote.

use vstd::prelude::*;
use vstd::utf8::*;
use crate::codec::{encode, packed};
use crate::error::VotingError;
use crate::key::Key;
use crate::poll::{Poll, PollView, MAX_OPTIONS, MAX_OPTION_LENGTH, MAX_QUESTION_LENGTH, MIN_OPTIONS};
use crate::voter::{VoteCast, VoterRecord};

verus! {

/// The records that creating a poll works on: the poll's freshly allocated
/// record, and the identity of its creator.
#[derive(Clone, Copy, Debug, PartialEq, Eq)]
pub struct CreatePoll {
    pub poll: Poll,
    pub creator: Key,
}

/// The records that casting a vote works on: the poll and its key, the record
/// stored for this voter and poll, and the voter's identity.
#[derive(Clone, Copy, Debug, PartialEq, Eq)]
pub struct CastVote {
    pub poll: Poll,
    pub poll_key: Key,
    pub voter_record: VoterRecord,
    pub voter: Key,
}

/// The records that closing a poll would work on. No operation closes a poll.
#[derive(Clone, Copy, Debug, PartialEq, Eq)]
pub struct ClosePoll {
    pub poll: Poll,
    pub creator: Key,
}

/// The characters of each string.
pub open spec fn texts(strings: Seq<String>) -> Seq<Seq<char>> {
    Seq::new(strings.len(), |i: int| strings[i]@)
}

/// Whether `text` takes at most `capacity` bytes.
pub open spec fn fits(text: Seq<char>, capacity: nat) -> bool {
    encode_utf8(text).len() <= capacity
}

/// Whether a question and options may make a poll, and if not, the first reason why.
pub open spec fn create_poll_verdict(question: Seq<char>, options: Seq<Seq<char>>) -> Result<
    (),
    VotingError,
> {
    if !fits(question, MAX_QUESTION_LENGTH as nat) {
        Err(VotingError::QuestionTooLong)
    } else if options.len() < MIN_OPTIONS {
        Err(VotingError::InsufficientOptions)
    } else if options.len() > MAX_OPTIONS {
        Err(VotingError::TooManyOptions)
    } else if !(forall|i: int|
        0 <= i < options.len() ==> fits(#[trigger] options[i], MAX_OPTION_LENGTH as nat)) {
        Err(VotingError::OptionTooLong)
    } else {
        Ok(())
    }
}

/// The poll that `creator` makes at time `now` from a question and options.
pub open spec fn created_poll(
    creator: Seq<u8>,
    poll_id: u64,
    question: Seq<char>,
    options: Seq<Seq<char>>,
    now: i64,
) -> PollView {
    PollView {
        poll_id,
        creator,
        question: encode_utf8(question),
        options: Seq::new(options.len(), |i: int| encode_utf8(options[i])),
        votes: seq![0nat, 0nat, 0nat, 0nat],
        created_at: now,
    }
}

/// How a new poll fills its buffers: the question and each option left-aligned
/// over zeros, each with its length in bytes, and the option slots that it does
/// not use as `before` had them.
pub open spec fn filled(poll: Poll, before: Poll, question: Seq<char>, options: Seq<Seq<char>>) -> bool {
    &&& poll.question@ == packed(question, MAX_QUESTION_LENGTH as nat)
    &&& poll.question_length == encode_utf8(question).len()
    &&& poll.option_count == options.len()
    &&& forall|i: int|
        0 <= i < options.len() ==> (#[trigger] poll.options@[i])@ == packed(
            options[i],
            MAX_OPTION_LENGTH as nat,
        )
    &&& forall|i: int|
        0 <= i < options.len() ==> #[trigger] poll.option_lengths@[i] == encode_utf8(
            options[i],
        ).len()
    &&& forall|i: int|
        options.len() <= i < MAX_OPTIONS ==> #[trigger] poll.options@[i] == before.options@[i]
    &&& forall|i: int|
        options.len() <= i < MAX_OPTIONS ==> #[trigger] poll.option_lengths@[i]
            == before.option_lengths@[i]
}

/// Creates a poll in `ctx.poll`. The question and the options are checked before
/// anything is written; `duration` is reserved and has no effect.
#[allow(unused_variables)]
pub fn create_poll(
    ctx: &mut CreatePoll,
    poll_id: u64,
    question: String,
    options: Vec<String>,
    duration: i64,
    now: i64,
) -> (r: Result<(), VotingError>)
    ensures
        r == create_poll_verdict(question@, texts(options@)),
        r is Err ==> *final(ctx) == *old(ctx),
        r is Ok ==> {
            &&& final(ctx).creator == old(ctx).creator
            &&& final(ctx).poll.wf()
            &&& final(ctx).poll@ == created_poll(
                old(ctx).creator@,
                poll_id,
                question@,
                texts(options@),
                now,
            )
            &&& filled(final(ctx).poll, old(ctx).poll, question@, texts(options@))
        },
{
    let (question_buffer, question_length) = match encode::<MAX_QUESTION_LENGTH>(question.as_str()) {
        Ok(pair) => pair,
        Err(_) => {
            return Err(VotingError::QuestionTooLong);
        },
    };
    let count: usize = options.len();
    if count < MIN_OPTIONS {
        return Err(VotingError::InsufficientOptions);
    }
    if count > MAX_OPTIONS {
        return Err(VotingError::TooManyOptions);
    }
    let mut slots: [[u8; MAX_OPTION_LENGTH]; MAX_OPTIONS] = ctx.poll.options;
    let mut lengths: [u8; MAX_OPTIONS] = ctx.poll.option_lengths;
    let mut i: usize = 0;
    while i < count
        invariant
            count == options@.len(),
            MIN_OPTIONS <= count <= MAX_OPTIONS,
            i <= count,
            fits(question@, MAX_QUESTION_LENGTH as nat),
            *ctx == *old(ctx),
            forall|j: int|
                0 <= j < i ==> fits(#[trigger] texts(options@)[j], MAX_OPTION_LENGTH as nat),
            forall|j: int|
                0 <= j < i ==> (#[trigger] slots@[j])@ == packed(
                    texts(options@)[j],
                    MAX_OPTION_LENGTH as nat,
                ),
            forall|j: int|
                0 <= j < i ==> #[trigger] lengths@[j] == encode_utf8(texts(options@)[j]).len(),
            forall|j: int| i <= j < MAX_OPTIONS ==> #[trigger] slots@[j] == ctx.poll.options@[j],
            forall|j: int|
                i <= j < MAX_OPTIONS ==> #[trigger] lengths@[j] == ctx.poll.option_lengths@[j],
        decreases count - i,
    {
        match encode::<MAX_OPTION_LENGTH>(options[i].as_str()) {
            Ok((buffer, length)) => {
                slots[i] = buffer;
                lengths[i] = length as u8;
            },
            Err(_) => {
                assert(!fits(texts(options@)[i as int], MAX_OPTION_LENGTH as nat));
                return Err(VotingError::OptionTooLong);
            },
        }
        i += 1;
    }
    ctx.poll = Poll {
        poll_id,
        creator: ctx.creator,
        question: question_buffer,
        question_length: question_length as u16,
        options: slots,
        option_lengths: lengths,
        votes: [0u64; MAX_OPTIONS],
        option_count: count as u8,
        created_at: now,
    };
    proof {
        let made = created_poll(old(ctx).creator@, poll_id, question@, texts(options@), now);
        assert(ctx.poll@.question =~= made.question);
        assert(ctx.poll@.votes =~= made.votes);
        assert forall|j: int| 0 <= j < count implies #[trigger] ctx.poll@.options[j]
            == made.options[j] by {
            assert(slots@[j]@ == packed(texts(options@)[j], MAX_OPTION_LENGTH as nat));
            assert(ctx.poll@.options[j] =~= made.options[j]);
        }
        assert(ctx.poll@.options =~= made.options);
    }
    Ok(())
}

/// What casting a vote for `option_index` answers on the given records.
pub open spec fn cast_vote_verdict(ctx: CastVote, option_index: u8, now: i64) -> Result<
    VoteCast,
    VotingError,
> {
    if option_index >= ctx.poll.option_count {
        Err(VotingError::InvalidOption)
    } else if ctx.voter_record.has_voted {
        Err(VotingError::AlreadyVoted)
    } else {
        Ok(VoteCast { poll: ctx.poll_key, voter: ctx.voter, option_index, timestamp: now })
    }
}

/// Whether `after` is `before` with one more vote for the option at `index`, and
/// nothing else changed.
pub open spec fn counted(after: Poll, before: Poll, index: int) -> bool {
    &&& after.votes@ == before.votes@.update(index, (before.votes@[index] + 1) as u64)
    &&& after.poll_id == before.poll_id
    &&& after.creator == before.creator
    &&& after.question == before.question
    &&& after.question_length == before.question_length
    &&& after.options == before.options
    &&& after.option_lengths == before.option_lengths
    &&& after.option_count == before.option_count
    &&& after.created_at == before.created_at
}

/// Counting a vote in the record counts it in what the record says.
pub proof fn lemma_counted_view(after: Poll, before: Poll, index: int)
    requires
        counted(after, before, index),
        0 <= index < MAX_OPTIONS,
        before.votes@[index] < u64::MAX,
    ensures
        after@ == before@.with_vote(index),
        before.wf() ==> after.wf(),
{
    assert(after@.votes =~= before@.with_vote(index).votes);
    assert(after@.options =~= before@.options);
}

/// Casts the vote of `ctx.voter` for the option at `option_index`: counts it in
/// the poll, fills the voter's record, and returns the notice to send out. A
/// refused vote changes nothing.
pub fn cast_vote(ctx: &mut CastVote, option_index: u8, now: i64) -> (r: Result<
    VoteCast,
    VotingError,
>)
    requires
        cast_vote_verdict(*old(ctx), option_index, now) is Ok ==> option_index < MAX_OPTIONS
            && old(ctx).poll.votes@[option_index as int] < u64::MAX,
    ensures
        r == cast_vote_verdict(*old(ctx), option_index, now),
        r is Err ==> *final(ctx) == *old(ctx),
        r is Ok ==> {
            &&& counted(final(ctx).poll, old(ctx).poll, option_index as int)
            &&& final(ctx).poll@ == old(ctx).poll@.with_vote(option_index as int)
            &&& final(ctx).voter_record == VoterRecord::spec_cast(
                old(ctx).poll_key,
                old(ctx).voter,
                option_index,
                now,
            )
            &&& final(ctx).poll_key == old(ctx).poll_key
            &&& final(ctx).voter == old(ctx).voter
        },
{
    if option_index >= ctx.poll.option_count {
        return Err(VotingError::InvalidOption);
    }
    if ctx.voter_record.has_voted {
        return Err(VotingError::AlreadyVoted);
    }
    let mut votes: [u64; MAX_OPTIONS] = ctx.poll.votes;
    votes[option_index as usize] = votes[option_index as usize] + 1;
    ctx.poll.votes = votes;
    proof {
        lemma_counted_view(ctx.poll, old(ctx).poll, option_index as int);
    }
    ctx.voter_record =
    VoterRecord {
        has_voted: true,
        voted_option: option_index,
        voted_at: now,
        voter: ctx.voter,
        poll: ctx.poll_key,
    };
    Ok(VoteCast { poll: ctx.poll_key, voter: ctx.voter, option_index, timestamp: now })
}

} // verus!
