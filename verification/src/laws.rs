//! What holds of the operations together: a stored poll reads back as it was
//! written, a voter counts once, votes of different voters do not get in each
//! other's way, and distinct voters each count.

use vstd::prelude::*;
use vstd::utf8::*;
use crate::codec::unpacked;
use crate::error::VotingError;
use crate::instructions::{create_poll_verdict, created_poll, fits};
use crate::poll::{MAX_OPTIONS, MAX_OPTION_LENGTH};
use crate::key::{spec_voter_address, Key, KEY_LENGTH};
use crate::ledger::LedgerView;
use crate::voter::VoteCast;

verus! {

/// A poll reads back as it was written: where a question and options are
/// accepted, the created poll is well-formed, holds as many options as were
/// given, and its question and each option read as the text that went in.
pub proof fn lemma_created_poll_reads_back(
    creator: Seq<u8>,
    poll_id: u64,
    question: Seq<char>,
    options: Seq<Seq<char>>,
    now: i64,
)
    requires
        creator.len() == KEY_LENGTH,
        create_poll_verdict(question, options) is Ok,
    ensures
        created_poll(creator, poll_id, question, options, now).wf(),
        created_poll(creator, poll_id, question, options, now).options.len() == options.len(),
        unpacked(created_poll(creator, poll_id, question, options, now).question) == question,
        forall|i: int|
            0 <= i < options.len() ==> unpacked(
                #[trigger] created_poll(creator, poll_id, question, options, now).options[i],
            ) == options[i],
{
    let poll = created_poll(creator, poll_id, question, options, now);
    encode_utf8_valid_utf8(question);
    encode_utf8_decode_utf8(question);
    assert forall|i: int| 0 <= i < options.len() implies unpacked(#[trigger] poll.options[i])
        == options[i] by {
        encode_utf8_valid_utf8(options[i]);
        encode_utf8_decode_utf8(options[i]);
    }
    assert forall|i: int| 0 <= i < poll.options.len() implies (#[trigger] poll.options[i]).len()
        <= MAX_OPTION_LENGTH by {
        assert(fits(options[i], MAX_OPTION_LENGTH as nat));
    }
}

/// A record key takes one vote: where a vote is accepted, the tally of its option
/// grows by one and no other changes, and a later vote under the same record key
/// is refused and changes nothing, as already voted if it names an option of the poll.
pub proof fn lemma_second_vote_at_refused(
    ledger: LedgerView,
    poll_key: Key,
    voter: Key,
    record_key: Seq<u8>,
    first_option: u8,
    first_time: i64,
    second_option: u8,
    second_time: i64,
)
    requires
        ledger.wf(),
    ensures
        ({
            let first = ledger.vote_at(poll_key, voter, record_key, first_option, first_time);
            let second = first.0.vote_at(poll_key, voter, record_key, second_option, second_time);
            first.1 is Ok ==> {
                &&& first.0.polls[poll_key@].votes[first_option as int] == ledger.polls[poll_key@].votes[first_option as int]
                    + 1
                &&& forall|i: int|
                    0 <= i < MAX_OPTIONS && i != first_option ==> first.0.polls[poll_key@].votes[i]
                        == ledger.polls[poll_key@].votes[i]
                &&& second.0 == first.0
                &&& second.1 is Err
                &&& second_option < ledger.polls[poll_key@].options.len() ==> second.1 == Err::<
                    VoteCast,
                    VotingError,
                >(VotingError::AlreadyVoted)
            }
        }),
{
    let first = ledger.vote_at(poll_key, voter, record_key, first_option, first_time);
    if first.1 is Ok {
        assert(ledger.polls[poll_key@].wf());
    }
}

/// A voter counts once on a poll: where a vote is accepted, the tally of its
/// option grows by one, and a second vote of the same voter on the same poll is
/// refused and changes nothing, as already voted if it names an option of the poll.
pub proof fn lemma_second_vote_refused(
    ledger: LedgerView,
    poll_key: Key,
    voter: Key,
    first_option: u8,
    first_time: i64,
    second_option: u8,
    second_time: i64,
)
    requires
        ledger.wf(),
    ensures
        ({
            let first = ledger.vote(poll_key, voter, first_option, first_time);
            let second = first.0.vote(poll_key, voter, second_option, second_time);
            first.1 is Ok ==> {
                &&& first.0.polls[poll_key@].votes[first_option as int] == ledger.polls[poll_key@].votes[first_option as int]
                    + 1
                &&& second.0 == first.0
                &&& second.1 is Err
                &&& second_option < ledger.polls[poll_key@].options.len() ==> second.1 == Err::<
                    VoteCast,
                    VotingError,
                >(VotingError::AlreadyVoted)
            }
        }),
{
    match spec_voter_address(ledger.program, poll_key@, voter@) {
        None => {},
        Some(record_key) => {
            lemma_second_vote_at_refused(
                ledger,
                poll_key,
                voter,
                record_key,
                first_option,
                first_time,
                second_option,
                second_time,
            );
        },
    }
}

/// Votes under different record keys do not get in each other's way: taken in
/// either order, each gets the same answer and the ledger ends up the same.
pub proof fn lemma_votes_commute(
    ledger: LedgerView,
    first_poll: Key,
    first_voter: Key,
    first_key: Seq<u8>,
    first_option: u8,
    first_time: i64,
    second_poll: Key,
    second_voter: Key,
    second_key: Seq<u8>,
    second_option: u8,
    second_time: i64,
)
    requires
        ledger.wf(),
        first_key != second_key,
    ensures
        ({
            let one = ledger.vote_at(first_poll, first_voter, first_key, first_option, first_time);
            let one_two = one.0.vote_at(
                second_poll,
                second_voter,
                second_key,
                second_option,
                second_time,
            );
            let two = ledger.vote_at(
                second_poll,
                second_voter,
                second_key,
                second_option,
                second_time,
            );
            let two_one = two.0.vote_at(first_poll, first_voter, first_key, first_option, first_time);
            &&& one.1 == two_one.1
            &&& two.1 == one_two.1
            &&& one_two.0 == two_one.0
        }),
{
    let one = ledger.vote_at(first_poll, first_voter, first_key, first_option, first_time);
    let one_two = one.0.vote_at(second_poll, second_voter, second_key, second_option, second_time);
    let two = ledger.vote_at(second_poll, second_voter, second_key, second_option, second_time);
    let two_one = two.0.vote_at(first_poll, first_voter, first_key, first_option, first_time);
    if ledger.polls.dom().contains(first_poll@) {
        assert(ledger.polls[first_poll@].wf());
    }
    if ledger.polls.dom().contains(second_poll@) {
        assert(ledger.polls[second_poll@].wf());
    }
    assert(one.1 == two_one.1);
    assert(two.1 == one_two.1);
    assert(one_two.0.voters =~= two_one.0.voters);
    if one.1 is Ok && two.1 is Ok && first_poll@ == second_poll@ {
        assert(one_two.0.polls[first_poll@].votes =~= two_one.0.polls[first_poll@].votes);
    }
    assert(one_two.0.polls =~= two_one.0.polls);
}

/// The ledger after the given voters, one after another, each cast a vote for
/// the same option of one poll, the record of each going under its record key.
pub open spec fn after_votes(
    ledger: LedgerView,
    poll_key: Key,
    voters: Seq<Key>,
    record_keys: Seq<Seq<u8>>,
    option_index: u8,
    now: i64,
) -> LedgerView
    decreases voters.len(),
{
    if voters.len() == 0 {
        ledger
    } else {
        after_votes(
            ledger,
            poll_key,
            voters.drop_last(),
            record_keys.drop_last(),
            option_index,
            now,
        ).vote_at(poll_key, voters.last(), record_keys.last(), option_index, now).0
    }
}

/// Distinct voters each count: where the voters' record keys differ from one
/// another and none is taken, then in whatever order they come every vote for an
/// option of the poll is accepted, the tally of that option grows by the number
/// of voters, and so does the number of voter records.
pub proof fn lemma_distinct_voters_all_count(
    ledger: LedgerView,
    poll_key: Key,
    voters: Seq<Key>,
    record_keys: Seq<Seq<u8>>,
    option_index: u8,
    now: i64,
)
    requires
        ledger.wf(),
        ledger.polls.dom().contains(poll_key@),
        option_index < ledger.polls[poll_key@].options.len(),
        voters.len() == record_keys.len(),
        forall|i: int, j: int|
            0 <= i < j < record_keys.len() ==> record_keys[i] != record_keys[j],
        forall|i: int|
            0 <= i < record_keys.len() ==> !ledger.voters.dom().contains(record_keys[i]),
    ensures
        ({
            let end = after_votes(ledger, poll_key, voters, record_keys, option_index, now);
            &&& end.wf()
            &&& end.polls.dom().contains(poll_key@)
            &&& end.polls[poll_key@].options == ledger.polls[poll_key@].options
            &&& end.polls[poll_key@].votes[option_index as int] == ledger.polls[poll_key@].votes[option_index as int]
                + voters.len()
            &&& end.voters.dom().len() == ledger.voters.dom().len() + voters.len()
            &&& forall|key: Seq<u8>| #[trigger]
                end.voters.dom().contains(key) <==> ledger.voters.dom().contains(key)
                    || record_keys.contains(key)
        }),
        forall|i: int|
            0 <= i < voters.len() ==> (#[trigger] after_votes(
                ledger,
                poll_key,
                voters.take(i),
                record_keys.take(i),
                option_index,
                now,
            )).vote_at(poll_key, voters[i], record_keys[i], option_index, now).1 is Ok,
    decreases voters.len(),
{
    if voters.len() > 0 {
        let n = voters.len() - 1;
        let front_voters = voters.drop_last();
        let front_keys = record_keys.drop_last();
        lemma_distinct_voters_all_count(ledger, poll_key, front_voters, front_keys, option_index, now);
        let middle = after_votes(ledger, poll_key, front_voters, front_keys, option_index, now);
        let end = after_votes(ledger, poll_key, voters, record_keys, option_index, now);
        assert(front_voters =~= voters.take(n));
        assert(front_keys =~= record_keys.take(n));
        assert(!middle.voters.dom().contains(record_keys[n])) by {
            if front_keys.contains(record_keys[n]) {
                let i = choose|i: int| 0 <= i < front_keys.len() && front_keys[i] == record_keys[n];
                assert(record_keys[i] != record_keys[n]);
            }
        }
        assert(middle.polls[poll_key@].wf());
        assert(end == middle.vote_at(poll_key, voters[n], record_keys[n], option_index, now).0);
        assert forall|key: Seq<u8>| #[trigger]
            end.voters.dom().contains(key) <==> ledger.voters.dom().contains(key)
                || record_keys.contains(key) by {
            if record_keys.contains(key) {
                let i = choose|i: int| 0 <= i < record_keys.len() && record_keys[i] == key;
                if i < n {
                    assert(front_keys[i] == key);
                }
            }
            if front_keys.contains(key) {
                let i = choose|i: int| 0 <= i < front_keys.len() && front_keys[i] == key;
                assert(record_keys[i] == key);
            }
            assert(record_keys[n] == record_keys[n]);
        }
        assert forall|key: Seq<u8>| end.polls.dom().contains(key) implies (
        #[trigger] end.polls[key]).wf() by {
            if key != poll_key@ {
                assert(middle.polls[key].wf());
            }
        }
        assert forall|i: int| 0 <= i < voters.len() implies (#[trigger] after_votes(
            ledger,
            poll_key,
            voters.take(i),
            record_keys.take(i),
            option_index,
            now,
        )).vote_at(poll_key, voters[i], record_keys[i], option_index, now).1 is Ok by {
            if i < n {
                assert(front_voters.take(i) =~= voters.take(i));
                assert(front_keys.take(i) =~= record_keys.take(i));
                assert(front_voters[i] == voters[i] && front_keys[i] == record_keys[i]);
            }
        }
    }
}

/// The ledger after the given voters, one after another, each cast a vote for
/// the same option of one poll.
pub open spec fn after_voters(
    ledger: LedgerView,
    poll_key: Key,
    voters: Seq<Key>,
    option_index: u8,
    now: i64,
) -> LedgerView
    decreases voters.len(),
{
    if voters.len() == 0 {
        ledger
    } else {
        after_voters(ledger, poll_key, voters.drop_last(), option_index, now).vote(
            poll_key,
            voters.last(),
            option_index,
            now,
        ).0
    }
}

/// The record key of each voter on a poll, where one can be derived.
pub open spec fn record_keys_of(program: Seq<u8>, poll_key: Key, voters: Seq<Key>) -> Seq<Seq<u8>> {
    Seq::new(voters.len(), |i: int| spec_voter_address(program, poll_key@, voters[i]@)->0)
}

/// Voters with distinct record keys each count: where a record key can be derived
/// for every voter, these keys differ from one another and none is taken, the
/// tally of the option they all vote for grows by the number of voters, and so
/// does the number of voter records.
pub proof fn lemma_voters_all_count(
    ledger: LedgerView,
    poll_key: Key,
    voters: Seq<Key>,
    option_index: u8,
    now: i64,
)
    requires
        ledger.wf(),
        ledger.polls.dom().contains(poll_key@),
        option_index < ledger.polls[poll_key@].options.len(),
        forall|i: int|
            0 <= i < voters.len() ==> spec_voter_address(
                ledger.program,
                poll_key@,
                (#[trigger] voters[i])@,
            ) is Some,
        forall|i: int, j: int|
            0 <= i < j < voters.len() ==> spec_voter_address(
                ledger.program,
                poll_key@,
                (#[trigger] voters[i])@,
            ) != spec_voter_address(ledger.program, poll_key@, (#[trigger] voters[j])@),
        forall|i: int|
            0 <= i < voters.len() ==> !ledger.voters.dom().contains(
                spec_voter_address(ledger.program, poll_key@, (#[trigger] voters[i])@)->0,
            ),
    ensures
        after_voters(ledger, poll_key, voters, option_index, now) == after_votes(
            ledger,
            poll_key,
            voters,
            record_keys_of(ledger.program, poll_key, voters),
            option_index,
            now,
        ),
        after_voters(ledger, poll_key, voters, option_index, now).polls[poll_key@].votes[option_index as int]
            == ledger.polls[poll_key@].votes[option_index as int] + voters.len(),
        after_voters(ledger, poll_key, voters, option_index, now).voters.dom().len()
            == ledger.voters.dom().len() + voters.len(),
    decreases voters.len(),
{
    let keys = record_keys_of(ledger.program, poll_key, voters);
    lemma_distinct_voters_all_count(ledger, poll_key, voters, keys, option_index, now);
    lemma_votes_keep_program(ledger, poll_key, voters, keys, option_index, now);
    if voters.len() > 0 {
        let front = voters.drop_last();
        lemma_voters_all_count(ledger, poll_key, front, option_index, now);
        assert(record_keys_of(ledger.program, poll_key, front) =~= keys.drop_last());
        lemma_votes_keep_program(ledger, poll_key, front, keys.drop_last(), option_index, now);
    }
}

/// Votes leave the program of a ledger as it was.
proof fn lemma_votes_keep_program(
    ledger: LedgerView,
    poll_key: Key,
    voters: Seq<Key>,
    record_keys: Seq<Seq<u8>>,
    option_index: u8,
    now: i64,
)
    ensures
        after_votes(ledger, poll_key, voters, record_keys, option_index, now).program
            == ledger.program,
    decreases voters.len(),
{
    if voters.len() > 0 {
        lemma_votes_keep_program(
            ledger,
            poll_key,
            voters.drop_last(),
            record_keys.drop_last(),
            option_index,
            now,
        );
    }
}

} // verus!
