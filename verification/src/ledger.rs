//! The polls and the voter records of one program, each under its key, and the
//! two operations as transactions on them: a refused operation leaves no trace.

use vstd::prelude::*;
use crate::error::VotingError;
use crate::instructions::{
    cast_vote, create_poll, create_poll_verdict, created_poll, texts, CastVote, CreatePoll,
};
use crate::key::{poll_address, spec_poll_address, spec_voter_address, voter_address, Key};
use crate::poll::{Poll, PollView, MAX_OPTIONS};
use crate::store::RecordStore;
use crate::voter::{VoteCast, VoterRecord};

verus! {

/// What a ledger holds: the program that owns the records, the polls by key
/// without their padding, and the voter records by key.
pub struct LedgerView {
    pub program: Seq<u8>,
    pub polls: Map<Seq<u8>, PollView>,
    pub voters: Map<Seq<u8>, VoterRecord>,
}

impl LedgerView {
    /// The invariant of a ledger: finitely many records, every poll well-formed,
    /// and every voter record the mark of a vote.
    pub open spec fn wf(self) -> bool {
        &&& self.polls.dom().finite()
        &&& self.voters.dom().finite()
        &&& forall|key: Seq<u8>| self.polls.dom().contains(key) ==> (#[trigger] self.polls[key]).wf()
        &&& forall|key: Seq<u8>|
            self.voters.dom().contains(key) ==> (#[trigger] self.voters[key]).has_voted
    }

    /// Creating a poll under the key `poll_key`: the ledger after it, and the answer.
    pub open spec fn open_poll_at(
        self,
        poll_key: Seq<u8>,
        creator: Seq<u8>,
        poll_id: u64,
        question: Seq<char>,
        options: Seq<Seq<char>>,
        now: i64,
    ) -> (LedgerView, Result<(), VotingError>) {
        match create_poll_verdict(question, options) {
            Err(e) => (self, Err(e)),
            Ok(_) => if self.polls.dom().contains(poll_key) {
                (self, Err(VotingError::DuplicatePoll))
            } else {
                (
                    LedgerView {
                        polls: self.polls.insert(
                            poll_key,
                            created_poll(creator, poll_id, question, options, now),
                        ),
                        ..self
                    },
                    Ok(()),
                )
            },
        }
    }

    /// Creating a poll under the key derived from its creator and number: the
    /// ledger after it, and the key or the refusal.
    pub open spec fn open_poll(
        self,
        creator: Seq<u8>,
        poll_id: u64,
        question: Seq<char>,
        options: Seq<Seq<char>>,
        now: i64,
    ) -> (LedgerView, Result<Seq<u8>, VotingError>) {
        match spec_poll_address(self.program, creator, poll_id) {
            None => (self, Err(VotingError::AddressUnavailable)),
            Some(poll_key) => {
                let (after, answer) = self.open_poll_at(
                    poll_key,
                    creator,
                    poll_id,
                    question,
                    options,
                    now,
                );
                match answer {
                    Ok(_) => (after, Ok(poll_key)),
                    Err(e) => (after, Err(e)),
                }
            },
        }
    }

    /// Casting a vote whose record goes under the key `record_key`: the ledger
    /// after it, and the notice or the refusal.
    pub open spec fn vote_at(
        self,
        poll_key: Key,
        voter: Key,
        record_key: Seq<u8>,
        option_index: u8,
        now: i64,
    ) -> (LedgerView, Result<VoteCast, VotingError>) {
        if !self.polls.dom().contains(poll_key@) {
            (self, Err(VotingError::PollNotFound))
        } else if option_index >= self.polls[poll_key@].options.len() {
            (self, Err(VotingError::InvalidOption))
        } else if self.voters.dom().contains(record_key) {
            (self, Err(VotingError::AlreadyVoted))
        } else {
            (
                LedgerView {
                    polls: self.polls.insert(
                        poll_key@,
                        self.polls[poll_key@].with_vote(option_index as int),
                    ),
                    voters: self.voters.insert(
                        record_key,
                        VoterRecord::spec_cast(poll_key, voter, option_index, now),
                    ),
                    ..self
                },
                Ok(VoteCast { poll: poll_key, voter, option_index, timestamp: now }),
            )
        }
    }

    /// Casting a vote whose record goes under the key derived from the poll and
    /// the voter: the ledger after it, and the notice or the refusal.
    pub open spec fn vote(self, poll_key: Key, voter: Key, option_index: u8, now: i64) -> (
        LedgerView,
        Result<VoteCast, VotingError>,
    ) {
        match spec_voter_address(self.program, poll_key@, voter@) {
            None => (self, Err(VotingError::AddressUnavailable)),
            Some(record_key) => self.vote_at(poll_key, voter, record_key, option_index, now),
        }
    }
}

/// The key in a result, by its bytes.
pub open spec fn key_result_view(r: Result<Key, VotingError>) -> Result<Seq<u8>, VotingError> {
    match r {
        Ok(key) => Ok(key@),
        Err(e) => Err(e),
    }
}

/// The polls and voter records of one program.
pub struct Ledger {
    program: Key,
    polls: RecordStore<Poll>,
    voters: RecordStore<VoterRecord>,
}

impl View for Ledger {
    type V = LedgerView;

    closed spec fn view(&self) -> LedgerView {
        LedgerView {
            program: self.program@,
            polls: self.polls@.map_values(|poll: Poll| poll@),
            voters: self.voters@,
        }
    }
}

impl Ledger {
    /// Besides what the view shows, no tally exceeds the number of voter
    /// records, so counting one more vote cannot overflow.
    #[verifier::type_invariant]
    spec fn inv(self) -> bool {
        &&& self.polls@.dom().finite()
        &&& self.voters@.dom().finite()
        &&& forall|key: Seq<u8>| self.polls@.dom().contains(key) ==> (#[trigger] self.polls@[key]).wf()
        &&& forall|key: Seq<u8>, i: int|
            self.polls@.dom().contains(key) && 0 <= i < MAX_OPTIONS ==> (
            #[trigger] self.polls@[key].votes@[i]) <= self.voters@.dom().len()
        &&& forall|key: Seq<u8>|
            self.voters@.dom().contains(key) ==> (#[trigger] self.voters@[key]).has_voted
    }

    /// What the ledger's own invariant gives of its view.
    proof fn lemma_view_wf(self)
        requires
            self.inv(),
        ensures
            self@.wf(),
    {
        assert(self@.polls.dom() =~= self.polls@.dom());
        assert forall|key: Seq<u8>| self@.polls.dom().contains(key) implies (
        #[trigger] self@.polls[key]).wf() by {
            self.polls@[key].lemma_view_wf();
        }
    }

    /// A ledger without records, for the program `program`.
    pub fn new(program: Key) -> (ledger: Ledger)
        ensures
            ledger@.program == program@,
            ledger@.polls == Map::<Seq<u8>, PollView>::empty(),
            ledger@.voters == Map::<Seq<u8>, VoterRecord>::empty(),
            ledger@.wf(),
    {
        let ledger = Ledger { program, polls: RecordStore::new(), voters: RecordStore::new() };
        proof {
            assert(ledger@.polls =~= Map::<Seq<u8>, PollView>::empty());
            ledger.lemma_view_wf();
        }
        ledger
    }

    /// The program that owns the records.
    pub fn program(&self) -> (program: Key)
        ensures
            program@ == self@.program,
    {
        self.program
    }

    /// The poll stored under `key`, if there is one.
    pub fn poll(&self, key: &Key) -> (found: Option<Poll>)
        ensures
            found is Some <==> self@.polls.dom().contains(key@),
            found matches Some(poll) ==> poll@ == self@.polls[key@] && poll.wf(),
    {
        proof {
            use_type_invariant(self);
        }
        match self.polls.get(key) {
            Some(poll) => Some(*poll),
            None => None,
        }
    }

    /// The voter record stored under `key`, if there is one.
    pub fn voter_record(&self, key: &Key) -> (found: Option<VoterRecord>)
        ensures
            found is Some <==> self@.voters.dom().contains(key@),
            found matches Some(record) ==> record == self@.voters[key@],
    {
        match self.voters.get(key) {
            Some(record) => Some(*record),
            None => None,
        }
    }

    /// The number of polls.
    pub fn poll_count(&self) -> (count: usize)
        ensures
            self@.wf(),
            count == self@.polls.dom().len(),
    {
        proof {
            use_type_invariant(self);
            self.lemma_view_wf();
            assert(self@.polls.dom() =~= self.polls@.dom());
        }
        self.polls.len()
    }

    /// The number of voter records.
    pub fn voter_count(&self) -> (count: usize)
        ensures
            self@.wf(),
            count == self@.voters.dom().len(),
    {
        proof {
            use_type_invariant(self);
            self.lemma_view_wf();
        }
        self.voters.len()
    }

    /// Hands out the polls to be changed and leaves none in the ledger meanwhile.
    fn take_polls(&mut self) -> (polls: RecordStore<Poll>)
        ensures
            polls@ == old(self).polls@,
            final(self).polls@ == Map::<Seq<u8>, Poll>::empty(),
            final(self).voters == old(self).voters,
            final(self).program == old(self).program,
    {
        proof {
            use_type_invariant(&*self);
        }
        let mut polls: RecordStore<Poll> = RecordStore::new();
        core::mem::swap(&mut self.polls, &mut polls);
        polls
    }

    /// Hands out the voter records of a ledger whose polls were handed out.
    fn take_voters(&mut self) -> (voters: RecordStore<VoterRecord>)
        requires
            old(self).polls@ == Map::<Seq<u8>, Poll>::empty(),
        ensures
            voters@ == old(self).voters@,
            final(self).voters@ == Map::<Seq<u8>, VoterRecord>::empty(),
            final(self).polls == old(self).polls,
            final(self).program == old(self).program,
    {
        let mut voters: RecordStore<VoterRecord> = RecordStore::new();
        core::mem::swap(&mut self.voters, &mut voters);
        voters
    }

    /// Creates a poll under the key `poll_key`: checks the question and the
    /// options, then stores the poll if the key is free.
    pub fn open_poll_at(
        &mut self,
        poll_key: Key,
        creator: Key,
        poll_id: u64,
        question: String,
        options: Vec<String>,
        duration: i64,
        now: i64,
    ) -> (r: Result<(), VotingError>)
        ensures
            final(self)@ == old(self)@.open_poll_at(
                poll_key@,
                creator@,
                poll_id,
                question@,
                texts(options@),
                now,
            ).0,
            r == old(self)@.open_poll_at(
                poll_key@,
                creator@,
                poll_id,
                question@,
                texts(options@),
                now,
            ).1,
            final(self)@.wf(),
    {
        proof {
            use_type_invariant(&*self);
            self.lemma_view_wf();
            assert(self@.polls.dom() =~= self.polls@.dom());
        }
        let ghost texts = texts(options@);
        let ghost asked = question@;
        let mut ctx = CreatePoll { poll: Poll::blank(), creator };
        match create_poll(&mut ctx, poll_id, question, options, duration, now) {
            Err(e) => Err(e),
            Ok(()) => {
                let mut polls = self.take_polls();
                let created = polls.create_if_absent(poll_key, ctx.poll);
                self.polls = polls;
                proof {
                    if created is Ok {
                        assert(self@.polls =~= old(self)@.polls.insert(
                            poll_key@,
                            created_poll(creator@, poll_id, asked, texts, now),
                        ));
                    } else {
                        assert(self@.polls =~= old(self)@.polls);
                    }
                    self.lemma_view_wf();
                }
                match created {
                    Ok(()) => Ok(()),
                    Err(_) => Err(VotingError::DuplicatePoll),
                }
            },
        }
    }

    /// Creates a poll under the key derived from its creator and number, and
    /// returns that key.
    pub fn open_poll(
        &mut self,
        creator: Key,
        poll_id: u64,
        question: String,
        options: Vec<String>,
        duration: i64,
        now: i64,
    ) -> (r: Result<Key, VotingError>)
        ensures
            final(self)@ == old(self)@.open_poll(creator@, poll_id, question@, texts(options@), now).0,
            key_result_view(r) == old(self)@.open_poll(
                creator@,
                poll_id,
                question@,
                texts(options@),
                now,
            ).1,
            final(self)@.wf(),
    {
        proof {
            use_type_invariant(&*self);
            self.lemma_view_wf();
        }
        match poll_address(&self.program, &creator, poll_id) {
            None => Err(VotingError::AddressUnavailable),
            Some(poll_key) => match self.open_poll_at(
                poll_key,
                creator,
                poll_id,
                question,
                options,
                duration,
                now,
            ) {
                Ok(()) => Ok(poll_key),
                Err(e) => Err(e),
            },
        }
    }

    /// Casts a vote whose record goes under the key `record_key`: counts it in
    /// the poll and stores the record, both or neither.
    pub fn vote_at(
        &mut self,
        poll_key: Key,
        voter: Key,
        record_key: Key,
        option_index: u8,
        now: i64,
    ) -> (r: Result<VoteCast, VotingError>)
        ensures
            final(self)@ == old(self)@.vote_at(poll_key, voter, record_key@, option_index, now).0,
            r == old(self)@.vote_at(poll_key, voter, record_key@, option_index, now).1,
            final(self)@.wf(),
    {
        proof {
            use_type_invariant(&*self);
            self.lemma_view_wf();
            assert(self@.polls.dom() =~= self.polls@.dom());
        }
        let poll: Poll = match self.polls.get(&poll_key) {
            Some(poll) => *poll,
            None => {
                return Err(VotingError::PollNotFound);
            },
        };
        let mut polls = self.take_polls();
        let mut voters = self.take_voters();
        let ghost held = voters@;
        let (voter_record, fresh): (VoterRecord, bool) = match voters.get(&record_key) {
            Some(record) => (*record, false),
            None => (VoterRecord::blank(), true),
        };
        if fresh {
            // The record's place is taken first, as freshly allocated storage. With
            // it there the records count one more than before, and no tally is
            // above what they counted before.
            let _ = voters.create_if_absent(record_key, voter_record);
            let count: usize = voters.len();
            assert(held.dom().len() + 1 == count);
        }
        let mut ctx = CastVote { poll, poll_key, voter_record, voter };
        let r = cast_vote(&mut ctx, option_index, now);
        match r {
            Ok(_) => {
                let _ = voters.replace(&record_key, ctx.voter_record);
                let _ = polls.replace(&poll_key, ctx.poll);
            },
            Err(_) => {
                if fresh {
                    let _ = voters.remove(&record_key);
                }
            },
        }
        proof {
            if r is Ok {
                assert(voters@ =~= held.insert(record_key@, ctx.voter_record));
                assert(polls@.map_values(|poll: Poll| poll@) =~= old(self)@.polls.insert(
                    poll_key@,
                    old(self)@.polls[poll_key@].with_vote(option_index as int),
                ));
                assert forall|key: Seq<u8>, i: int|
                    polls@.dom().contains(key) && 0 <= i < MAX_OPTIONS implies (
                #[trigger] polls@[key].votes@[i]) <= voters@.dom().len() by {
                    assert(old(self).polls@[key].votes@[i] <= held.dom().len());
                }
            } else {
                assert(voters@ =~= held);
            }
        }
        self.voters = voters;
        self.polls = polls;
        proof {
            self.lemma_view_wf();
        }
        r
    }

    /// Casts the vote of `voter` on the poll at `poll_key`; the record goes under
    /// the key derived from the two, so each voter has at most one on each poll.
    pub fn vote(&mut self, poll_key: Key, voter: Key, option_index: u8, now: i64) -> (r: Result<
        VoteCast,
        VotingError,
    >)
        ensures
            final(self)@ == old(self)@.vote(poll_key, voter, option_index, now).0,
            r == old(self)@.vote(poll_key, voter, option_index, now).1,
            final(self)@.wf(),
    {
        proof {
            use_type_invariant(&*self);
            self.lemma_view_wf();
        }
        match voter_address(&self.program, &poll_key, &voter) {
            None => Err(VotingError::AddressUnavailable),
            Some(record_key) => self.vote_at(poll_key, voter, record_key, option_index, now),
        }
    }
}

} // verus!
