//! The poll record: a question, up to four options and their tallies, held in
//! fixed-size buffers with explicit lengths.

use vstd::prelude::*;
use crate::codec::{decode, unpacked};
use crate::key::{Key, KEY_LENGTH};

verus! {

/// The most bytes a question may take.
pub const MAX_QUESTION_LENGTH: usize = 200;

/// The most bytes an option may take.
pub const MAX_OPTION_LENGTH: usize = 30;

/// The most options a poll may have.
pub const MAX_OPTIONS: usize = 4;

/// The fewest options a poll may have.
pub const MIN_OPTIONS: usize = 2;

/// A poll as it is stored. Bytes of `question` past `question_length`, bytes of an
/// option past its length, and the option slots from `option_count` on are padding.
#[derive(Clone, Copy, Debug, PartialEq, Eq)]
pub struct Poll {
    pub poll_id: u64,
    pub creator: Key,
    pub question: [u8; MAX_QUESTION_LENGTH],
    pub question_length: u16,
    pub options: [[u8; MAX_OPTION_LENGTH]; MAX_OPTIONS],
    pub option_lengths: [u8; MAX_OPTIONS],
    pub votes: [u64; MAX_OPTIONS],
    pub option_count: u8,
    pub created_at: i64,
}

/// What a poll says, without its padding.
pub struct PollView {
    pub poll_id: u64,
    pub creator: Seq<u8>,
    /// The bytes of the question.
    pub question: Seq<u8>,
    /// The bytes of each option, in order.
    pub options: Seq<Seq<u8>>,
    /// The four tallies, one for each option slot.
    pub votes: Seq<nat>,
    pub created_at: i64,
}

impl PollView {
    /// The invariant of a poll, on its view.
    pub open spec fn wf(self) -> bool {
        &&& self.creator.len() == KEY_LENGTH
        &&& self.question.len() <= MAX_QUESTION_LENGTH
        &&& MIN_OPTIONS <= self.options.len() <= MAX_OPTIONS
        &&& forall|i: int|
            0 <= i < self.options.len() ==> (#[trigger] self.options[i]).len() <= MAX_OPTION_LENGTH
        &&& self.votes.len() == MAX_OPTIONS
    }

    /// The poll after one more vote for the option at `index`.
    pub open spec fn with_vote(self, index: int) -> PollView {
        PollView { votes: self.votes.update(index, self.votes[index] + 1), ..self }
    }
}

impl View for Poll {
    type V = PollView;

    open spec fn view(&self) -> PollView {
        PollView {
            poll_id: self.poll_id,
            creator: self.creator@,
            question: self.question@.take(self.question_length as int),
            options: Seq::new(
                self.option_count as nat,
                |i: int| self.options@[i]@.take(self.option_lengths@[i] as int),
            ),
            votes: Seq::new(MAX_OPTIONS as nat, |i: int| self.votes@[i] as nat),
            created_at: self.created_at,
        }
    }
}

impl Poll {
    /// The size of a stored poll in bytes: an 8-byte header, then the fields.
    pub const LEN: usize = 8 + 8 + 32 + MAX_QUESTION_LENGTH + 2 + (MAX_OPTION_LENGTH * MAX_OPTIONS)
        + MAX_OPTIONS + (8 * MAX_OPTIONS) + 1 + 8;

    /// The invariant of a poll: two to four options, and every length within its buffer.
    pub open spec fn wf(&self) -> bool {
        &&& self.question_length <= MAX_QUESTION_LENGTH
        &&& MIN_OPTIONS <= self.option_count <= MAX_OPTIONS
        &&& forall|i: int|
            0 <= i < self.option_count ==> #[trigger] self.option_lengths@[i] <= MAX_OPTION_LENGTH
    }

    /// Tests the invariant, as for a poll read from storage.
    pub fn is_well_formed(&self) -> (r: bool)
        ensures
            r == self.wf(),
    {
        if self.question_length as usize > MAX_QUESTION_LENGTH {
            return false;
        }
        let count: usize = self.option_count as usize;
        if count < MIN_OPTIONS || count > MAX_OPTIONS {
            return false;
        }
        let mut i: usize = 0;
        while i < count
            invariant
                count == self.option_count,
                i <= count <= MAX_OPTIONS,
                forall|j: int| 0 <= j < i ==> #[trigger] self.option_lengths@[j] <= MAX_OPTION_LENGTH,
            decreases count - i,
        {
            if self.option_lengths[i] as usize > MAX_OPTION_LENGTH {
                return false;
            }
            i += 1;
        }
        true
    }

    /// Whether the record is as freshly allocated storage holds it: all zero.
    pub open spec fn is_blank(&self) -> bool {
        &&& self.poll_id == 0
        &&& self.creator@ == Seq::new(KEY_LENGTH as nat, |i: int| 0u8)
        &&& self.question@ == Seq::new(MAX_QUESTION_LENGTH as nat, |i: int| 0u8)
        &&& self.question_length == 0
        &&& forall|i: int|
            0 <= i < MAX_OPTIONS ==> (#[trigger] self.options@[i])@ == Seq::new(
                MAX_OPTION_LENGTH as nat,
                |j: int| 0u8,
            )
        &&& self.option_lengths@ == Seq::new(MAX_OPTIONS as nat, |i: int| 0u8)
        &&& self.votes@ == Seq::new(MAX_OPTIONS as nat, |i: int| 0u64)
        &&& self.option_count == 0
        &&& self.created_at == 0
    }

    /// A record as it stands in freshly allocated storage.
    pub fn blank() -> (poll: Poll)
        ensures
            poll.is_blank(),
    {
        let poll = Poll {
            poll_id: 0,
            creator: Key { bytes: [0u8; KEY_LENGTH] },
            question: [0u8; MAX_QUESTION_LENGTH],
            question_length: 0,
            options: [[0u8; MAX_OPTION_LENGTH]; MAX_OPTIONS],
            option_lengths: [0u8; MAX_OPTIONS],
            votes: [0u64; MAX_OPTIONS],
            option_count: 0,
            created_at: 0,
        };
        assert(poll.creator@ =~= Seq::new(KEY_LENGTH as nat, |i: int| 0u8));
        assert(poll.question@ =~= Seq::new(MAX_QUESTION_LENGTH as nat, |i: int| 0u8));
        assert forall|i: int| 0 <= i < MAX_OPTIONS implies (#[trigger] poll.options@[i])@ == Seq::new(
            MAX_OPTION_LENGTH as nat,
            |j: int| 0u8,
        ) by {
            assert(poll.options@[i]@ =~= Seq::new(MAX_OPTION_LENGTH as nat, |j: int| 0u8));
        }
        assert(poll.option_lengths@ =~= Seq::new(MAX_OPTIONS as nat, |i: int| 0u8));
        assert(poll.votes@ =~= Seq::new(MAX_OPTIONS as nat, |i: int| 0u64));
        poll
    }

    /// A well-formed poll has a well-formed view.
    pub proof fn lemma_view_wf(self)
        requires
            self.wf(),
        ensures
            self@.wf(),
    {
        assert forall|i: int| 0 <= i < self@.options.len() implies (#[trigger] self@.options[i]).len()
            <= MAX_OPTION_LENGTH by {
            assert(self.option_lengths@[i] <= MAX_OPTION_LENGTH);
        }
    }

    /// The question as text.
    pub fn get_question(&self) -> (text: String)
        requires
            self.question_length <= MAX_QUESTION_LENGTH,
        ensures
            text@ == unpacked(self@.question),
    {
        decode(&self.question, self.question_length as usize)
    }

    /// The option at `index` as text, if the poll has that many options.
    pub fn get_option(&self, index: usize) -> (text: Option<String>)
        requires
            index < self.option_count ==> index < MAX_OPTIONS && self.option_lengths@[index as int]
                <= MAX_OPTION_LENGTH,
        ensures
            text is Some <==> index < self.option_count,
            text matches Some(t) ==> t@ == unpacked(self@.options[index as int]),
    {
        if index >= self.option_count as usize {
            return None;
        }
        Some(decode(&self.options[index], self.option_lengths[index] as usize))
    }

    /// All options as text, in order.
    pub fn get_all_options(&self) -> (texts: Vec<String>)
        requires
            self.option_count <= MAX_OPTIONS,
            forall|i: int|
                0 <= i < self.option_count ==> #[trigger] self.option_lengths@[i] <= MAX_OPTION_LENGTH,
        ensures
            texts@.len() == self.option_count,
            forall|i: int|
                0 <= i < self.option_count ==> (#[trigger] texts@[i])@ == unpacked(self@.options[i]),
    {
        let mut texts: Vec<String> = Vec::new();
        let count: usize = self.option_count as usize;
        let mut i: usize = 0;
        while i < count
            invariant
                count == self.option_count,
                i <= count <= MAX_OPTIONS,
                forall|j: int|
                    0 <= j < self.option_count ==> #[trigger] self.option_lengths@[j]
                        <= MAX_OPTION_LENGTH,
                texts@.len() == i,
                forall|j: int| 0 <= j < i ==> (#[trigger] texts@[j])@ == unpacked(self@.options[j]),
            decreases count - i,
        {
            if let Some(text) = self.get_option(i) {
                texts.push(text);
            }
            i += 1;
        }
        texts
    }
}

} // verus!
