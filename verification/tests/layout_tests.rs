use voting_platform::layout::{POLL_SIZE, VOTER_RECORD_SIZE, VOTE_CAST_SIZE};
use voting_platform::{create_poll, CreatePoll, Key, Poll, VoteCast, VoterRecord};

fn sample_poll() -> Poll {
    let mut ctx = CreatePoll { poll: Poll::blank(), creator: Key::new([0xC1; 32]) };
    let options = vec!["Yes".to_string(), "No".to_string(), "Maybe".to_string()];
    create_poll(&mut ctx, 0x0102_0304_0506_0708, "Pineapple on pizza?".to_string(), options, 0, -2)
        .unwrap();
    let mut poll = ctx.poll;
    poll.votes = [1, 0x0A0B, u64::MAX, 0];
    poll
}

#[test]
fn sizes() {
    assert_eq!(POLL_SIZE, 407);
    assert_eq!(VOTER_RECORD_SIZE, 74);
    assert_eq!(VOTE_CAST_SIZE, 73);
    assert_eq!(Poll::LEN, 8 + POLL_SIZE);
    assert_eq!(VoterRecord::LEN, 8 + VOTER_RECORD_SIZE);
}

#[test]
fn poll_fields_lie_at_their_offsets() {
    let poll = sample_poll();
    let bytes = poll.to_bytes();
    assert_eq!(bytes.len(), 407);
    assert_eq!(&bytes[0..8], &[8, 7, 6, 5, 4, 3, 2, 1]);
    assert_eq!(&bytes[8..40], &[0xC1; 32]);
    assert_eq!(&bytes[40..59], b"Pineapple on pizza?");
    assert!(bytes[59..240].iter().all(|b| *b == 0));
    assert_eq!(&bytes[240..242], &[19, 0]);
    assert_eq!(&bytes[242..245], b"Yes");
    assert_eq!(&bytes[272..274], b"No");
    assert_eq!(&bytes[302..307], b"Maybe");
    assert_eq!(&bytes[332..362], &[0u8; 30]);
    assert_eq!(&bytes[362..366], &[3, 2, 5, 0]);
    assert_eq!(&bytes[366..374], &1u64.to_le_bytes());
    assert_eq!(&bytes[374..382], &[0x0B, 0x0A, 0, 0, 0, 0, 0, 0]);
    assert_eq!(&bytes[382..390], &[0xFF; 8]);
    assert_eq!(&bytes[390..398], &[0; 8]);
    assert_eq!(bytes[398], 3);
    assert_eq!(&bytes[399..407], &[0xFE, 0xFF, 0xFF, 0xFF, 0xFF, 0xFF, 0xFF, 0xFF]);
}

#[test]
fn poll_round_trips() {
    let poll = sample_poll();
    assert_eq!(Poll::from_bytes(&poll.to_bytes()), Some(poll));
    let blank = Poll::blank();
    assert_eq!(blank.to_bytes(), vec![0u8; 407]);
    assert_eq!(Poll::from_bytes(&[0u8; 407]), Some(blank));
}

#[test]
fn poll_question_length_is_little_endian() {
    let mut bytes = vec![0u8; 407];
    bytes[240] = 0x34;
    bytes[241] = 0x12;
    let poll = Poll::from_bytes(&bytes).unwrap();
    assert_eq!(poll.question_length, 0x1234);
    assert_eq!(poll.to_bytes(), bytes);
}

#[test]
fn poll_of_wrong_size_is_refused() {
    assert_eq!(Poll::from_bytes(&[0u8; 406]), None);
    assert_eq!(Poll::from_bytes(&[0u8; 408]), None);
    assert_eq!(Poll::from_bytes(&[]), None);
}

#[test]
fn voter_record_fields_lie_at_their_offsets() {
    let record = VoterRecord {
        has_voted: true,
        voted_option: 3,
        voted_at: 0x0102_0304_0506_0708,
        voter: Key::new([0xA1; 32]),
        poll: Key::new([0xB2; 32]),
    };
    let bytes = record.to_bytes();
    assert_eq!(bytes.len(), 74);
    assert_eq!(bytes[0], 1);
    assert_eq!(bytes[1], 3);
    assert_eq!(&bytes[2..10], &[8, 7, 6, 5, 4, 3, 2, 1]);
    assert_eq!(&bytes[10..42], &[0xA1; 32]);
    assert_eq!(&bytes[42..74], &[0xB2; 32]);
    assert_eq!(VoterRecord::from_bytes(&bytes), Some(record));
    assert_eq!(VoterRecord::blank().to_bytes(), vec![0u8; 74]);
    assert_eq!(VoterRecord::from_bytes(&[0u8; 74]), Some(VoterRecord::blank()));
}

#[test]
fn voter_record_needs_a_truth_value_and_the_right_size() {
    let mut bytes = vec![0u8; 74];
    bytes[0] = 2;
    assert_eq!(VoterRecord::from_bytes(&bytes), None);
    bytes[0] = 1;
    assert!(VoterRecord::from_bytes(&bytes).unwrap().has_voted);
    assert_eq!(VoterRecord::from_bytes(&[0u8; 73]), None);
    assert_eq!(VoterRecord::from_bytes(&[0u8; 75]), None);
}

#[test]
fn signed_times_are_two_s_complement() {
    for t in [0i64, 1, -1, i64::MAX, i64::MIN, -1_700_000_000, 1_700_000_000] {
        let event = VoteCast {
            poll: Key::new([1; 32]),
            voter: Key::new([2; 32]),
            option_index: 1,
            timestamp: t,
        };
        let bytes = event.to_bytes();
        assert_eq!(bytes.len(), 73);
        assert_eq!(&bytes[65..73], &t.to_le_bytes());
        assert_eq!(VoteCast::from_bytes(&bytes), Some(event));
    }
}

#[test]
fn vote_cast_fields_lie_at_their_offsets() {
    let event = VoteCast {
        poll: Key::new([0x11; 32]),
        voter: Key::new([0x22; 32]),
        option_index: 2,
        timestamp: 5,
    };
    let bytes = event.to_bytes();
    assert_eq!(&bytes[0..32], &[0x11; 32]);
    assert_eq!(&bytes[32..64], &[0x22; 32]);
    assert_eq!(bytes[64], 2);
    assert_eq!(&bytes[65..73], &[5, 0, 0, 0, 0, 0, 0, 0]);
    assert_eq!(VoteCast::from_bytes(&bytes[..72]), None);
}
