use voting_platform::{create_poll, CreatePoll, Key, Poll, VoterRecord, VotingError};

fn fresh(creator: u8) -> CreatePoll {
    CreatePoll { poll: Poll::blank(), creator: Key::new([creator; 32]) }
}

fn strings(items: &[&str]) -> Vec<String> {
    items.iter().map(|s| s.to_string()).collect()
}

#[test]
fn record_sizes() {
    assert_eq!(Poll::LEN, 8 + 407);
    assert_eq!(VoterRecord::LEN, 8 + 74);
}

#[test]
fn blank_poll_is_all_zero() {
    let poll = Poll::blank();
    assert_eq!(poll.poll_id, 0);
    assert_eq!(poll.creator.bytes, [0u8; 32]);
    assert_eq!(poll.question, [0u8; 200]);
    assert_eq!(poll.question_length, 0);
    assert_eq!(poll.options, [[0u8; 30]; 4]);
    assert_eq!(poll.option_lengths, [0u8; 4]);
    assert_eq!(poll.votes, [0u64; 4]);
    assert_eq!(poll.option_count, 0);
    assert_eq!(poll.created_at, 0);
}

#[test]
fn create_poll_fills_the_record() {
    let mut ctx = fresh(5);
    let r = create_poll(
        &mut ctx,
        42,
        "Pineapple on pizza?".to_string(),
        strings(&["Yes", "No"]),
        3600,
        1_700_000_000,
    );
    assert_eq!(r, Ok(()));
    let poll = ctx.poll;
    assert_eq!(poll.poll_id, 42);
    assert_eq!(poll.creator, Key::new([5; 32]));
    assert_eq!(poll.created_at, 1_700_000_000);
    assert_eq!(poll.option_count, 2);
    assert_eq!(poll.question_length, 19);
    assert_eq!(&poll.question[..19], b"Pineapple on pizza?");
    assert!(poll.question[19..].iter().all(|b| *b == 0));
    assert_eq!(poll.option_lengths, [3, 2, 0, 0]);
    assert_eq!(&poll.options[0][..3], b"Yes");
    assert_eq!(&poll.options[1][..2], b"No");
    assert!(poll.options[0][3..].iter().all(|b| *b == 0));
    assert_eq!(poll.options[2], [0u8; 30]);
    assert_eq!(poll.votes, [0, 0, 0, 0]);
    assert_eq!(ctx.creator, Key::new([5; 32]));
}

#[test]
fn getters_read_back_what_was_written() {
    let mut ctx = fresh(1);
    let options = strings(&["caf\u{e9}", "th\u{e9}", "\u{1f355}"]);
    assert_eq!(create_poll(&mut ctx, 1, "Bo\u{ee}te ?".to_string(), options.clone(), 0, 7), Ok(()));
    assert_eq!(ctx.poll.get_question(), "Bo\u{ee}te ?");
    assert_eq!(ctx.poll.get_option(0), Some("caf\u{e9}".to_string()));
    assert_eq!(ctx.poll.get_option(1), Some("th\u{e9}".to_string()));
    assert_eq!(ctx.poll.get_option(2), Some("\u{1f355}".to_string()));
    assert_eq!(ctx.poll.get_option(3), None);
    assert_eq!(ctx.poll.get_option(usize::MAX), None);
    assert_eq!(ctx.poll.get_all_options(), options);
}

#[test]
fn question_boundary_at_200_bytes() {
    let mut ctx = fresh(1);
    let exact = "q".repeat(200);
    assert_eq!(create_poll(&mut ctx, 1, exact.clone(), strings(&["a", "b"]), 0, 0), Ok(()));
    assert_eq!(ctx.poll.question_length, 200);
    assert_eq!(ctx.poll.get_question(), exact);

    let mut ctx = fresh(1);
    let before = ctx;
    let r = create_poll(&mut ctx, 1, "q".repeat(201), strings(&["a", "b"]), 0, 0);
    assert_eq!(r, Err(VotingError::QuestionTooLong));
    assert_eq!(ctx, before);
}

#[test]
fn question_length_counts_bytes() {
    let mut ctx = fresh(1);
    let r = create_poll(&mut ctx, 1, "\u{e9}".repeat(100), strings(&["a", "b"]), 0, 0);
    assert_eq!(r, Ok(()));
    assert_eq!(ctx.poll.question_length, 200);
    let mut ctx = fresh(1);
    let r = create_poll(&mut ctx, 1, "\u{e9}".repeat(101), strings(&["a", "b"]), 0, 0);
    assert_eq!(r, Err(VotingError::QuestionTooLong));
}

#[test]
fn option_boundary_at_30_bytes() {
    let mut ctx = fresh(1);
    let exact = "o".repeat(30);
    let r = create_poll(&mut ctx, 1, "q".to_string(), vec!["a".to_string(), exact.clone()], 0, 0);
    assert_eq!(r, Ok(()));
    assert_eq!(ctx.poll.option_lengths, [1, 30, 0, 0]);
    assert_eq!(ctx.poll.get_option(1), Some(exact));

    let mut ctx = fresh(1);
    let before = ctx;
    let r = create_poll(&mut ctx, 1, "q".to_string(), vec!["a".to_string(), "o".repeat(31)], 0, 0);
    assert_eq!(r, Err(VotingError::OptionTooLong));
    assert_eq!(ctx, before);
}

#[test]
fn option_count_boundaries() {
    let mut ctx = fresh(1);
    assert_eq!(
        create_poll(&mut ctx, 1, "q".to_string(), strings(&[]), 0, 0),
        Err(VotingError::InsufficientOptions)
    );
    assert_eq!(
        create_poll(&mut ctx, 1, "q".to_string(), strings(&["a"]), 0, 0),
        Err(VotingError::InsufficientOptions)
    );
    assert_eq!(
        create_poll(&mut ctx, 1, "q".to_string(), strings(&["a", "b", "c", "d", "e"]), 0, 0),
        Err(VotingError::TooManyOptions)
    );
    assert_eq!(ctx, fresh(1));
    assert_eq!(create_poll(&mut ctx, 1, "q".to_string(), strings(&["a", "b"]), 0, 0), Ok(()));
    assert_eq!(ctx.poll.option_count, 2);
    let mut ctx = fresh(1);
    assert_eq!(create_poll(&mut ctx, 1, "q".to_string(), strings(&["a", "b", "c", "d"]), 0, 0), Ok(()));
    assert_eq!(ctx.poll.option_count, 4);
    assert_eq!(ctx.poll.get_all_options(), strings(&["a", "b", "c", "d"]));
}

#[test]
fn checks_come_in_order() {
    let mut ctx = fresh(1);
    let long_option = "o".repeat(31);
    assert_eq!(
        create_poll(&mut ctx, 1, "q".repeat(201), strings(&["a"]), 0, 0),
        Err(VotingError::QuestionTooLong)
    );
    assert_eq!(
        create_poll(&mut ctx, 1, "q".to_string(), vec![long_option.clone()], 0, 0),
        Err(VotingError::InsufficientOptions)
    );
    assert_eq!(
        create_poll(&mut ctx, 1, "q".to_string(), vec![long_option.clone(); 5], 0, 0),
        Err(VotingError::TooManyOptions)
    );
    assert_eq!(
        create_poll(&mut ctx, 1, "q".to_string(), vec!["a".to_string(), "b".to_string(), long_option], 0, 0),
        Err(VotingError::OptionTooLong)
    );
}

#[test]
fn unused_slots_keep_what_they_held() {
    let mut ctx = fresh(1);
    assert_eq!(create_poll(&mut ctx, 1, "first".to_string(), strings(&["a", "b", "c", "d"]), 0, 0), Ok(()));
    assert_eq!(create_poll(&mut ctx, 2, "second".to_string(), strings(&["x", "y"]), 0, 9), Ok(()));
    assert_eq!(ctx.poll.poll_id, 2);
    assert_eq!(ctx.poll.option_count, 2);
    assert_eq!(ctx.poll.option_lengths, [1, 1, 1, 1]);
    assert_eq!(ctx.poll.options[2][0], b'c');
    assert_eq!(ctx.poll.get_all_options(), strings(&["x", "y"]));
    assert_eq!(ctx.poll.get_question(), "second");
}

#[test]
fn duration_has_no_effect() {
    let mut a = fresh(1);
    let mut b = fresh(1);
    assert_eq!(create_poll(&mut a, 1, "q".to_string(), strings(&["a", "b"]), 0, 5), Ok(()));
    assert_eq!(create_poll(&mut b, 1, "q".to_string(), strings(&["a", "b"]), i64::MIN, 5), Ok(()));
    assert_eq!(a, b);
}

#[test]
fn well_formedness_is_tested_on_lengths_and_count() {
    assert!(!Poll::blank().is_well_formed());
    let mut ctx = fresh(1);
    assert_eq!(create_poll(&mut ctx, 1, "q".to_string(), strings(&["a", "b", "c"]), 0, 0), Ok(()));
    let good = ctx.poll;
    assert!(good.is_well_formed());

    let mut poll = good;
    poll.question_length = 200;
    assert!(poll.is_well_formed());
    poll.question_length = 201;
    assert!(!poll.is_well_formed());

    let mut poll = good;
    poll.option_count = 1;
    assert!(!poll.is_well_formed());
    poll.option_count = 5;
    assert!(!poll.is_well_formed());
    poll.option_count = 4;
    assert!(poll.is_well_formed());

    let mut poll = good;
    poll.option_lengths[2] = 30;
    assert!(poll.is_well_formed());
    poll.option_lengths[2] = 31;
    assert!(!poll.is_well_formed());
    poll.option_lengths[2] = 1;
    poll.option_lengths[3] = 31;
    assert!(poll.is_well_formed());
}
