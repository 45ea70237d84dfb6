use anchor_lang::prelude::Pubkey;
use voting_platform::key::{poll_address, voter_address, Key, POLL_SEED, VOTER_SEED};

#[test]
fn seeds_spell_their_tags() {
    assert_eq!(&POLL_SEED[..], &b"poll"[..]);
    assert_eq!(&VOTER_SEED[..], &b"voter"[..]);
}

#[test]
fn poll_address_agrees_with_program_address() {
    let program = Key::new([7u8; 32]);
    let creator = Key::new([1u8; 32]);
    let poll_id: u64 = 0x0102_0304_0506_0708;
    let expected = Pubkey::find_program_address(
        &[b"poll", &creator.bytes, &poll_id.to_le_bytes()],
        &Pubkey::new_from_array(program.bytes),
    )
    .0;
    let got = poll_address(&program, &creator, poll_id).unwrap();
    assert_eq!(got.bytes, expected.to_bytes());
    assert_ne!(got, creator);
    assert_ne!(got, program);
}

#[test]
fn voter_address_agrees_with_program_address() {
    let program = Key::new([7u8; 32]);
    let poll = Key::new([2u8; 32]);
    let voter = Key::new([3u8; 32]);
    let expected = Pubkey::find_program_address(
        &[b"voter", &poll.bytes, &voter.bytes],
        &Pubkey::new_from_array(program.bytes),
    )
    .0;
    let got = voter_address(&program, &poll, &voter).unwrap();
    assert_eq!(got.bytes, expected.to_bytes());
}

#[test]
fn derivation_is_deterministic_and_sensitive_to_each_seed() {
    let program = Key::new([7u8; 32]);
    let a = Key::new([1u8; 32]);
    let b = Key::new([2u8; 32]);
    assert_eq!(voter_address(&program, &a, &b), voter_address(&program, &a, &b));
    assert_ne!(voter_address(&program, &a, &b), voter_address(&program, &b, &a));
    assert_ne!(poll_address(&program, &a, 1), poll_address(&program, &a, 2));
    assert_ne!(poll_address(&program, &a, 1), poll_address(&program, &b, 1));
    assert_ne!(poll_address(&program, &a, 1), poll_address(&a, &a, 1));
}

#[test]
fn same_compares_bytes() {
    let mut bytes = [9u8; 32];
    let a = Key::new(bytes);
    bytes[31] = 8;
    let b = Key::new(bytes);
    assert!(a.same(&a));
    assert!(!a.same(&b));
    assert!(a.same(&Key::new([9u8; 32])));
}
