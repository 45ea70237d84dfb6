use voting_platform::codec::{decode, encode};

#[test]
fn encode_left_aligns_and_zero_fills() {
    let (buffer, length) = encode::<8>("Yes").unwrap();
    assert_eq!(length, 3);
    assert_eq!(buffer, [b'Y', b'e', b's', 0, 0, 0, 0, 0]);
}

#[test]
fn encode_accepts_exact_capacity_and_rejects_one_more() {
    assert!(encode::<4>("abcd").is_ok());
    assert!(encode::<4>("abcde").is_err());
    assert!(encode::<0>("").is_ok());
    assert!(encode::<0>("a").is_err());
}

#[test]
fn encode_counts_bytes_not_characters() {
    let (buffer, length) = encode::<4>("h\u{e9}").unwrap();
    assert_eq!(length, 3);
    assert_eq!(buffer, [b'h', 0xc3, 0xa9, 0]);
    assert!(encode::<3>("\u{e9}\u{e9}").is_err());
}

#[test]
fn decode_round_trips() {
    for text in ["", "Yes", "Pineapple on pizza?", "h\u{e9}llo \u{1f355}"] {
        let (buffer, length) = encode::<30>(text).unwrap();
        assert_eq!(decode(&buffer, length), text);
    }
}

#[test]
fn decode_reads_only_the_prefix() {
    let buffer = [b'a', b'b', b'c', b'd'];
    assert_eq!(decode(&buffer, 2), "ab");
    assert_eq!(decode(&buffer, 0), "");
    assert_eq!(decode(&buffer, 4), "abcd");
}

#[test]
fn decode_is_lenient_on_malformed_bytes() {
    let buffer = [b'a', 0xff, b'b'];
    assert_eq!(decode(&buffer, 3), "a\u{fffd}b");
}
