use base32h::alphabet::{char_to_digit, decode_digit, encode_digit, is_decodeable};
use base32h::binary::{bytes_to_uint40, encode_binary, unit40_to_bytes};
use base32h::numeric::{decode_bytes, encode_bytes};
use base32h::padding::{pad, pad_custom};
use base32h::text::filter_invalid;

const ALPHABET: &str = "0123456789ABCDEFGHJKLMNPQRTVWXYZ";

#[test]
fn digits_are_written_with_the_canonical_symbols() {
    let symbols = ALPHABET.as_bytes();
    assert_eq!(symbols.len(), 32);
    for digit in 0..32usize {
        assert_eq!(encode_digit(digit), symbols[digit]);
    }
}

#[test]
fn canonical_symbols_are_read_as_their_digits() {
    for digit in 0..32usize {
        assert_eq!(decode_digit(encode_digit(digit)), digit as u8);
        assert_eq!(char_to_digit(encode_digit(digit) as char), Some(digit as u8));
    }
}

#[test]
fn lower_case_letters_are_read_as_upper_case() {
    for digit in 10..32usize {
        let upper = encode_digit(digit);
        let lower = upper.to_ascii_lowercase();
        assert!(lower != upper);
        assert_eq!(decode_digit(lower), digit as u8);
    }
}

#[test]
fn look_alike_letters_are_read_as_digits() {
    assert_eq!(decode_digit(b'O'), 0);
    assert_eq!(decode_digit(b'o'), 0);
    assert_eq!(decode_digit(b'I'), 1);
    assert_eq!(decode_digit(b'i'), 1);
    assert_eq!(decode_digit(b'S'), 5);
    assert_eq!(decode_digit(b's'), 5);
    assert_eq!(decode_digit(b'U'), 27);
    assert_eq!(decode_digit(b'u'), 27);
    assert_eq!(decode_digit(b'V'), 27);
    assert_eq!(decode_digit(b'v'), 27);
    assert_eq!(decode_digit(b'L'), 20);
    assert_eq!(decode_digit(b'l'), 20);
}

#[test]
fn the_alphabet_has_sixty_two_characters() {
    let mut known = 0;
    for code in 0..=0x10ffffu32 {
        if let Some(c) = char::from_u32(code) {
            if is_decodeable(&c) {
                known += 1;
                assert!(c.is_ascii_alphanumeric());
                assert!(char_to_digit(c).unwrap() < 32);
            } else {
                assert_eq!(char_to_digit(c), None);
            }
        }
    }
    assert_eq!(known, 62);
}

#[test]
fn characters_outside_the_alphabet_are_not_known() {
    for c in [' ', '-', '_', '!', '/', ':', '@', '[', '`', '{', '\0', '\n', '\u{e9}', '\u{130}'] {
        assert!(!is_decodeable(&c));
        assert_eq!(char_to_digit(c), None);
    }
    for c in ['0', '9', 'A', 'Z', 'a', 'z', 'I', 'l', 'O', 'S', 'U'] {
        assert!(is_decodeable(&c));
    }
}

#[test]
fn sanitizing_keeps_the_symbols_in_order() {
    assert_eq!(filter_invalid("7z"), b"7z".to_vec());
    assert_eq!(filter_invalid("a-b c!d"), b"abcd".to_vec());
    assert_eq!(filter_invalid("IOSU iosu"), b"IOSUiosu".to_vec());
    assert_eq!(filter_invalid(""), Vec::<u8>::new());
    assert_eq!(filter_invalid("-\u{e9}\u{130}\u{1f4a9}"), Vec::<u8>::new());
    assert_eq!(filter_invalid("\u{e9}Z\u{130}z"), b"Zz".to_vec());
}

#[test]
fn numerals_are_written_most_significant_digit_first() {
    assert_eq!(encode_bytes(0), b"0".to_vec());
    assert_eq!(encode_bytes(31), b"Z".to_vec());
    assert_eq!(encode_bytes(32), b"10".to_vec());
    assert_eq!(encode_bytes(10 * 1024 + 11 * 32 + 12), b"ABC".to_vec());
    assert_eq!(encode_bytes(1099511627775), b"ZZZZZZZZ".to_vec());
}

#[test]
fn numerals_are_read_most_significant_digit_first() {
    assert_eq!(decode_bytes(Vec::new()), 0);
    assert_eq!(decode_bytes(b"0".to_vec()), 0);
    assert_eq!(decode_bytes(b"10".to_vec()), 32);
    assert_eq!(decode_bytes(b"ABC".to_vec()), 10 * 1024 + 11 * 32 + 12);
    assert_eq!(decode_bytes(b"abc".to_vec()), 10 * 1024 + 11 * 32 + 12);
    assert_eq!(decode_bytes(b"00ZZZZZZZZ".to_vec()), 1099511627775);
    assert_eq!(decode_bytes(b"ZZZZZZZZZZZZZZZZZZZZZZZZZZ".to_vec()), u128::MAX);
}

#[test]
fn padding_fills_up_to_a_multiple_of_the_width() {
    let mut three = b"123".to_vec();
    pad_custom(&mut three, 4);
    assert_eq!(three, b"0123".to_vec());

    let mut five = b"12345".to_vec();
    pad_custom(&mut five, 4);
    assert_eq!(five, b"00012345".to_vec());

    let mut ten = b"7".to_vec();
    pad_custom(&mut ten, 10);
    assert_eq!(ten, b"0000000007".to_vec());

    let mut one = b"abc".to_vec();
    pad_custom(&mut one, 1);
    assert_eq!(one, b"abc".to_vec());
}

#[test]
fn padding_leaves_a_multiple_of_the_width_alone() {
    let mut four = b"1234".to_vec();
    pad_custom(&mut four, 4);
    assert_eq!(four, b"1234".to_vec());

    let mut empty: Vec<u8> = Vec::new();
    pad_custom(&mut empty, 4);
    assert_eq!(empty, Vec::<u8>::new());

    let mut eight = b"ZZZZZZZZ".to_vec();
    pad(&mut eight);
    assert_eq!(eight, b"ZZZZZZZZ".to_vec());
}

#[test]
fn padding_to_eight() {
    let mut short = b"7Z".to_vec();
    pad(&mut short);
    assert_eq!(short, b"0000007Z".to_vec());

    let mut nine = b"7ZZZZZZZZ".to_vec();
    pad(&mut nine);
    assert_eq!(nine, b"00000007ZZZZZZZZ".to_vec());

    let mut empty: Vec<u8> = Vec::new();
    pad(&mut empty);
    assert_eq!(empty, Vec::<u8>::new());
}

#[test]
fn five_bytes_make_a_number_of_forty_bits() {
    assert_eq!(bytes_to_uint40(&[0, 0, 0, 0, 0]), 0);
    assert_eq!(bytes_to_uint40(&[0, 0, 0, 0, 1]), 1);
    assert_eq!(bytes_to_uint40(&[0, 0, 0, 1, 0]), 256);
    assert_eq!(bytes_to_uint40(&[0, 0, 1, 0, 0]), 65536);
    assert_eq!(bytes_to_uint40(&[0, 1, 0, 0, 0]), 16777216);
    assert_eq!(bytes_to_uint40(&[1, 0, 0, 0, 0]), 4294967296);
    assert_eq!(bytes_to_uint40(&[1, 2, 3, 4, 5]), 4328719365);
    assert_eq!(bytes_to_uint40(&[255, 255, 255, 255, 255]), 1099511627775);
    assert_eq!(bytes_to_uint40(&[1, 2, 3, 4, 5, 6, 7]), 4328719365);
}

#[test]
fn a_number_of_forty_bits_makes_five_bytes() {
    assert_eq!(unit40_to_bytes(0), [0, 0, 0, 0, 0]);
    assert_eq!(unit40_to_bytes(1), [0, 0, 0, 0, 1]);
    assert_eq!(unit40_to_bytes(256), [0, 0, 0, 1, 0]);
    assert_eq!(unit40_to_bytes(65536), [0, 0, 1, 0, 0]);
    assert_eq!(unit40_to_bytes(16777216), [0, 1, 0, 0, 0]);
    assert_eq!(unit40_to_bytes(4294967296), [1, 0, 0, 0, 0]);
    assert_eq!(unit40_to_bytes(4328719365), [1, 2, 3, 4, 5]);
    assert_eq!(unit40_to_bytes(1099511627775), [255, 255, 255, 255, 255]);
}

#[test]
fn bytes_are_written_group_by_group() {
    assert_eq!(encode_binary(&[]), Vec::<u8>::new());
    assert_eq!(encode_binary(&[255]), b"0000007Z".to_vec());
    assert_eq!(encode_binary(&[1, 2, 3, 4, 5]), b"04106105".to_vec());
    assert_eq!(
        encode_binary(&[1, 2, 3, 4, 5, 255, 255, 255, 255, 255]),
        b"04106105ZZZZZZZZ".to_vec()
    );
    assert_eq!(
        encode_binary(&[1, 1, 2, 3, 4, 5, 255, 255, 255, 255, 255]),
        b"14106105ZZZZZZZZ".to_vec()
    );
}
