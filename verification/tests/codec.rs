use base32h::{decode_string, decode_string_to_binary, encode_binary_to_string, encode_to_string};

fn test_encode(input: u128, expected_output: String) -> () {
    assert_eq!(encode_to_string(input).unwrap(), expected_output);
}

fn test_decode(input: &str, expected_output: u128) -> () {
    assert_eq!(decode_string(input), expected_output);
}

#[test]
fn base32h_numeric_encode() {
    for i in 0..10 {
        test_encode(i, format!("{}", i));
    }
    let abc = [
        'A', 'B', 'C', 'D', 'E', 'F', 'G', 'H', 'J', 'K', 'L', 'M', 'N', 'P', 'Q', 'R', 'T',
        'V', 'W', 'X', 'Y', 'Z',
    ];
    for i in 0..22 {
        let expected_output = abc.get(i).unwrap();
        test_encode((i + 10) as u128, format!("{}", expected_output));
    }

    test_encode(31, "Z".to_owned());
    test_encode(1023, "ZZ".to_owned());
    test_encode(1048575, "ZZZZ".to_owned());
    test_encode(1099511627775, "ZZZZZZZZ".to_owned());

    test_encode(255, "7Z".to_owned());
    test_encode(65535, "1ZZZ".to_owned());
    test_encode(4294967295, "3ZZZZZZ".to_owned());
}

#[test]
fn base32h_numeric_decode() {
    //Canonical Digits
    let digits = [
        "0", "1", "2", "3", "4", "5", "6", "7", "8", "9", "A", "B", "C", "D", "E", "F", "G",
        "H", "J", "K", "L", "M", "N", "P", "Q", "R", "T", "V", "W", "X", "Y", "Z",
    ];
    for i in 0..32 {
        let input = digits.get(i).unwrap();
        test_decode(input, i as u128);
    }

    //Alias Digits
    test_decode("o", 0);
    test_decode("O", 0);
    test_decode("i", 1);
    test_decode("I", 1);
    test_decode("s", 5);
    test_decode("S", 5);
    test_decode("u", 27);
    test_decode("U", 27);

    let alias_digits = [
        "a", "b", "c", "d", "e", "f", "g", "h", "j", "k", "l", "m", "n", "p", "q", "r", "t",
        "v", "w", "x", "y", "z",
    ];

    for i in 0..22 {
        test_decode(alias_digits[i], (i + 10) as u128);
    }

    // Numbers
    test_decode("Z", 31);
    test_decode("Zz", 1023);
    test_decode("ZzzZ", 1048575);
    test_decode("zZzZZzZz", 1099511627775);

    test_decode("7z", 255);
    test_decode("iZzZ", 65535);
    test_decode("3zZzZzZ", 4294967295);
}

fn test_bin_encode(input: &[u8], expected_output: String) -> () {
    assert_eq!(encode_binary_to_string(input).unwrap(), expected_output);
}

fn test_bin_decode(input: &str, expected_output: Vec<u8>) -> () {
    assert_eq!(decode_string_to_binary(input), expected_output);
}

#[test]
fn base32h_binary_encode() {
    test_bin_encode(&[255], "0000007Z".to_owned());
    test_bin_encode(&[255, 255], "00001ZZZ".to_owned());
    test_bin_encode(&[255, 255, 255], "000FZZZZ".to_owned());
    test_bin_encode(&[255, 255, 255, 255], "03ZZZZZZ".to_owned());
    test_bin_encode(&[255, 255, 255, 255, 255], "ZZZZZZZZ".to_owned());

    test_bin_encode(
        &[255, 255, 255, 255, 255, 255],
        "0000007ZZZZZZZZZ".to_owned(),
    );
    test_bin_encode(
        &[255, 255, 255, 255, 255, 255, 255, 255, 255, 255],
        "ZZZZZZZZZZZZZZZZ".to_owned(),
    );
}

#[test]
fn base32h_binary_decode() {
    test_bin_decode("7z", Vec::from([0, 0, 0, 0, 255]));
    test_bin_decode("1zZz", Vec::from([0, 0, 0, 255, 255]));
    test_bin_decode("fZzZz", Vec::from([0, 0, 255, 255, 255]));
    test_bin_decode("3zZzZzZ", Vec::from([0, 255, 255, 255, 255]));
    test_bin_decode("zZzZzZzZ", Vec::from([255, 255, 255, 255, 255]));

    test_bin_decode(
        "7ZZZZZZZZZ",
        Vec::from([0, 0, 0, 0, 255, 255, 255, 255, 255, 255]),
    );
    test_bin_decode(
        "zZzZzZzZzZzZzZzZ",
        Vec::from([255, 255, 255, 255, 255, 255, 255, 255, 255, 255]),
    );
}

#[test]
fn base32h_binary_decode_invalid() {
    test_bin_decode("ðŸ’©", Vec::from([]));
}

#[test]
fn base32h_decode_invalid() {
    test_decode("ðŸ’©", 0);
}
