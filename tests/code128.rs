use barcoders::error::Error;
use barcoders::sym::code128::{CharacterSet, Code128};

fn collapse_vec(v: &[u8]) -> String {
    v.iter()
        .map(|d| char::from_digit(u32::from(*d), 10).expect("Failed to convert digit to character"))
        .collect()
}

#[test]
fn new_code128() {
    let code128_a = Code128::new(" !! Ć0201", CharacterSet::A);
    let code128_b = Code128::new("!!  \" ", CharacterSet::A);

    assert!(code128_a.is_ok());
    assert!(code128_b.is_ok());
}

#[test]
fn invalid_length_code128() {
    let code128_a = Code128::new("", CharacterSet::Unset);

    assert_eq!(
        code128_a.expect_err("Expected Error::Length but got None"),
        Error::Length
    );
}

#[test]
fn invalid_data_code128() {
    let code128_a = Code128::new("☺ ", CharacterSet::A); // Unknown character.
    let code128_b = Code128::new("HELLOĆ12352", CharacterSet::A); // Trailing carry at the end.
    let code128_c = Code128::new("HELLO", CharacterSet::Unset); // No Character-Set specified.

    assert_eq!(
        code128_a.expect_err("Expected Error::Character but got None"),
        Error::Character
    );
    assert_eq!(
        code128_b.expect_err("Expected Error::Character but got None"),
        Error::Character
    );
    assert_eq!(
        code128_c.expect_err("Expected Error::Character but got None"),
        Error::Character
    );
}

#[test]
fn code128_encode() {
    let code128_a = Code128::new("HELLO", CharacterSet::A)
        .expect("Failed to create Code128 barcode with CharacterSet A");
    let code128_b = Code128::new("XYĆ2199", CharacterSet::A)
        .expect("Failed to create Code128 barcode with CharacterSet A");
    let code128_c = Code128::new("xyZÀ199!*1", CharacterSet::B)
        .expect("Failed to create Code128 barcode with CharacterSet B");

    assert_eq!(collapse_vec(&code128_a.encode()), "110100001001100010100010001101000100011011101000110111010001110110110100010001100011101011");
    assert_eq!(collapse_vec(&code128_b.encode()), "110100001001110001011011101101000101110111101101110010010111011110100111011001100011101011");
    assert_eq!(collapse_vec(&code128_c.encode()), "1101001000011110010010110110111101110110001011101011110100111001101110010110011100101100110011011001100100010010011100110100101111001100011101011");
}

#[test]
fn code128_encode_special_chars() {
    let code128_a = Code128::new("B\u{0006}", CharacterSet::A)
        .expect("Failed to create Code128 barcode with special character");

    assert_eq!(
        collapse_vec(&code128_a.encode()),
        "110100001001000101100010110000100100110100001100011101011"
    );
}

#[test]
fn code128_encode_fnc_chars() {
    // Set A has no symbol for switching to set A itself.
    assert_eq!(
        Code128::new("Ź4218402050À0", CharacterSet::A).expect_err("Expected Error::Character"),
        Error::Character
    );
    let code128_a = Code128::new("Ź4218402050À0", CharacterSet::C)
        .expect("Failed to create Code128 barcode with FNC characters");

    assert_eq!(collapse_vec(&code128_a.encode()), "110100111001111010111010110111000110011100101100010100011001001110110001011101110101111010011101100101011110001100011101011");
}

#[test]
fn code128_encode_longhand() {
    // A starting character set must be given: without one the data is refused,
    // even when it begins with a control character.
    for data in ["\u{00C0}HELLO", "\u{00C0}XY\u{0106}2199", "\u{0181}xyZ\u{00C0}199!*1"] {
        assert_eq!(
            Code128::new(data, CharacterSet::Unset).expect_err("Expected Error::Character"),
            Error::Character
        );
    }
    // The same symbols, with the starting set given, encode as expected.
    let code128_a = Code128::new("HELLO", CharacterSet::A)
        .expect("Failed to create Code128 barcode with CharacterSet A");
    let code128_b = Code128::new("XY\u{0106}2199", CharacterSet::A)
        .expect("Failed to create Code128 barcode with CharacterSet A");
    let code128_c = Code128::new("xyZ\u{00C0}199!*1", CharacterSet::B)
        .expect("Failed to create Code128 barcode with CharacterSet B");

    assert_eq!(collapse_vec(&code128_a.encode()), "110100001001100010100010001101000100011011101000110111010001110110110100010001100011101011");
    assert_eq!(collapse_vec(&code128_b.encode()), "110100001001110001011011101101000101110111101101110010010111011110100111011001100011101011");
    assert_eq!(collapse_vec(&code128_c.encode()), "1101001000011110010010110110111101110110001011101011110100111001101110010110011100101100110011011001100100010010011100110100101111001100011101011");
}

#[test]
fn code128_numeric_pairs_are_shorter() {
    let in_c = Code128::new("123456", CharacterSet::C).expect("valid data").encode();
    let in_a = Code128::new("123456", CharacterSet::A).expect("valid data").encode();
    assert!(in_c.len() < in_a.len());
    // Start, three pairs, check, stop and termination bars.
    assert_eq!(in_c.len(), 11 * 6 + 2);
    assert_eq!(in_a.len(), 11 * 9 + 2);
    let switched = Code128::new("AB\u{0106}123456", CharacterSet::A).expect("valid data").encode();
    let plain = Code128::new("AB123456", CharacterSet::A).expect("valid data").encode();
    assert!(switched.len() < plain.len());
}

#[test]
fn code128_odd_digits_in_c() {
    assert_eq!(
        Code128::new("12345", CharacterSet::C).expect_err("Expected Error::Character"),
        Error::Character
    );
    // Switching away from C with a digit waiting is refused.
    assert_eq!(
        Code128::new("123\u{0181}A", CharacterSet::C).expect_err("Expected Error::Character"),
        Error::Character
    );
    assert!(Code128::new("1234\u{0181}A", CharacterSet::C).is_ok());
}

#[test]
fn code128_length_and_switches() {
    assert_eq!(Code128::new("A", CharacterSet::A).expect_err("Expected Error::Length"), Error::Length);
    assert!(Code128::new("AB", CharacterSet::A).is_ok());
    // Switching to the set already in use has no symbol.
    assert_eq!(
        Code128::new("A\u{00C0}B", CharacterSet::A).expect_err("Expected Error::Character"),
        Error::Character
    );
    // Lower case letters are not in set A.
    assert_eq!(Code128::new("ab", CharacterSet::A).expect_err("Expected Error::Character"), Error::Character);
    assert!(Code128::new("ab", CharacterSet::B).is_ok());
}

#[test]
fn code128_framing() {
    let enc = Code128::new("Framing 123", CharacterSet::B).expect("valid data").encode();
    assert_eq!(&enc[..11], &[1, 1, 0, 1, 0, 0, 1, 0, 0, 0, 0]);
    assert_eq!(&enc[enc.len() - 13..], &[1, 1, 0, 0, 0, 1, 1, 1, 0, 1, 0, 1, 1]);
}

#[test]
fn code128_length_counts_bytes() {
    // A single switch character is two bytes long.
    assert!(Code128::new("\u{0106}", CharacterSet::A).is_ok());
    assert_eq!(Code128::new("A", CharacterSet::B).expect_err("Expected Error::Length"), Error::Length);
}

#[test]
fn code128_switch_lengths() {
    let switched = Code128::new("XY\u{0106}2199", CharacterSet::A).expect("valid data").encode();
    let plain = Code128::new("XY2199", CharacterSet::A).expect("valid data").encode();
    assert_eq!(switched.len(), 90);
    assert_eq!(plain.len(), 101);
    assert_eq!(switched.len() % 11, 2);
}
