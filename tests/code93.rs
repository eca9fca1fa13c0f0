use barcoders::error::Error;
use barcoders::sym::code93::Code93;

fn collapse_vec(v: &[u8]) -> String {
    v.iter()
        .map(|d| char::from_digit(u32::from(*d), 10).expect("Failed to convert digit to character"))
        .collect()
}

#[test]
fn invalid_length_code93() {
    let code93 = Code93::new("").expect_err("Expected an error for empty input");

    assert_eq!(code93, Error::Length);
}

#[test]
fn invalid_data_code93() {
    let code93 = Code93::new("lowerCASE").expect_err("Expected an error for invalid characters");

    assert_eq!(
        code93,
        Error::Character,
        "Expected Error::Character, but got {code93:?}"
    );
}

#[test]
fn code93_encode() {
    // Tests for data longer than 15, data longer than 20
    let code931 = Code93::new("TEST93").expect("Failed to create Code93 for 'TEST93'");
    let code932 = Code93::new("FLAM").expect("Failed to create Code93 for 'FLAM'");
    let code933 = Code93::new("99").expect("Failed to create Code93 for '99'");
    let code934 =
        Code93::new("1111111111111111111111").expect("Failed to create Code93 for long input");

    assert_eq!(collapse_vec(&code931.encode()), "1010111101101001101100100101101011001101001101000010101010000101011101101001000101010111101");
    assert_eq!(
        collapse_vec(&code932.encode()),
        "1010111101100010101010110001101010001010011001001011001010011001010111101"
    );
    assert_eq!(
        collapse_vec(&code933.encode()),
        "1010111101000010101000010101101100101000101101010111101"
    );
    assert_eq!(collapse_vec(&code934.encode()), "1010111101010010001010010001010010001010010001010010001010010001010010001010010001010010001010010001010010001010010001010010001010010001010010001010010001010010001010010001010010001010010001010010001010010001000101101110010101010111101");
}

#[test]
fn code93_framing() {
    let enc = Code93::new("FRAMED(1)").expect("valid data").encode();
    let guard = [1, 0, 1, 0, 1, 1, 1, 1, 0];
    assert_eq!(&enc[..9], &guard);
    assert_eq!(&enc[enc.len() - 10..enc.len() - 1], &guard);
    assert_eq!(enc[enc.len() - 1], 1);
    // Guard, one pattern per character, two check characters, guard, terminator.
    assert_eq!(enc.len(), 9 + 9 * 9 + 2 * 9 + 9 + 1);
}

#[test]
fn code93_length_bounds() {
    assert!(Code93::new("A").is_ok());
    assert!(Code93::new(&"A".repeat(255)).is_ok());
    assert_eq!(Code93::new(&"A".repeat(256)).expect_err("Expected Error::Length"), Error::Length);
}
