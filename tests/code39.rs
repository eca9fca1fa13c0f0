use barcoders::error::Error;
use barcoders::sym::code39::Code39;

fn collapse_vec(v: &[u8]) -> String {
    v.iter()
        .map(|d| char::from_digit(u32::from(*d), 10).expect("Failed to convert digit to character"))
        .collect()
}

#[test]
fn new_code39() {
    let code39 = Code39::new("12345");

    assert!(code39.is_ok());
}

#[test]
fn invalid_data_code39() {
    let code39 = Code39::new("1212s");

    assert_eq!(
        code39.expect_err("Expected Error::Character"),
        Error::Character
    );
}

#[test]
fn invalid_len_code39() {
    let code39 = Code39::new("");

    assert_eq!(code39.expect_err("Expected Error::Length"), Error::Length);
}

#[test]
fn code39_encode() {
    let code391 = Code39::new("1234").expect("Failed to create Code39 for '1234'");
    let code392 = Code39::new("983RD512").expect("Failed to create Code39 for '983RD512'");
    let code393 = Code39::new("TEST8052").expect("Failed to create Code39 for 'TEST8052'");

    assert_eq!(
        collapse_vec(&code391.encode()),
        "10010110110101101001010110101100101011011011001010101010011010110100101101101"
    );
    assert_eq!(collapse_vec(&code392.encode()), "100101101101010110010110101101001011010110110010101011010101100101010110010110110100110101011010010101101011001010110100101101101");
    assert_eq!(collapse_vec(&code393.encode()), "100101101101010101101100101101011001010101101011001010101101100101101001011010101001101101011010011010101011001010110100101101101");
}

#[test]
fn code39_encode_with_checksum() {
    let code391 =
        Code39::with_checksum("1234").expect("Failed to create Code39 with checksum for '1234'");
    let code392 = Code39::with_checksum("983RD512")
        .expect("Failed to create Code39 with checksum for '983RD512'");

    assert_eq!(collapse_vec(&code391.encode()), "100101101101011010010101101011001010110110110010101010100110101101101010010110100101101101");
    assert_eq!(collapse_vec(&code392.encode()), "1001011011010101100101101011010010110101101100101010110101011001010101100101101101001101010110100101011010110010101101011011010010100101101101");
}

#[test]
fn code39_checksum_flag() {
    assert!(!Code39::new("AB").expect("valid data").checksum());
    assert!(Code39::with_checksum("AB").expect("valid data").checksum());
}

#[test]
fn code39_length_and_alphabet() {
    assert!(Code39::new(&"Z".repeat(255)).is_ok());
    assert_eq!(Code39::new(&"Z".repeat(256)).expect_err("Expected Error::Length"), Error::Length);
    assert_eq!(Code39::with_checksum("AB*").expect_err("Expected Error::Character"), Error::Character);
}

#[test]
fn code39_framing() {
    let enc = Code39::with_checksum("HELLO WORLD").expect("valid data").encode();
    let guard = [1, 0, 0, 1, 0, 1, 1, 0, 1, 1, 0, 1];
    assert_eq!(&enc[..12], &guard);
    assert_eq!(&enc[enc.len() - 12..], &guard);
}
