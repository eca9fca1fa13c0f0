use barcoders::error::Error;
use barcoders::sym::ean13::{Bookland, EAN13};

fn collapse_vec(v: &[u8]) -> String {
    v.iter()
        .map(|d| char::from_digit(u32::from(*d), 10).expect("Failed to convert digit to character"))
        .collect()
}

#[test]
fn new_ean13() {
    let ean13 = EAN13::new("123456123456");

    assert!(ean13.is_ok());
}

#[test]
fn new_bookland() {
    let bookland = Bookland::new("978456123456");

    assert!(bookland.is_ok());
}

#[test]
fn invalid_data_ean13() {
    let ean13 = EAN13::new("1234er123412");

    assert_eq!(
        ean13.expect_err("Expected an Error::Character but got None"),
        Error::Character
    );
}

#[test]
fn invalid_len_ean13() {
    let ean13 = EAN13::new("1111112222222333333");

    assert_eq!(
        ean13.expect_err("Expected an Error::Length but got None"),
        Error::Length
    );
}

#[test]
fn invalid_checksum_ean13() {
    let ean13 = EAN13::new("8801051294881");

    assert_eq!(
        ean13.expect_err("Expected an Error::Checksum but got None"),
        Error::Checksum
    );
}

#[test]
fn ean13_encode_as_bookland() {
    let bookland1 =
        Bookland::new("978345612345").expect("Failed to create Bookland barcode with valid data");
    let bookland2 =
        Bookland::new("978118999561").expect("Failed to create Bookland barcode with valid data");

    assert_eq!(collapse_vec(&bookland1.encode()), "10101110110001001010000101000110111001010111101010110011011011001000010101110010011101001110101");
    assert_eq!(collapse_vec(&bookland2.encode()), "10101110110001001011001100110010001001000101101010111010011101001001110101000011001101001110101");
}

#[test]
fn ean13_encode() {
    let ean131 =
        EAN13::new("750103131130").expect("Failed to create EAN13 barcode with valid data");
    let ean132 =
        EAN13::new("983465123499").expect("Failed to create EAN13 barcode with valid data");

    assert_eq!(collapse_vec(&ean131.encode()), "10101100010100111001100101001110111101011001101010100001011001101100110100001011100101110100101");
    assert_eq!(collapse_vec(&ean132.encode()), "10101101110100001001110101011110111001001100101010110110010000101011100111010011101001000010101");
}

#[test]
fn ean13_check_digit() {
    // The check digit of 750103131130 is 9: its pattern closes the symbol.
    let with_check = EAN13::new("7501031311309").expect("the check digit is right");
    let without = EAN13::new("750103131130").expect("valid data");
    assert_eq!(with_check.encode(), without.encode());
    assert_eq!(
        EAN13::new("7501031311305").expect_err("Expected Error::Checksum"),
        Error::Checksum
    );
}

#[test]
fn ean13_length_bounds() {
    assert_eq!(EAN13::new("12345612345").expect_err("Expected Error::Length"), Error::Length);
    assert_eq!(EAN13::new("12345612345678").expect_err("Expected Error::Length"), Error::Length);
    assert_eq!(EAN13::new("1234561234X").expect_err("Expected Error::Length"), Error::Length);
    assert_eq!(EAN13::new("123456123456X").expect_err("Expected Error::Character"), Error::Character);
}

#[test]
fn ean13_framing() {
    let enc = EAN13::new("978345612345").expect("valid data").encode();
    assert_eq!(enc.len(), 95);
    assert_eq!(&enc[..3], &[1, 0, 1]);
    assert_eq!(&enc[45..50], &[0, 1, 0, 1, 0]);
    assert_eq!(&enc[92..], &[1, 0, 1]);
}

#[test]
fn ean13_length_counts_bytes() {
    // Eleven digits and a two-byte character are thirteen bytes: a length
    // EAN-13 accepts, so the character is refused.
    assert_eq!(EAN13::new("12345612345é").expect_err("Expected Error::Character"), Error::Character);
    // Twelve digits and a two-byte character are fourteen bytes.
    assert_eq!(EAN13::new("123456123456é").expect_err("Expected Error::Length"), Error::Length);
}
