use barcoders::error::Error;
use barcoders::sym::tf::TF;

fn collapse_vec(v: &[u8]) -> String {
    v.iter()
        .map(|d| char::from_digit(u32::from(*d), 10).expect("Failed to convert digit to character"))
        .collect()
}

#[test]
fn new_itf() {
    let itf = TF::interleaved("12345679");

    assert!(itf.is_ok());
}

#[test]
fn new_stf() {
    let stf = TF::standard("12345");

    assert!(stf.is_ok());
}

#[test]
fn invalid_data_itf() {
    let itf = TF::interleaved("1234er123412");

    assert_eq!(itf.expect_err("Expected an error"), Error::Character);
}

#[test]
fn invalid_data_stf() {
    let stf = TF::standard("WORDUP");

    assert_eq!(stf.expect_err("Expected an error"), Error::Character);
}

#[test]
fn itf_raw_data() {
    let itf = TF::interleaved("12345679").expect("Failed to create interleaved barcode");

    assert_eq!(itf.raw_data(), &[1, 2, 3, 4, 5, 6, 7, 9]);
}

#[test]
fn itf_encode() {
    let itf = TF::interleaved("1234567").expect("Failed to create interleaved barcode"); // Check digit: 0

    assert_eq!(
        collapse_vec(&itf.encode()),
        "10101110100010101110001110111010001010001110100011100010101010100011100011101101"
            .to_string()
    );
}

#[test]
fn stf_encode() {
    let stf = TF::standard("1234567").expect("Failed to create standard barcode");

    assert_eq!(collapse_vec(&stf.encode()), "110110101110101010111010111010101110111011101010101010111010111011101011101010101110111010101010101110111011010110".to_string());
}

#[test]
fn itf_check_digit_appended_for_odd_length() {
    let itf = TF::interleaved("1234567").expect("valid data");
    assert_eq!(itf.raw_data(), &[1, 2, 3, 4, 5, 6, 7, 0]);
    let even = TF::interleaved("12").expect("valid data");
    assert_eq!(even.raw_data(), &[1, 2]);
    let one = TF::interleaved("5").expect("valid data");
    assert_eq!(one.raw_data(), &[5, 5]);
}

#[test]
fn tf_framing_and_bounds() {
    let itf = TF::interleaved("98").expect("valid data").encode();
    assert_eq!(&itf[..4], &[1, 0, 1, 0]);
    assert_eq!(&itf[itf.len() - 4..], &[1, 1, 0, 1]);
    let stf = TF::standard("0").expect("valid data").encode();
    assert_eq!(collapse_vec(&stf), "110110101010111011101011010110");
    assert_eq!(TF::standard("").expect_err("Expected Error::Length"), Error::Length);
    assert!(TF::standard(&"7".repeat(255)).is_ok());
    assert_eq!(TF::interleaved(&"7".repeat(256)).expect_err("Expected Error::Length"), Error::Length);
}

#[test]
fn tf_lengths() {
    // Interleaved: 8 bits plus 9 per stored digit (the check digit included).
    assert_eq!(TF::interleaved("1234567").expect("valid data").encode().len(), 8 + 9 * 8);
    // Standard: 16 bits plus 14 per digit.
    assert_eq!(TF::standard("1234567").expect("valid data").encode().len(), 16 + 14 * 7);
}
