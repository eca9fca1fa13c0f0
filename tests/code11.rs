use barcoders::error::Error;
use barcoders::sym::code11::Code11;

fn collapse_vec(v: &[u8]) -> String {
    v.iter()
        .map(|d| char::from_digit(u32::from(*d), 10).expect("Failed to convert digit to character"))
        .collect()
}

#[test]
fn invalid_length_code11() {
    let code11 = Code11::new("");

    assert_eq!(
        code11.expect_err("Expected an Error::Length but got None"),
        Error::Length
    );
}

#[test]
fn invalid_data_code11() {
    let code11 = Code11::new("NOTDIGITS");

    assert_eq!(
        code11.expect_err("Expected an Error::Character but got None"),
        Error::Character
    );
}

#[test]
fn code11_encode_less_than_10_chars() {
    let code111 = Code11::new("123-45").expect("Failed to create Code11 barcode for '123-45'");
    let code112 = Code11::new("666").expect("Failed to create Code11 barcode for '666'");
    let code113 = Code11::new("12-9").expect("Failed to create Code11 barcode for '12-9'");

    assert_eq!(
        collapse_vec(&code111.encode()),
        "1011001011010110100101101100101010110101011011011011010110110101011001"
    );
    assert_eq!(
        collapse_vec(&code112.encode()),
        "10110010100110101001101010011010110010101011001"
    );
    assert_eq!(
        collapse_vec(&code113.encode()),
        "10110010110101101001011010110101101010100110101011001"
    );
}

#[test]
fn code11_encode_more_than_10_chars() {
    let code111 = Code11::new("1234-5678-4321")
        .expect("Failed to create Code11 barcode for '1234-5678-4321'");

    assert_eq!(collapse_vec(&code111.encode()), "101100101101011010010110110010101011011010110101101101010011010101001101101001010110101011011011001010100101101101011011011010100110101011001");
}

#[test]
fn code11_length_bounds() {
    assert!(Code11::new("-").is_ok());
    assert!(Code11::new(&"9".repeat(255)).is_ok());
    assert_eq!(Code11::new(&"9".repeat(256)).expect_err("Expected Error::Length"), Error::Length);
}

#[test]
fn code11_framing() {
    let enc = Code11::new("0123456789-").expect("valid data").encode();
    assert_eq!(&enc[..7], &[1, 0, 1, 1, 0, 0, 1]);
    assert_eq!(&enc[enc.len() - 7..], &[1, 0, 1, 1, 0, 0, 1]);
}

#[test]
fn code11_k_check_only_beyond_ten() {
    // Ten characters get the C check only, eleven get C and K.
    let ten = Code11::new("1234567890").expect("valid data");
    let eleven = Code11::new("12345678901").expect("valid data");
    assert_eq!(collapse_vec(&ten.encode()), "10110010110101101001011011001010101101101101101010011010101001101101001011010101010110110101101011001");
    assert_eq!(collapse_vec(&eleven.encode()), "10110010110101101001011011001010101101101101101010011010101001101101001011010101010110110101101011011010110101011001");
    assert_eq!(
        collapse_vec(&Code11::new("1").expect("valid data").encode()),
        "1011001011010110110101101011001"
    );
}
