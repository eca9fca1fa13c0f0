use barcoders::generators::ascii::ASCII;
use barcoders::sym::codabar::Codabar;
use barcoders::sym::code11::Code11;
use barcoders::sym::code128::{CharacterSet, Code128};
use barcoders::sym::code39::Code39;
use barcoders::sym::code93::Code93;
use barcoders::sym::ean13::EAN13;
use barcoders::sym::ean8::EAN8;
use barcoders::sym::ean_supp::EANSUPP;
use barcoders::sym::tf::TF;

#[test]
fn ean_13_as_ascii() {
    let ean13 = EAN13::new("750103131130").expect("Failed to create EAN13 barcode");
    let ascii = ASCII::new();
    let generated = ascii
        .generate(&ean13.encode()[..])
        .expect("Failed to generate ASCII representation for EAN13 barcode");

    assert_eq!(
        generated,
        "
# # ##   # #  ###  ##  # #  ### #### # ##  ## # # #    # ##  ## ##  ## #    # ###  # ### #  # #
# # ##   # #  ###  ##  # #  ### #### # ##  ## # # #    # ##  ## ##  ## #    # ###  # ### #  # #
# # ##   # #  ###  ##  # #  ### #### # ##  ## # # #    # ##  ## ##  ## #    # ###  # ### #  # #
# # ##   # #  ###  ##  # #  ### #### # ##  ## # # #    # ##  ## ##  ## #    # ###  # ### #  # #
# # ##   # #  ###  ##  # #  ### #### # ##  ## # # #    # ##  ## ##  ## #    # ###  # ### #  # #
# # ##   # #  ###  ##  # #  ### #### # ##  ## # # #    # ##  ## ##  ## #    # ###  # ### #  # #
# # ##   # #  ###  ##  # #  ### #### # ##  ## # # #    # ##  ## ##  ## #    # ###  # ### #  # #
# # ##   # #  ###  ##  # #  ### #### # ##  ## # # #    # ##  ## ##  ## #    # ###  # ### #  # #
# # ##   # #  ###  ##  # #  ### #### # ##  ## # # #    # ##  ## ##  ## #    # ###  # ### #  # #
# # ##   # #  ###  ##  # #  ### #### # ##  ## # # #    # ##  ## ##  ## #    # ###  # ### #  # #
"
        .trim()
    );
}

#[test]
fn ean_13_as_ascii_small_height_double_width() {
    let ean13 = EAN13::new("750103131130").expect("Failed to create EAN13 barcode");
    let ascii = ASCII { height: 6, xdim: 2 };
    let generated = ascii
        .generate(&ean13.encode()[..])
        .expect("Failed to generate ASCII representation for EAN13 barcode");

    assert_eq!(generated,
"
##  ##  ####      ##  ##    ######    ####    ##  ##    ######  ########  ##  ####    ####  ##  ##  ##        ##  ####    ####  ####    ####  ##        ##  ######    ##  ######  ##    ##  ##
##  ##  ####      ##  ##    ######    ####    ##  ##    ######  ########  ##  ####    ####  ##  ##  ##        ##  ####    ####  ####    ####  ##        ##  ######    ##  ######  ##    ##  ##
##  ##  ####      ##  ##    ######    ####    ##  ##    ######  ########  ##  ####    ####  ##  ##  ##        ##  ####    ####  ####    ####  ##        ##  ######    ##  ######  ##    ##  ##
##  ##  ####      ##  ##    ######    ####    ##  ##    ######  ########  ##  ####    ####  ##  ##  ##        ##  ####    ####  ####    ####  ##        ##  ######    ##  ######  ##    ##  ##
##  ##  ####      ##  ##    ######    ####    ##  ##    ######  ########  ##  ####    ####  ##  ##  ##        ##  ####    ####  ####    ####  ##        ##  ######    ##  ######  ##    ##  ##
##  ##  ####      ##  ##    ######    ####    ##  ##    ######  ########  ##  ####    ####  ##  ##  ##        ##  ####    ####  ####    ####  ##        ##  ######    ##  ######  ##    ##  ##
".trim());
}

#[test]
fn ean_8_as_ascii() {
    let ean8 = EAN8::new("1234567").expect("Failed to create EAN8 barcode");
    let ascii = ASCII::new();
    let generated = ascii
        .generate(&ean8.encode()[..])
        .expect("Failed to generate ASCII representation for EAN8 barcode");

    assert_eq!(
        generated,
        "
# #  ##  #  #  ## #### # #   ## # # #  ### # #    #   #  ###  # # #
# #  ##  #  #  ## #### # #   ## # # #  ### # #    #   #  ###  # # #
# #  ##  #  #  ## #### # #   ## # # #  ### # #    #   #  ###  # # #
# #  ##  #  #  ## #### # #   ## # # #  ### # #    #   #  ###  # # #
# #  ##  #  #  ## #### # #   ## # # #  ### # #    #   #  ###  # # #
# #  ##  #  #  ## #### # #   ## # # #  ### # #    #   #  ###  # # #
# #  ##  #  #  ## #### # #   ## # # #  ### # #    #   #  ###  # # #
# #  ##  #  #  ## #### # #   ## # # #  ### # #    #   #  ###  # # #
# #  ##  #  #  ## #### # #   ## # # #  ### # #    #   #  ###  # # #
# #  ##  #  #  ## #### # #   ## # # #  ### # #    #   #  ###  # # #
"
        .trim()
    );
}

#[test]
fn ean_8_as_ascii_small_height_double_width() {
    let ean8 = EAN8::new("1234567").expect("Failed to create EAN8 barcode");
    let ascii = ASCII { height: 5, xdim: 2 };
    let generated = ascii
        .generate(&ean8.encode()[..])
        .expect("Failed to generate ASCII representation for EAN8 barcode");

    assert_eq!(generated,
"
##  ##    ####    ##    ##    ####  ########  ##  ##      ####  ##  ##  ##    ######  ##  ##        ##      ##    ######    ##  ##  ##
##  ##    ####    ##    ##    ####  ########  ##  ##      ####  ##  ##  ##    ######  ##  ##        ##      ##    ######    ##  ##  ##
##  ##    ####    ##    ##    ####  ########  ##  ##      ####  ##  ##  ##    ######  ##  ##        ##      ##    ######    ##  ##  ##
##  ##    ####    ##    ##    ####  ########  ##  ##      ####  ##  ##  ##    ######  ##  ##        ##      ##    ######    ##  ##  ##
##  ##    ####    ##    ##    ####  ########  ##  ##      ####  ##  ##  ##    ######  ##  ##        ##      ##    ######    ##  ##  ##
".trim());
}

#[test]
fn code_39_as_ascii() {
    let code39 = Code39::new("TEST8052").expect("Failed to create Code39 barcode");
    let ascii = ASCII::new();
    let generated = ascii
        .generate(&code39.encode()[..])
        .expect("Failed to generate ASCII representation for Code39 barcode");

    assert_eq!(generated,
"
#  # ## ## # # # ## ##  # ## # ##  # # # ## # ##  # # # ## ##  # ## #  # ## # # #  ## ## # ## #  ## # # # ##  # # ## #  # ## ## #
#  # ## ## # # # ## ##  # ## # ##  # # # ## # ##  # # # ## ##  # ## #  # ## # # #  ## ## # ## #  ## # # # ##  # # ## #  # ## ## #
#  # ## ## # # # ## ##  # ## # ##  # # # ## # ##  # # # ## ##  # ## #  # ## # # #  ## ## # ## #  ## # # # ##  # # ## #  # ## ## #
#  # ## ## # # # ## ##  # ## # ##  # # # ## # ##  # # # ## ##  # ## #  # ## # # #  ## ## # ## #  ## # # # ##  # # ## #  # ## ## #
#  # ## ## # # # ## ##  # ## # ##  # # # ## # ##  # # # ## ##  # ## #  # ## # # #  ## ## # ## #  ## # # # ##  # # ## #  # ## ## #
#  # ## ## # # # ## ##  # ## # ##  # # # ## # ##  # # # ## ##  # ## #  # ## # # #  ## ## # ## #  ## # # # ##  # # ## #  # ## ## #
#  # ## ## # # # ## ##  # ## # ##  # # # ## # ##  # # # ## ##  # ## #  # ## # # #  ## ## # ## #  ## # # # ##  # # ## #  # ## ## #
#  # ## ## # # # ## ##  # ## # ##  # # # ## # ##  # # # ## ##  # ## #  # ## # # #  ## ## # ## #  ## # # # ##  # # ## #  # ## ## #
#  # ## ## # # # ## ##  # ## # ##  # # # ## # ##  # # # ## ##  # ## #  # ## # # #  ## ## # ## #  ## # # # ##  # # ## #  # ## ## #
#  # ## ## # # # ## ##  # ## # ##  # # # ## # ##  # # # ## ##  # ## #  # ## # # #  ## ## # ## #  ## # # # ##  # # ## #  # ## ## #
".trim());
}

#[test]
fn code_39_as_ascii_small_height_double_weight() {
    let code39 = Code39::new("1234").expect("Failed to create Code39 barcode");
    let ascii = ASCII { height: 7, xdim: 2 };
    let generated = ascii
        .generate(&code39.encode()[..])
        .expect("Failed to generate ASCII representation for Code39 barcode");

    assert_eq!(generated,
"
##    ##  ####  ####  ##  ####  ##    ##  ##  ####  ##  ####    ##  ##  ####  ####  ####    ##  ##  ##  ##  ##    ####  ##  ####  ##    ##  ####  ####  ##
##    ##  ####  ####  ##  ####  ##    ##  ##  ####  ##  ####    ##  ##  ####  ####  ####    ##  ##  ##  ##  ##    ####  ##  ####  ##    ##  ####  ####  ##
##    ##  ####  ####  ##  ####  ##    ##  ##  ####  ##  ####    ##  ##  ####  ####  ####    ##  ##  ##  ##  ##    ####  ##  ####  ##    ##  ####  ####  ##
##    ##  ####  ####  ##  ####  ##    ##  ##  ####  ##  ####    ##  ##  ####  ####  ####    ##  ##  ##  ##  ##    ####  ##  ####  ##    ##  ####  ####  ##
##    ##  ####  ####  ##  ####  ##    ##  ##  ####  ##  ####    ##  ##  ####  ####  ####    ##  ##  ##  ##  ##    ####  ##  ####  ##    ##  ####  ####  ##
##    ##  ####  ####  ##  ####  ##    ##  ##  ####  ##  ####    ##  ##  ####  ####  ####    ##  ##  ##  ##  ##    ####  ##  ####  ##    ##  ####  ####  ##
##    ##  ####  ####  ##  ####  ##    ##  ##  ####  ##  ####    ##  ##  ####  ####  ####    ##  ##  ##  ##  ##    ####  ##  ####  ##    ##  ####  ####  ##
".trim());
}

#[test]
fn codabar_as_ascii() {
    let codabar = Codabar::new("A98B").expect("Failed to create Codabar barcode");
    let ascii = ASCII::new();
    let generated = ascii
        .generate(&codabar.encode()[..])
        .expect("Failed to generate ASCII representation for Codabar barcode");

    assert_eq!(
        generated,
        "
# ##  #  # ## #  # # #  ## # # # #  #  ##
# ##  #  # ## #  # # #  ## # # # #  #  ##
# ##  #  # ## #  # # #  ## # # # #  #  ##
# ##  #  # ## #  # # #  ## # # # #  #  ##
# ##  #  # ## #  # # #  ## # # # #  #  ##
# ##  #  # ## #  # # #  ## # # # #  #  ##
# ##  #  # ## #  # # #  ## # # # #  #  ##
# ##  #  # ## #  # # #  ## # # # #  #  ##
# ##  #  # ## #  # # #  ## # # # #  #  ##
# ##  #  # ## #  # # #  ## # # # #  #  ##
"
        .trim()
    );
}

#[test]
fn codabar_as_ascii_small_height_double_weight() {
    let codabar = Codabar::new("A40156B").expect("Failed to create Codabar barcode");
    let ascii = ASCII { height: 7, xdim: 2 };
    let generated = ascii
        .generate(&codabar.encode()[..])
        .expect("Failed to generate ASCII representation for Codabar barcode");

    assert_eq!(generated,
"
##  ####    ##    ##  ##  ####  ##    ##  ##  ##  ##    ####  ##  ##  ####    ##  ####  ##  ##    ##  ##    ##  ##  ####  ##  ##    ##    ####
##  ####    ##    ##  ##  ####  ##    ##  ##  ##  ##    ####  ##  ##  ####    ##  ####  ##  ##    ##  ##    ##  ##  ####  ##  ##    ##    ####
##  ####    ##    ##  ##  ####  ##    ##  ##  ##  ##    ####  ##  ##  ####    ##  ####  ##  ##    ##  ##    ##  ##  ####  ##  ##    ##    ####
##  ####    ##    ##  ##  ####  ##    ##  ##  ##  ##    ####  ##  ##  ####    ##  ####  ##  ##    ##  ##    ##  ##  ####  ##  ##    ##    ####
##  ####    ##    ##  ##  ####  ##    ##  ##  ##  ##    ####  ##  ##  ####    ##  ####  ##  ##    ##  ##    ##  ##  ####  ##  ##    ##    ####
##  ####    ##    ##  ##  ####  ##    ##  ##  ##  ##    ####  ##  ##  ####    ##  ####  ##  ##    ##  ##    ##  ##  ####  ##  ##    ##    ####
##  ####    ##    ##  ##  ####  ##    ##  ##  ##  ##    ####  ##  ##  ####    ##  ####  ##  ##    ##  ##    ##  ##  ####  ##  ##    ##    ####
".trim());
}

#[test]
fn code_128_as_ascii() {
    let code128 =
        Code128::new("HELLO", CharacterSet::A).expect("Failed to create Code128 barcode");
    let ascii = ASCII::new();
    let generated = ascii
        .generate(&code128.encode()[..])
        .expect("Failed to generate ASCII representation for Code128 barcode");

    assert_eq!(
        generated,
        "
## #    #  ##   # #   #   ## #   #   ## ### #   ## ### #   ### ## ## #   #   ##   ### # ##
## #    #  ##   # #   #   ## #   #   ## ### #   ## ### #   ### ## ## #   #   ##   ### # ##
## #    #  ##   # #   #   ## #   #   ## ### #   ## ### #   ### ## ## #   #   ##   ### # ##
## #    #  ##   # #   #   ## #   #   ## ### #   ## ### #   ### ## ## #   #   ##   ### # ##
## #    #  ##   # #   #   ## #   #   ## ### #   ## ### #   ### ## ## #   #   ##   ### # ##
## #    #  ##   # #   #   ## #   #   ## ### #   ## ### #   ### ## ## #   #   ##   ### # ##
## #    #  ##   # #   #   ## #   #   ## ### #   ## ### #   ### ## ## #   #   ##   ### # ##
## #    #  ##   # #   #   ## #   #   ## ### #   ## ### #   ### ## ## #   #   ##   ### # ##
## #    #  ##   # #   #   ## #   #   ## ### #   ## ### #   ### ## ## #   #   ##   ### # ##
## #    #  ##   # #   #   ## #   #   ## ### #   ## ### #   ### ## ## #   #   ##   ### # ##
"
        .trim()
    );
}

#[test]
fn code_128_as_ascii_small_height_double_weight() {
    let code128 = Code128::new("HELLO", CharacterSet::A)
        .expect("Failed to create Code128 barcode with CharacterSet::A");
    let ascii = ASCII { height: 7, xdim: 2 };
    let generated = ascii
        .generate(&code128.encode()[..])
        .expect("Failed to generate ASCII representation for Code128 barcode");

    assert_eq!(generated,
"
####  ##        ##    ####      ##  ##      ##      ####  ##      ##      ####  ######  ##      ####  ######  ##      ######  ####  ####  ##      ##      ####      ######  ##  ####
####  ##        ##    ####      ##  ##      ##      ####  ##      ##      ####  ######  ##      ####  ######  ##      ######  ####  ####  ##      ##      ####      ######  ##  ####
####  ##        ##    ####      ##  ##      ##      ####  ##      ##      ####  ######  ##      ####  ######  ##      ######  ####  ####  ##      ##      ####      ######  ##  ####
####  ##        ##    ####      ##  ##      ##      ####  ##      ##      ####  ######  ##      ####  ######  ##      ######  ####  ####  ##      ##      ####      ######  ##  ####
####  ##        ##    ####      ##  ##      ##      ####  ##      ##      ####  ######  ##      ####  ######  ##      ######  ####  ####  ##      ##      ####      ######  ##  ####
####  ##        ##    ####      ##  ##      ##      ####  ##      ##      ####  ######  ##      ####  ######  ##      ######  ####  ####  ##      ##      ####      ######  ##  ####
####  ##        ##    ####      ##  ##      ##      ####  ##      ##      ####  ######  ##      ####  ######  ##      ######  ####  ####  ##      ##      ####      ######  ##  ####
".trim());
}

#[test]
fn ean2_as_ascii() {
    let ean2 = EANSUPP::new("34").expect("Failed to create EAN2 barcode");
    let ascii = ASCII::new();
    let generated = ascii
        .generate(&ean2.encode()[..])
        .expect("Failed to generate ASCII representation for EAN2 barcode");

    assert_eq!(
        generated,
        "
# ## #    # # #   ##
# ## #    # # #   ##
# ## #    # # #   ##
# ## #    # # #   ##
# ## #    # # #   ##
# ## #    # # #   ##
# ## #    # # #   ##
# ## #    # # #   ##
# ## #    # # #   ##
# ## #    # # #   ##
"
        .trim()
    );
}

#[test]
fn ean5_as_ascii() {
    let ean5 = EANSUPP::new("50799").expect("Failed to create EAN5 barcode");
    let ascii = ASCII::new();
    let generated = ascii
        .generate(&ean5.encode()[..])
        .expect("Failed to generate ASCII representation for EAN5 barcode");

    assert_eq!(
        generated,
        "
# ## ##   # # #  ### #  #   # #   # ## #   # ##
# ## ##   # # #  ### #  #   # #   # ## #   # ##
# ## ##   # # #  ### #  #   # #   # ## #   # ##
# ## ##   # # #  ### #  #   # #   # ## #   # ##
# ## ##   # # #  ### #  #   # #   # ## #   # ##
# ## ##   # # #  ### #  #   # #   # ## #   # ##
# ## ##   # # #  ### #  #   # #   # ## #   # ##
# ## ##   # # #  ### #  #   # #   # ## #   # ##
# ## ##   # # #  ### #  #   # #   # ## #   # ##
# ## ##   # # #  ### #  #   # #   # ## #   # ##
"
        .trim()
    );
}

#[test]
fn itf_as_ascii() {
    let itf = TF::interleaved("12345")
        .expect("Failed to create interleaved TF barcode with input '12345'");
    let ascii = ASCII::new();
    let generated = ascii
        .generate(&itf.encode()[..])
        .expect("Failed to generate ASCII representation for interleaved TF barcode");

    assert_eq!(
        generated,
        "
# # ### #   # # ###   ### ### #   # #   ### # ### #   #   ## #
# # ### #   # # ###   ### ### #   # #   ### # ### #   #   ## #
# # ### #   # # ###   ### ### #   # #   ### # ### #   #   ## #
# # ### #   # # ###   ### ### #   # #   ### # ### #   #   ## #
# # ### #   # # ###   ### ### #   # #   ### # ### #   #   ## #
# # ### #   # # ###   ### ### #   # #   ### # ### #   #   ## #
# # ### #   # # ###   ### ### #   # #   ### # ### #   #   ## #
# # ### #   # # ###   ### ### #   # #   ### # ### #   #   ## #
# # ### #   # # ###   ### ### #   # #   ### # ### #   #   ## #
# # ### #   # # ###   ### ### #   # #   ### # ### #   #   ## #
"
        .trim()
    );
}

#[test]
fn code_93_as_ascii() {
    let code93 =
        Code93::new("TEST93").expect("Failed to create Code93 barcode with input 'TEST93'");
    let ascii = ASCII::new();
    let generated = ascii
        .generate(&code93.encode()[..])
        .expect("Failed to generate ASCII representation for Code93 barcode");

    assert_eq!(
        generated,
        "
# # #### ## #  ## ##  #  # ## # ##  ## #  ## #    # # # #    # # ### ## #  #   # # # #### #
# # #### ## #  ## ##  #  # ## # ##  ## #  ## #    # # # #    # # ### ## #  #   # # # #### #
# # #### ## #  ## ##  #  # ## # ##  ## #  ## #    # # # #    # # ### ## #  #   # # # #### #
# # #### ## #  ## ##  #  # ## # ##  ## #  ## #    # # # #    # # ### ## #  #   # # # #### #
# # #### ## #  ## ##  #  # ## # ##  ## #  ## #    # # # #    # # ### ## #  #   # # # #### #
# # #### ## #  ## ##  #  # ## # ##  ## #  ## #    # # # #    # # ### ## #  #   # # # #### #
# # #### ## #  ## ##  #  # ## # ##  ## #  ## #    # # # #    # # ### ## #  #   # # # #### #
# # #### ## #  ## ##  #  # ## # ##  ## #  ## #    # # # #    # # ### ## #  #   # # # #### #
# # #### ## #  ## ##  #  # ## # ##  ## #  ## #    # # # #    # # ### ## #  #   # # # #### #
# # #### ## #  ## ##  #  # ## # ##  ## #  ## #    # # # #    # # ### ## #  #   # # # #### #
"
        .trim()
    );
}

#[test]
fn code_93_as_ascii_small_height_double_weight() {
    let code93 =
        Code93::new("TEST93").expect("Failed to create Code93 barcode with input 'TEST93'");
    let ascii = ASCII { height: 7, xdim: 2 };
    let generated = ascii
        .generate(&code93.encode()[..])
        .expect("Failed to generate ASCII representation for Code93 barcode");

    assert_eq!(generated,
"
##  ##  ########  ####  ##    ####  ####    ##    ##  ####  ##  ####    ####  ##    ####  ##        ##  ##  ##  ##        ##  ##  ######  ####  ##    ##      ##  ##  ##  ########  ##
##  ##  ########  ####  ##    ####  ####    ##    ##  ####  ##  ####    ####  ##    ####  ##        ##  ##  ##  ##        ##  ##  ######  ####  ##    ##      ##  ##  ##  ########  ##
##  ##  ########  ####  ##    ####  ####    ##    ##  ####  ##  ####    ####  ##    ####  ##        ##  ##  ##  ##        ##  ##  ######  ####  ##    ##      ##  ##  ##  ########  ##
##  ##  ########  ####  ##    ####  ####    ##    ##  ####  ##  ####    ####  ##    ####  ##        ##  ##  ##  ##        ##  ##  ######  ####  ##    ##      ##  ##  ##  ########  ##
##  ##  ########  ####  ##    ####  ####    ##    ##  ####  ##  ####    ####  ##    ####  ##        ##  ##  ##  ##        ##  ##  ######  ####  ##    ##      ##  ##  ##  ########  ##
##  ##  ########  ####  ##    ####  ####    ##    ##  ####  ##  ####    ####  ##    ####  ##        ##  ##  ##  ##        ##  ##  ######  ####  ##    ##      ##  ##  ##  ########  ##
##  ##  ########  ####  ##    ####  ####    ##    ##  ####  ##  ####    ####  ##    ####  ##        ##  ##  ##  ##        ##  ##  ######  ####  ##    ##      ##  ##  ##  ########  ##
".trim());
}

#[test]
fn code_11_as_ascii() {
    let code11 =
        Code11::new("12-9").expect("Failed to create Code11 barcode with input '12-9'");
    let ascii = ASCII::new();
    let generated = ascii
        .generate(&code11.encode()[..])
        .expect("Failed to generate ASCII representation for Code11 barcode");

    assert_eq!(
        generated,
        "
# ##  # ## # ## #  # ## # ## # ## # # #  ## # # ##  #
# ##  # ## # ## #  # ## # ## # ## # # #  ## # # ##  #
# ##  # ## # ## #  # ## # ## # ## # # #  ## # # ##  #
# ##  # ## # ## #  # ## # ## # ## # # #  ## # # ##  #
# ##  # ## # ## #  # ## # ## # ## # # #  ## # # ##  #
# ##  # ## # ## #  # ## # ## # ## # # #  ## # # ##  #
# ##  # ## # ## #  # ## # ## # ## # # #  ## # # ##  #
# ##  # ## # ## #  # ## # ## # ## # # #  ## # # ##  #
# ##  # ## # ## #  # ## # ## # ## # # #  ## # # ##  #
# ##  # ## # ## #  # ## # ## # ## # # #  ## # # ##  #
"
        .trim()
    );
}
