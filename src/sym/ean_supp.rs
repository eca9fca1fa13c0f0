//! Encoders for supplemental 2-digit and 5-digit EAN barcodes.
//!
//! EAN-2 barcodes are used in magazines and newspapers to indicate issue number.
//! EAN-5 barcodes are often used to indicate the suggested retail price of books.
//!
//! These supplemental barcodes never appear without a full EAN-13 barcode alongside them.
use crate::error::{Error, Result};
use crate::sym::ean13::{digit_pattern, ENCODINGS};
use crate::sym::helpers::{
    check, digit_values, join_sep, lemma_join_sep_at, lemma_join_sep_uniform_len, parse, push_bits,
    to_digits, DIGITS,
};
use vstd::prelude::*;

verus! {

/// The left-hand guard pattern.
pub const LEFT_GUARD: [u8; 4] = [1, 0, 1, 1];

/// The sides (parity) of the five EAN-5 digits, selected by the check digit.
pub const EAN5_PARITY: [[usize; 5]; 10] = [
    [0, 0, 1, 1, 1],
    [1, 0, 1, 0, 0],
    [1, 0, 0, 1, 0],
    [1, 0, 0, 0, 1],
    [0, 1, 1, 0, 0],
    [0, 0, 1, 1, 0],
    [0, 0, 0, 1, 1],
    [0, 1, 0, 1, 0],
    [0, 1, 0, 0, 1],
    [0, 0, 1, 0, 1],
];

/// The sides (parity) of the two EAN-2 digits (and three unused), selected by
/// the value of the data modulo 4.
pub const EAN2_PARITY: [[usize; 5]; 4] = [
    [0, 0, 0, 0, 0],
    [0, 1, 0, 0, 0],
    [1, 0, 0, 0, 0],
    [1, 1, 0, 0, 0],
];

/// The shortest accepted input, in bytes.
pub const MIN_LEN: usize = 2;

/// The longest accepted input, in bytes.
pub const MAX_LEN: usize = 5;

/// The bits between two neighbouring digits.
pub open spec fn separator() -> Seq<u8> {
    seq![0u8, 1u8]
}

/// Digits at even positions weigh 3, those at odd positions 9.
pub open spec fn weighted_sum(d: Seq<u8>) -> int
    decreases d.len(),
{
    if d.len() == 0 {
        0
    } else {
        weighted_sum(d.drop_last()) + d.last() as int * (if (d.len() - 1) % 2 == 1 {
            9int
        } else {
            3int
        })
    }
}

/// The EAN-5 check digit. It is never encoded; it selects the parity.
pub open spec fn checksum(d: Seq<u8>) -> int {
    weighted_sum(d) % 10
}

/// The sides that the digits are drawn from.
pub open spec fn parity_of(d: Seq<u8>) -> [usize; 5] {
    if d.len() == 2 {
        EAN2_PARITY[(d[0] as int * 10 + d[1] as int) % 4]
    } else {
        EAN5_PARITY[checksum(d)]
    }
}

/// The digit patterns, each drawn from its side.
pub open spec fn patterns(d: Seq<u8>) -> Seq<Seq<u8>> {
    Seq::new(d.len(), |i: int| digit_pattern(parity_of(d)[i] as int, d[i]))
}

/// The full bit sequence: the guard, then the digits with a separator between neighbours.
pub open spec fn encoding(d: Seq<u8>) -> Seq<u8> {
    LEFT_GUARD@ + join_sep(patterns(d), separator())
}

/// What creating a barcode from `data` yields.
pub open spec fn digits_of(data: Seq<char>) -> Result<Seq<u8>> {
    match check(data, MIN_LEN as int, MAX_LEN as int, DIGITS@) {
        Some(e) => Err(e),
        None => if data.len() == 2 || data.len() == 5 {
            Ok(digit_values(data))
        } else {
            Err(Error::Length)
        },
    }
}

/// The Supplemental EAN barcode type.
#[derive(Debug)]
pub enum EANSUPP {
    /// EAN-2 supplemental barcode type.
    EAN2(Vec<u8>),
    /// EAN-5 supplemental barcode type.
    EAN5(Vec<u8>),
}

impl View for EANSUPP {
    type V = Seq<u8>;

    open spec fn view(&self) -> Seq<u8> {
        match self {
            EANSUPP::EAN2(d) => d@,
            EANSUPP::EAN5(d) => d@,
        }
    }
}

impl EANSUPP {
    /// Two digits for EAN-2, five for EAN-5, each at most 9.
    pub open spec fn wf(&self) -> bool {
        &&& match self {
            EANSUPP::EAN2(d) => d@.len() == 2,
            EANSUPP::EAN5(d) => d@.len() == 5,
        }
        &&& forall|k: int| 0 <= k < self@.len() ==> #[trigger] self@[k] <= 9
    }

    /// Creates a new barcode: an `EAN2` for two digits, an `EAN5` for five.
    ///
    /// Returns `Error::Length` if the input is shorter than 2 or longer than 5
    /// bytes, `Error::Character` if a character is not a digit, and then
    /// `Error::Length` for three or four digits.
    pub fn new(data: &str) -> (r: Result<Self>)
        ensures
            match r {
                Ok(b) => digits_of(data@) == Ok::<Seq<u8>, Error>(b@) && b.wf() && (b is EAN2
                    <==> data@.len() == 2),
                Err(e) => digits_of(data@) == Err::<Seq<u8>, Error>(e),
            },
    {
        let chars = parse(data, MIN_LEN, MAX_LEN, &DIGITS)?;
        proof {
            assert forall|k: int| 0 <= k < chars@.len() implies DIGITS@.contains(
                #[trigger] chars@[k],
            ) by {
                if !DIGITS@.contains(chars@[k]) {
                    assert(check(data@, MIN_LEN as int, MAX_LEN as int, DIGITS@) == Some(
                        Error::Character,
                    ));
                }
            }
        }
        let digits = to_digits(chars.as_slice());
        if digits.len() == 2 {
            Ok(EANSUPP::EAN2(digits))
        } else if digits.len() == 5 {
            Ok(EANSUPP::EAN5(digits))
        } else {
            Err(Error::Length)
        }
    }

    /// The digits.
    fn raw_data(&self) -> (r: &[u8])
        ensures
            r@ == self@,
    {
        match self {
            EANSUPP::EAN2(d) => d.as_slice(),
            EANSUPP::EAN5(d) => d.as_slice(),
        }
    }

    /// Appends the pattern of digit `d` on `side`.
    fn char_encoding(side: usize, d: u8, out: &mut Vec<u8>)
        requires
            side <= 2,
            d <= 9,
        ensures
            final(out)@ == old(out)@ + digit_pattern(side as int, d),
    {
        push_bits(out, &ENCODINGS[side][d as usize], 7);
        assert(ENCODINGS[side as int][d as int]@.take(7) =~= digit_pattern(side as int, d));
    }

    /// Calculates the check digit with the odd/even weighted modulo-10
    /// algorithm. It only has a use for EAN-5 barcodes.
    fn checksum_digit(&self) -> (r: u8)
        requires
            self.wf(),
        ensures
            r as int == checksum(self@),
            r <= 9,
    {
        let data = self.raw_data();
        let mut total: u32 = 0;
        let mut i: usize = 0;
        while i < data.len()
            invariant
                data@ == self@,
                data@.len() <= 5,
                forall|k: int| 0 <= k < data@.len() ==> #[trigger] data@[k] <= 9,
                0 <= i <= data@.len(),
                total as int == weighted_sum(data@.take(i as int)),
                total <= 81 * i,
            decreases data@.len() - i,
        {
            let d = data[i] as u32;
            proof {
                assert(data@.take(i + 1).drop_last() =~= data@.take(i as int));
            }
            if i % 2 == 1 {
                total = total + d * 9;
            } else {
                total = total + d * 3;
            }
            i = i + 1;
        }
        proof {
            assert(data@.take(data@.len() as int) =~= data@);
        }
        (total % 10) as u8
    }

    /// The sides that the digits are drawn from.
    fn parity(&self) -> (r: [usize; 5])
        requires
            self.wf(),
        ensures
            r == parity_of(self@),
            forall|k: int| 0 <= k < 5 ==> #[trigger] r@[k] <= 1,
    {
        match self {
            EANSUPP::EAN2(d) => {
                assert(self@[0] <= 9 && self@[1] <= 9);
                let modulo = (d[0] as u32 * 10 + d[1] as u32) % 4;
                EAN2_PARITY[modulo as usize]
            },
            EANSUPP::EAN5(_) => {
                let check = self.checksum_digit();
                EAN5_PARITY[check as usize]
            },
        }
    }

    /// The digit patterns with a separator between neighbours.
    fn payload(&self) -> (r: Vec<u8>)
        requires
            self.wf(),
        ensures
            r@ == join_sep(patterns(self@), separator()),
    {
        let data = self.raw_data();
        let parity = self.parity();
        let ghost parts = patterns(self@);
        let mut p: Vec<u8> = Vec::new();
        let n = data.len();
        let mut i: usize = 0;
        while i < n
            invariant
                data@ == self@,
                n == data@.len() <= 5,
                parity == parity_of(self@),
                forall|k: int| 0 <= k < 5 ==> #[trigger] parity@[k] <= 1,
                forall|k: int| 0 <= k < data@.len() ==> #[trigger] data@[k] <= 9,
                parts == patterns(self@),
                0 <= i <= n,
                p@ == join_sep(parts.take(i as int), separator()),
            decreases n - i,
        {
            if i > 0 {
                p.push(0);
                p.push(1);
            }
            Self::char_encoding(parity[i], data[i], &mut p);
            proof {
                assert(parts.take(i + 1).drop_last() =~= parts.take(i as int));
                assert(parts.take(i + 1).last() == parts[i as int]);
                if i == 0 {
                    assert(parts.take(1)[0] == parts[0]);
                }
            }
            i = i + 1;
        }
        proof {
            assert(parts.take(n as int) =~= parts);
        }
        p
    }

    /// Encodes the barcode.
    /// Returns a `Vec<u8>` of binary digits.
    pub fn encode(&self) -> (r: Vec<u8>)
        requires
            self.wf(),
        ensures
            r@ == encoding(self@),
    {
        let mut enc: Vec<u8> = Vec::new();
        push_bits(&mut enc, &LEFT_GUARD, 4);
        let payload = self.payload();
        crate::sym::helpers::push_slice(&mut enc, payload.as_slice());
        proof {
            assert(LEFT_GUARD@.take(4) =~= LEFT_GUARD@);
        }
        enc
    }
}

/// Two 2-digit supplementals whose values agree modulo 4 draw their digits
/// from the same sides: the parity depends on nothing else.
pub proof fn lemma_ean2_parity_by_residue(a: Seq<u8>, b: Seq<u8>)
    requires
        a.len() == 2,
        b.len() == 2,
        (a[0] as int * 10 + a[1] as int) % 4 == (b[0] as int * 10 + b[1] as int) % 4,
    ensures
        parity_of(a) == parity_of(b),
        forall|i: int|
            0 <= i < 2 ==> #[trigger] patterns(a)[i] == digit_pattern(parity_of(b)[i] as int, a[i]),
{
}

/// Framing: the encoding is the left guard followed by one 7-bit pattern per
/// digit, with 2-bit separators between them, and no check digit: 9 bits per
/// digit plus 2.
pub proof fn lemma_framing(d: Seq<u8>)
    requires
        d.len() >= 1,
    ensures
        encoding(d).len() == 9 * d.len() + 2,
        encoding(d).take(4) == LEFT_GUARD@,
        forall|i: int|
            1 <= i < d.len() ==> #[trigger] encoding(d).subrange(9 * i + 2, 9 * i + 4)
                == separator(),
{
    lemma_join_sep_uniform_len(patterns(d), separator(), 7);
    assert forall|i: int| 1 <= i < d.len() implies #[trigger] encoding(d).subrange(
        9 * i + 2,
        9 * i + 4,
    ) == separator() by {
        lemma_join_sep_at(patterns(d), separator(), 7, i);
        let j = join_sep(patterns(d), separator());
        assert(encoding(d).subrange(9 * i + 2, 9 * i + 4) =~= j.subrange(
            7 * i + 2 * (i - 1),
            7 * i + 2 * i,
        ));
    }
    assert(7 * d.len() + 2 * (d.len() - 1) + 4 == 9 * d.len() + 2);
    assert(encoding(d).take(4) =~= LEFT_GUARD@);
}

} // verus!
