//! Encoder for EAN-13 barcodes.
//!
//! EAN-13 barcodes are very common in retail. This module also names the
//! Bookland and JAN variants, which are EAN-13 barcodes with a fixed number system.
use crate::error::{Error, Result};
use crate::sym::helpers::{
    check, digit_values, join, lemma_join_push, lemma_join_uniform_len, modulo_10,
    modulo_10_checksum, parse, push_bits, push_slice, to_digits, DIGITS,
};
use vstd::prelude::*;

verus! {

/// Encoding mappings for EAN barcodes: 1 = bar, 0 = no bar.
///
/// The three sides are:
/// * Left side A (odd parity).
/// * Left side B (even parity).
/// * Right side encodings.
pub const ENCODINGS: [[[u8; 7]; 10]; 3] = [
    [
        [0, 0, 0, 1, 1, 0, 1],
        [0, 0, 1, 1, 0, 0, 1],
        [0, 0, 1, 0, 0, 1, 1],
        [0, 1, 1, 1, 1, 0, 1],
        [0, 1, 0, 0, 0, 1, 1],
        [0, 1, 1, 0, 0, 0, 1],
        [0, 1, 0, 1, 1, 1, 1],
        [0, 1, 1, 1, 0, 1, 1],
        [0, 1, 1, 0, 1, 1, 1],
        [0, 0, 0, 1, 0, 1, 1],
    ],
    [
        [0, 1, 0, 0, 1, 1, 1],
        [0, 1, 1, 0, 0, 1, 1],
        [0, 0, 1, 1, 0, 1, 1],
        [0, 1, 0, 0, 0, 0, 1],
        [0, 0, 1, 1, 1, 0, 1],
        [0, 1, 1, 1, 0, 0, 1],
        [0, 0, 0, 0, 1, 0, 1],
        [0, 0, 1, 0, 0, 0, 1],
        [0, 0, 0, 1, 0, 0, 1],
        [0, 0, 1, 0, 1, 1, 1],
    ],
    [
        [1, 1, 1, 0, 0, 1, 0],
        [1, 1, 0, 0, 1, 1, 0],
        [1, 1, 0, 1, 1, 0, 0],
        [1, 0, 0, 0, 0, 1, 0],
        [1, 0, 1, 1, 1, 0, 0],
        [1, 0, 0, 1, 1, 1, 0],
        [1, 0, 1, 0, 0, 0, 0],
        [1, 0, 0, 0, 1, 0, 0],
        [1, 0, 0, 1, 0, 0, 0],
        [1, 1, 1, 0, 1, 0, 0],
    ],
];

/// The side (parity) of each of the five left-hand digits after the first
/// one, selected by the leading digit of the data.
pub const PARITY: [[usize; 5]; 10] = [
    [0, 0, 0, 0, 0],
    [0, 1, 0, 1, 1],
    [0, 1, 1, 0, 1],
    [0, 1, 1, 1, 0],
    [1, 0, 0, 1, 1],
    [1, 1, 0, 0, 1],
    [1, 1, 1, 0, 0],
    [1, 0, 1, 0, 1],
    [1, 0, 1, 1, 0],
    [1, 1, 0, 1, 0],
];

/// The left-hand guard pattern.
pub const LEFT_GUARD: [u8; 3] = [1, 0, 1];

/// The middle guard pattern.
pub const MIDDLE_GUARD: [u8; 5] = [0, 1, 0, 1, 0];

/// The right-hand guard pattern.
pub const RIGHT_GUARD: [u8; 3] = [1, 0, 1];

/// The sides that the right-hand digits are drawn from.
pub const RIGHT_SIDES: [usize; 5] = [2, 2, 2, 2, 2];

/// The shortest accepted input: the data without its check digit.
pub const MIN_LEN: usize = 12;

/// The longest accepted input: the data followed by its check digit.
pub const MAX_LEN: usize = 13;

/// The pattern of digit `d` on `side`.
pub open spec fn digit_pattern(side: int, d: u8) -> Seq<u8> {
    ENCODINGS[side][d as int]@
}

/// The patterns of the digits that start at `from`, the i-th drawn from side `sides[i]`.
pub open spec fn digit_patterns(digits: Seq<u8>, from: int, sides: Seq<usize>) -> Seq<Seq<u8>> {
    Seq::new(sides.len(), |i: int| digit_pattern(sides[i] as int, digits[from + i]))
}

/// The check digit of twelve digits.
pub open spec fn checksum(digits: Seq<u8>) -> int {
    modulo_10(digits, true)
}

/// What creating a barcode from `data` yields: the first twelve digits, once
/// the length, the characters and any thirteenth (check) digit are accepted.
pub open spec fn digits_of(data: Seq<char>) -> Result<Seq<u8>> {
    match check(data, MIN_LEN as int, MAX_LEN as int, DIGITS@) {
        Some(e) => Err(e),
        None => {
            let d = digit_values(data);
            if d.len() == 13 && checksum(d.take(12)) != d[12] as int {
                Err(Error::Checksum)
            } else {
                Ok(d.take(12))
            }
        },
    }
}

/// The full bit sequence of twelve digits.
pub open spec fn encoding(d: Seq<u8>) -> Seq<u8> {
    LEFT_GUARD@ + digit_pattern(0, d[1]) + join(digit_patterns(d, 2, PARITY[d[0] as int]@))
        + MIDDLE_GUARD@ + join(digit_patterns(d, 7, RIGHT_SIDES@)) + digit_pattern(
        2,
        checksum(d) as u8,
    ) + RIGHT_GUARD@
}

/// Appends the patterns of the digits that start at `from`, the i-th drawn
/// from side `sides[i]`.
pub fn push_digits<const N: usize>(out: &mut Vec<u8>, digits: &[u8], from: usize, sides: &[usize; N])
    requires
        from + N <= digits@.len(),
        forall|k: int| 0 <= k < digits@.len() ==> #[trigger] digits@[k] <= 9,
        forall|k: int| 0 <= k < N ==> #[trigger] sides@[k] <= 2,
    ensures
        final(out)@ == old(out)@ + join(digit_patterns(digits@, from as int, sides@)),
{
    let ghost start = out@;
    let n = digits.len();
    let mut i: usize = 0;
    while i < N
        invariant
            n == digits@.len(),
            from + N <= digits@.len(),
            forall|k: int| 0 <= k < digits@.len() ==> #[trigger] digits@[k] <= 9,
            forall|k: int| 0 <= k < N ==> #[trigger] sides@[k] <= 2,
            sides@.len() == N,
            0 <= i <= N,
            out@ == start + join(digit_patterns(digits@, from as int, sides@.take(i as int))),
        decreases N - i,
    {
        let side = sides[i];
        let d = digits[from + i];
        assert(side <= 2 && d <= 9);
        push_bits(out, &ENCODINGS[side][d as usize], 7);
        proof {
            let p = digit_pattern(side as int, d);
            assert(ENCODINGS[side as int][d as int]@.take(7) =~= p);
            assert(digit_patterns(digits@, from as int, sides@.take(i + 1)) =~= digit_patterns(
                digits@,
                from as int,
                sides@.take(i as int),
            ).push(p));
            lemma_join_push(digit_patterns(digits@, from as int, sides@.take(i as int)), p);
        }
        i = i + 1;
    }
    proof {
        assert(sides@.take(N as int) =~= sides@);
    }
}

/// The EAN-13 barcode type.
#[derive(Debug)]
pub struct EAN13(Vec<u8>);

/// The Bookland barcode type: EAN-13 barcodes that use number system 978.
pub type Bookland = EAN13;

/// The JAN barcode type: EAN-13 barcodes that use number system 49.
pub type JAN = EAN13;

impl View for EAN13 {
    type V = Seq<u8>;

    closed spec fn view(&self) -> Seq<u8> {
        self.0@
    }
}

impl EAN13 {
    #[verifier::type_invariant]
    spec fn valid(self) -> bool {
        &&& self.0@.len() == 12
        &&& forall|k: int| 0 <= k < self.0@.len() ==> #[trigger] self.0@[k] <= 9
    }

    /// Creates a new barcode from twelve digits, or from twelve digits and
    /// their check digit.
    ///
    /// Returns `Error::Length` for other lengths, `Error::Character` if a
    /// character is not a digit, and `Error::Checksum` if a thirteenth digit
    /// is not the check digit of the first twelve.
    pub fn new(data: &str) -> (r: Result<Self>)
        ensures
            match r {
                Ok(b) => digits_of(data@) == Ok::<Seq<u8>, Error>(b@),
                Err(e) => digits_of(data@) == Err::<Seq<u8>, Error>(e),
            },
    {
        let chars = parse(data, MIN_LEN, MAX_LEN, &DIGITS)?;
        proof {
            assert forall|k: int| 0 <= k < chars@.len() implies DIGITS@.contains(
                #[trigger] chars@[k],
            ) by {
                if !DIGITS@.contains(chars@[k]) {
                    assert(check(data@, MIN_LEN as int, MAX_LEN as int, DIGITS@) == Some(
                        Error::Character,
                    ));
                }
            }
        }
        let digits = to_digits(chars.as_slice());
        let mut first: Vec<u8> = Vec::new();
        let mut i: usize = 0;
        while i < 12
            invariant
                12 <= digits@.len() <= 13,
                0 <= i <= 12,
                first@ == digits@.take(i as int),
            decreases 12 - i,
        {
            first.push(digits[i]);
            proof {
                assert(digits@.take(i + 1) =~= digits@.take(i as int).push(digits@[i as int]));
            }
            i = i + 1;
        }
        let ean13 = EAN13(first);
        // A thirteenth digit must be the check digit.
        if digits.len() == 13 && ean13.checksum_digit() != digits[12] {
            return Err(Error::Checksum);
        }
        Ok(ean13)
    }

    /// Calculates the check digit using a modulo-10 weighting algorithm.
    fn checksum_digit(&self) -> (r: u8)
        ensures
            r as int == checksum(self@),
            r <= 9,
    {
        proof {
            use_type_invariant(self);
        }
        modulo_10_checksum(self.0.as_slice(), true)
    }

    /// The digit that the number system pattern encodes.
    fn number_system_digit(&self) -> (r: u8)
        ensures
            r == self@[1],
            r <= 9,
    {
        proof {
            use_type_invariant(self);
        }
        self.0[1]
    }

    fn number_system_encoding(&self, out: &mut Vec<u8>)
        ensures
            final(out)@ == old(out)@ + digit_pattern(0, self@[1]),
    {
        Self::char_encoding(0, self.number_system_digit(), out);
    }

    fn checksum_encoding(&self, out: &mut Vec<u8>)
        ensures
            final(out)@ == old(out)@ + digit_pattern(2, checksum(self@) as u8),
    {
        Self::char_encoding(2, self.checksum_digit(), out);
    }

    /// Appends the pattern of digit `d` on `side`.
    fn char_encoding(side: usize, d: u8, out: &mut Vec<u8>)
        requires
            side <= 2,
            d <= 9,
        ensures
            final(out)@ == old(out)@ + digit_pattern(side as int, d),
    {
        push_bits(out, &ENCODINGS[side][d as usize], 7);
        assert(ENCODINGS[side as int][d as int]@.take(7) =~= digit_pattern(side as int, d));
    }

    /// The sides of the five left-hand digits after the first, selected by the leading digit.
    fn parity_mapping(&self) -> (r: [usize; 5])
        ensures
            r == PARITY[self@[0] as int],
            forall|k: int| 0 <= k < 5 ==> #[trigger] r@[k] <= 1,
    {
        proof {
            use_type_invariant(self);
        }
        PARITY[self.0[0] as usize]
    }

    /// The patterns of the left-hand digits after the first.
    fn left_payload(&self) -> (r: Vec<u8>)
        ensures
            r@ == join(digit_patterns(self@, 2, PARITY[self@[0] as int]@)),
    {
        proof {
            use_type_invariant(self);
        }
        let parity = self.parity_mapping();
        let mut enc: Vec<u8> = Vec::new();
        push_digits(&mut enc, self.0.as_slice(), 2, &parity);
        enc
    }

    /// The patterns of the right-hand digits.
    fn right_payload(&self) -> (r: Vec<u8>)
        ensures
            r@ == join(digit_patterns(self@, 7, RIGHT_SIDES@)),
    {
        proof {
            use_type_invariant(self);
        }
        let mut enc: Vec<u8> = Vec::new();
        push_digits(&mut enc, self.0.as_slice(), 7, &RIGHT_SIDES);
        enc
    }

    /// Encodes the barcode.
    /// Returns a `Vec<u8>` of binary digits.
    pub fn encode(&self) -> (r: Vec<u8>)
        ensures
            r@ == encoding(self@),
    {
        let mut enc: Vec<u8> = Vec::new();
        push_bits(&mut enc, &LEFT_GUARD, 3);
        self.number_system_encoding(&mut enc);
        let left = self.left_payload();
        push_slice(&mut enc, left.as_slice());
        push_bits(&mut enc, &MIDDLE_GUARD, 5);
        let right = self.right_payload();
        push_slice(&mut enc, right.as_slice());
        self.checksum_encoding(&mut enc);
        push_bits(&mut enc, &RIGHT_GUARD, 3);
        proof {
            assert(LEFT_GUARD@.take(3) =~= LEFT_GUARD@);
            assert(MIDDLE_GUARD@.take(5) =~= MIDDLE_GUARD@);
            assert(RIGHT_GUARD@.take(3) =~= RIGHT_GUARD@);
            assert(enc@ =~= encoding(self@));
        }
        enc
    }
}

/// Framing: the encoding is 95 bits; it starts with the left guard, holds
/// the middle guard at bits 45 to 49, and ends with the right guard.
pub proof fn lemma_framing(d: Seq<u8>)
    ensures
        encoding(d).len() == 95,
        encoding(d).take(3) == LEFT_GUARD@,
        encoding(d).subrange(45, 50) == MIDDLE_GUARD@,
        encoding(d).skip(92) == RIGHT_GUARD@,
{
    let e = encoding(d);
    let left = digit_patterns(d, 2, PARITY[d[0] as int]@);
    let right = digit_patterns(d, 7, RIGHT_SIDES@);
    lemma_join_uniform_len(left, 7);
    lemma_join_uniform_len(right, 7);
    let head = digit_pattern(0, d[1]) + join(left);
    let tail = join(right) + digit_pattern(2, checksum(d) as u8);
    assert(e =~= LEFT_GUARD@ + head + MIDDLE_GUARD@ + tail + RIGHT_GUARD@);
    assert(e.take(3) =~= LEFT_GUARD@);
    assert(e.subrange(45, 50) =~= MIDDLE_GUARD@);
    assert(e.skip(92) =~= RIGHT_GUARD@);
}

} // verus!
