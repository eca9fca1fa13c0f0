//! Encoder for EAN-8 barcodes.
//!
//! EAN-8 barcodes are EAN style barcodes for smaller packages on products like
//! cigarettes and chewing gum, where package space is limited.
use crate::error::{Error, Result};
use crate::sym::ean13::{
    digit_pattern, digit_patterns, push_digits, ENCODINGS, LEFT_GUARD, MIDDLE_GUARD, RIGHT_GUARD,
};
use crate::sym::helpers::{
    check, digit_values, join, lemma_join_uniform_len, modulo_10, modulo_10_checksum, parse,
    push_bits, push_slice, to_digits, DIGITS,
};
use vstd::prelude::*;

verus! {

/// The sides of a pair of left-hand digits.
pub const LEFT_SIDES: [usize; 2] = [0, 0];

/// The sides of the three right-hand data digits.
pub const RIGHT_SIDES: [usize; 3] = [2, 2, 2];

/// The shortest accepted input: the data without its check digit.
pub const MIN_LEN: usize = 7;

/// The longest accepted input: the data followed by its check digit.
pub const MAX_LEN: usize = 8;

/// The check digit of seven digits.
pub open spec fn checksum(digits: Seq<u8>) -> int {
    modulo_10(digits, false)
}

/// What creating a barcode from `data` yields: the first seven digits, once
/// the length, the characters and any eighth (check) digit are accepted.
pub open spec fn digits_of(data: Seq<char>) -> Result<Seq<u8>> {
    match check(data, MIN_LEN as int, MAX_LEN as int, DIGITS@) {
        Some(e) => Err(e),
        None => {
            let d = digit_values(data);
            if d.len() == 8 && checksum(d.take(7)) != d[7] as int {
                Err(Error::Checksum)
            } else {
                Ok(d.take(7))
            }
        },
    }
}

/// The full bit sequence of seven digits.
pub open spec fn encoding(d: Seq<u8>) -> Seq<u8> {
    LEFT_GUARD@ + join(digit_patterns(d, 0, LEFT_SIDES@)) + join(digit_patterns(d, 2, LEFT_SIDES@))
        + MIDDLE_GUARD@ + join(digit_patterns(d, 4, RIGHT_SIDES@)) + digit_pattern(
        2,
        checksum(d) as u8,
    ) + RIGHT_GUARD@
}

/// The EAN-8 barcode type.
#[derive(Debug)]
pub struct EAN8(Vec<u8>);

impl View for EAN8 {
    type V = Seq<u8>;

    closed spec fn view(&self) -> Seq<u8> {
        self.0@
    }
}

impl EAN8 {
    #[verifier::type_invariant]
    spec fn valid(self) -> bool {
        &&& self.0@.len() == 7
        &&& forall|k: int| 0 <= k < self.0@.len() ==> #[trigger] self.0@[k] <= 9
    }

    /// Creates a new barcode from seven digits, or from seven digits and
    /// their check digit.
    ///
    /// Returns `Error::Length` for other lengths, `Error::Character` if a
    /// character is not a digit, and `Error::Checksum` if an eighth digit is
    /// not the check digit of the first seven.
    pub fn new(data: &str) -> (r: Result<Self>)
        ensures
            match r {
                Ok(b) => digits_of(data@) == Ok::<Seq<u8>, Error>(b@),
                Err(e) => digits_of(data@) == Err::<Seq<u8>, Error>(e),
            },
    {
        let chars = parse(data, MIN_LEN, MAX_LEN, &DIGITS)?;
        proof {
            assert forall|k: int| 0 <= k < chars@.len() implies DIGITS@.contains(
                #[trigger] chars@[k],
            ) by {
                if !DIGITS@.contains(chars@[k]) {
                    assert(check(data@, MIN_LEN as int, MAX_LEN as int, DIGITS@) == Some(
                        Error::Character,
                    ));
                }
            }
        }
        let digits = to_digits(chars.as_slice());
        let mut first: Vec<u8> = Vec::new();
        let mut i: usize = 0;
        while i < 7
            invariant
                7 <= digits@.len() <= 8,
                0 <= i <= 7,
                first@ == digits@.take(i as int),
            decreases 7 - i,
        {
            first.push(digits[i]);
            proof {
                assert(digits@.take(i + 1) =~= digits@.take(i as int).push(digits@[i as int]));
            }
            i = i + 1;
        }
        let ean8 = EAN8(first);
        // An eighth digit must be the check digit.
        if digits.len() == 8 && ean8.checksum_digit() != digits[7] {
            return Err(Error::Checksum);
        }
        Ok(ean8)
    }

    /// Calculates the check digit using a modulo-10 weighting algorithm.
    fn checksum_digit(&self) -> (r: u8)
        ensures
            r as int == checksum(self@),
            r <= 9,
    {
        proof {
            use_type_invariant(self);
        }
        modulo_10_checksum(self.0.as_slice(), false)
    }

    /// The patterns of the two number system digits.
    fn number_system_encoding(&self) -> (r: Vec<u8>)
        ensures
            r@ == join(digit_patterns(self@, 0, LEFT_SIDES@)),
    {
        proof {
            use_type_invariant(self);
        }
        let mut ns: Vec<u8> = Vec::new();
        push_digits(&mut ns, self.0.as_slice(), 0, &LEFT_SIDES);
        ns
    }

    fn checksum_encoding(&self, out: &mut Vec<u8>)
        ensures
            final(out)@ == old(out)@ + digit_pattern(2, checksum(self@) as u8),
    {
        Self::char_encoding(2, self.checksum_digit(), out);
    }

    /// Appends the pattern of digit `d` on `side`.
    fn char_encoding(side: usize, d: u8, out: &mut Vec<u8>)
        requires
            side <= 2,
            d <= 9,
        ensures
            final(out)@ == old(out)@ + digit_pattern(side as int, d),
    {
        push_bits(out, &ENCODINGS[side][d as usize], 7);
        assert(ENCODINGS[side as int][d as int]@.take(7) =~= digit_pattern(side as int, d));
    }

    /// The patterns of the two left-hand data digits.
    fn left_payload(&self) -> (r: Vec<u8>)
        ensures
            r@ == join(digit_patterns(self@, 2, LEFT_SIDES@)),
    {
        proof {
            use_type_invariant(self);
        }
        let mut enc: Vec<u8> = Vec::new();
        push_digits(&mut enc, self.0.as_slice(), 2, &LEFT_SIDES);
        enc
    }

    /// The patterns of the three right-hand data digits.
    fn right_payload(&self) -> (r: Vec<u8>)
        ensures
            r@ == join(digit_patterns(self@, 4, RIGHT_SIDES@)),
    {
        proof {
            use_type_invariant(self);
        }
        let mut enc: Vec<u8> = Vec::new();
        push_digits(&mut enc, self.0.as_slice(), 4, &RIGHT_SIDES);
        enc
    }

    /// Encodes the barcode.
    /// Returns a `Vec<u8>` of binary digits.
    pub fn encode(&self) -> (r: Vec<u8>)
        ensures
            r@ == encoding(self@),
    {
        let mut enc: Vec<u8> = Vec::new();
        push_bits(&mut enc, &LEFT_GUARD, 3);
        let ns = self.number_system_encoding();
        push_slice(&mut enc, ns.as_slice());
        let left = self.left_payload();
        push_slice(&mut enc, left.as_slice());
        push_bits(&mut enc, &MIDDLE_GUARD, 5);
        let right = self.right_payload();
        push_slice(&mut enc, right.as_slice());
        self.checksum_encoding(&mut enc);
        push_bits(&mut enc, &RIGHT_GUARD, 3);
        proof {
            assert(LEFT_GUARD@.take(3) =~= LEFT_GUARD@);
            assert(MIDDLE_GUARD@.take(5) =~= MIDDLE_GUARD@);
            assert(RIGHT_GUARD@.take(3) =~= RIGHT_GUARD@);
            assert(enc@ =~= encoding(self@));
        }
        enc
    }
}

/// Framing: the encoding is 67 bits; it starts with the left guard, holds
/// the middle guard at bits 31 to 35, and ends with the right guard.
pub proof fn lemma_framing(d: Seq<u8>)
    ensures
        encoding(d).len() == 67,
        encoding(d).take(3) == LEFT_GUARD@,
        encoding(d).subrange(31, 36) == MIDDLE_GUARD@,
        encoding(d).skip(64) == RIGHT_GUARD@,
{
    let e = encoding(d);
    let ns = digit_patterns(d, 0, LEFT_SIDES@);
    let left = digit_patterns(d, 2, LEFT_SIDES@);
    let right = digit_patterns(d, 4, RIGHT_SIDES@);
    lemma_join_uniform_len(ns, 7);
    lemma_join_uniform_len(left, 7);
    lemma_join_uniform_len(right, 7);
    let head = join(ns) + join(left);
    let tail = join(right) + digit_pattern(2, checksum(d) as u8);
    assert(e =~= LEFT_GUARD@ + head + MIDDLE_GUARD@ + tail + RIGHT_GUARD@);
    assert(e.take(3) =~= LEFT_GUARD@);
    assert(e.subrange(31, 36) =~= MIDDLE_GUARD@);
    assert(e.skip(64) =~= RIGHT_GUARD@);
}

} // verus!
