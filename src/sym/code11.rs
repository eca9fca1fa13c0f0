//! Encoder for Code11 (USD-8) barcodes.
//!
//! Code11 encodes the decimal digits and the dash. It is mainly used in the
//! telecommunications industry.
//!
//! Code11 is a discrete symbology. This encoder always appends a C check
//! character; for data longer than 10 characters a second check character (K)
//! follows it.
use crate::error::Result;
use crate::sym::helpers::{
    check, find, join, lemma_find, lemma_join_last, lemma_join_push, parse,
    position, push_bits, weighted_sum, weighted_sum_mod, with_char,
};
use vstd::prelude::*;

verus! {

/// The characters that Code11 encodes, in table order.
pub const CHARS: [char; 11] = [
    '0', '1', '2', '3', '4', '5', '6', '7', '8', '9', '-',
];
/// The bar pattern of each character, padded with zeros to seven bits.
pub const BARS: [[u8; 7]; 11] = [
    [1, 0, 1, 0, 1, 1, 0],
    [1, 1, 0, 1, 0, 1, 1],
    [1, 0, 0, 1, 0, 1, 1],
    [1, 1, 0, 0, 1, 0, 1],
    [1, 0, 1, 1, 0, 1, 1],
    [1, 1, 0, 1, 1, 0, 1],
    [1, 0, 0, 1, 1, 0, 1],
    [1, 0, 1, 0, 0, 1, 1],
    [1, 1, 0, 1, 0, 0, 1],
    [1, 1, 0, 1, 0, 1, 0],
    [1, 0, 1, 1, 0, 1, 0],
];
/// How many bits of each row of `BARS` belong to the pattern.
pub const WIDTHS: [usize; 11] = [6, 7, 7, 7, 7, 7, 7, 7, 7, 6, 6];

/// The guard pattern at both ends.
pub const GUARD: [u8; 7] = [1, 0, 1, 1, 0, 0, 1];

/// The shortest accepted input, in bytes.
pub const MIN_LEN: usize = 1;

/// The longest accepted input, in bytes.
pub const MAX_LEN: usize = 255;

/// The bar pattern of one character.
pub open spec fn pattern(c: char) -> Seq<u8> {
    let k = find(CHARS@, c);
    BARS[k]@.take(WIDTHS[k] as int)
}

/// The check character over `data`, with weights that wrap after `threshold`.
/// Both check characters are reduced modulo 11, the size of the alphabet.
pub open spec fn checksum(data: Seq<char>, threshold: int) -> char {
    CHARS[weighted_sum(CHARS@, data, threshold) % 11]
}

/// The C check character.
pub open spec fn c_checksum(data: Seq<char>) -> char {
    checksum(data, 10)
}

/// The K check character, computed over the data followed by C.
pub open spec fn k_checksum(data: Seq<char>) -> char {
    checksum(data.push(c_checksum(data)), 9)
}

/// The data followed by its check characters: C, and K for data longer than 10.
pub open spec fn with_checks(data: Seq<char>) -> Seq<char> {
    if data.len() > 10 {
        data.push(c_checksum(data)).push(k_checksum(data))
    } else {
        data.push(c_checksum(data))
    }
}

/// Each character's pattern followed by a narrow space.
pub open spec fn spaced(chars: Seq<char>) -> Seq<Seq<u8>> {
    chars.map_values(|c: char| pattern(c) + seq![0u8])
}

/// The full bit sequence: guard, space, characters and checks, guard.
pub open spec fn encoding(data: Seq<char>) -> Seq<u8> {
    GUARD@ + seq![0u8] + join(spaced(with_checks(data))) + GUARD@
}

/// The Code11 barcode type.
#[derive(Debug)]
pub struct Code11(Vec<char>);

/// The USD-8 barcode type.
pub type USD8 = Code11;

impl View for Code11 {
    type V = Seq<char>;

    closed spec fn view(&self) -> Seq<char> {
        self.0@
    }
}

impl Code11 {
    #[verifier::type_invariant]
    spec fn valid(self) -> bool {
        check(self.0@, MIN_LEN as int, MAX_LEN as int, CHARS@) is None
    }

    /// Creates a new barcode.
    ///
    /// Returns `Error::Length` if the input is empty or longer than 255 bytes,
    /// and `Error::Character` if it holds a character other than a digit or `-`.
    pub fn new(data: &str) -> (r: Result<Self>)
        ensures
            match r {
                Ok(b) => b@ == data@ && check(data@, MIN_LEN as int, MAX_LEN as int, CHARS@) is None,
                Err(e) => check(data@, MIN_LEN as int, MAX_LEN as int, CHARS@) == Some(e),
            },
    {
        let chars = parse(data, MIN_LEN, MAX_LEN, &CHARS)?;
        Ok(Code11(chars))
    }

    /// Appends the pattern of a character of the alphabet.
    fn char_encoding(c: char, out: &mut Vec<u8>)
        requires
            CHARS@.contains(c),
        ensures
            final(out)@ == old(out)@ + pattern(c),
    {
        proof {
            lemma_find(CHARS@, c);
        }
        let k = match position(&CHARS, c) {
            Some(k) => k,
            None => 0,
        };
        push_bits(out, &BARS[k], WIDTHS[k]);
    }

    /// Calculates a check character using a weighted modulo-11 algorithm.
    fn checksum_char(data: &[char], weight_threshold: usize) -> (r: char)
        requires
            1 <= weight_threshold,
            forall|k: int| 0 <= k < data@.len() ==> CHARS@.contains(#[trigger] data@[k]),
        ensures
            r == checksum(data@, weight_threshold as int),
            CHARS@.contains(r),
    {
        let index = weighted_sum_mod(&CHARS, data, weight_threshold, 11);
        let r = CHARS[index];
        assert(CHARS@[index as int] == r);
        r
    }

    /// Calculates the C check character.
    fn c_checksum_char(&self) -> (r: char)
        ensures
            r == c_checksum(self@),
            CHARS@.contains(r),
    {
        proof {
            use_type_invariant(self);
        }
        Self::checksum_char(self.0.as_slice(), 10)
    }

    /// Calculates the K check character over the data followed by `c_checksum`.
    fn k_checksum_char(&self, c_checksum: char) -> (r: char)
        requires
            c_checksum == crate::sym::code11::c_checksum(self@),
            CHARS@.contains(c_checksum),
        ensures
            r == k_checksum(self@),
            CHARS@.contains(r),
    {
        proof {
            use_type_invariant(self);
        }
        let data = with_char(self.0.as_slice(), c_checksum);
        assert forall|k: int| 0 <= k < data@.len() implies CHARS@.contains(#[trigger] data@[k]) by {
            if k < self.0@.len() {
                assert(data@[k] == self.0@[k]);
            }
        }
        Self::checksum_char(data.as_slice(), 9)
    }

    /// Appends a character's pattern and the narrow space after it.
    fn push_encoding(into: &mut Vec<u8>, c: char)
        requires
            CHARS@.contains(c),
        ensures
            final(into)@ == old(into)@ + (pattern(c) + seq![0u8]),
    {
        Self::char_encoding(c, into);
        into.push(0);
    }

    /// The characters and check characters, each followed by a narrow space.
    fn payload(&self) -> (r: Vec<u8>)
        ensures
            r@ == join(spaced(with_checks(self@))),
    {
        proof {
            use_type_invariant(self);
        }
        let c_checksum = self.c_checksum_char();
        let mut all = with_char(self.0.as_slice(), c_checksum);
        // The K check character is only appended to data longer than 10 characters.
        if self.0.len() > 10 {
            let k_checksum = self.k_checksum_char(c_checksum);
            all = with_char(all.as_slice(), k_checksum);
        }
        assert(all@ == with_checks(self@));
        assert forall|k: int| 0 <= k < all@.len() implies CHARS@.contains(#[trigger] all@[k]) by {
            if k < self.0@.len() {
                assert(all@[k] == self.0@[k]);
            }
        }
        let mut enc: Vec<u8> = Vec::new();
        let n = all.len();
        let mut i: usize = 0;
        while i < n
            invariant
                n == all@.len(),
                0 <= i <= n,
                forall|k: int| 0 <= k < all@.len() ==> CHARS@.contains(#[trigger] all@[k]),
                enc@ == join(spaced(all@.take(i as int))),
            decreases n - i,
        {
            Self::push_encoding(&mut enc, all[i]);
            proof {
                let p = pattern(all@[i as int]) + seq![0u8];
                assert(spaced(all@.take(i + 1)) =~= spaced(all@.take(i as int)).push(p));
                lemma_join_push(spaced(all@.take(i as int)), p);
            }
            i = i + 1;
        }
        proof {
            assert(all@.take(n as int) =~= all@);
        }
        enc
    }

    /// Encodes the barcode.
    /// Returns a `Vec<u8>` of binary digits.
    pub fn encode(&self) -> (r: Vec<u8>)
        ensures
            r@ == encoding(self@),
    {
        let mut enc: Vec<u8> = Vec::new();
        push_bits(&mut enc, &GUARD, 7);
        enc.push(0);
        let payload = self.payload();
        crate::sym::helpers::push_slice(&mut enc, payload.as_slice());
        push_bits(&mut enc, &GUARD, 7);
        proof {
            assert(GUARD@.take(7) =~= GUARD@);
            assert(enc@ =~= encoding(self@));
        }
        enc
    }
}

/// Framing: the encoding starts with the guard pattern and the narrow space
/// after it, and ends with the narrow space after the last check character
/// and the guard pattern.
pub proof fn lemma_framing(data: Seq<char>)
    ensures
        encoding(data).take(8) == GUARD@ + seq![0u8],
        encoding(data).skip(encoding(data).len() - 8) == seq![0u8] + GUARD@,
{
    let e = encoding(data);
    let x = with_checks(data);
    let parts = spaced(x);
    let j = join(parts);
    assert(parts.last() == pattern(x.last()) + seq![0u8]);
    lemma_join_last(parts);
    assert(j =~= j.drop_last().push(0u8));
    assert(e =~= GUARD@ + seq![0u8] + j.drop_last() + (seq![0u8] + GUARD@));
    assert(e.take(8) =~= GUARD@ + seq![0u8]);
    assert(e.skip(e.len() - 8) =~= seq![0u8] + GUARD@);
}

} // verus!
