//! Encoder for Code93 barcodes.
//!
//! Code93 improves upon Code39 with a wider alphabet and denser barcodes. It is a
//! continuous, variable-length symbology with two check characters.
//!
//! Only the basic Code93 alphabet is supported, not the full-ASCII mode; the
//! four shift characters are written `(`, `)`, `[` and `]`.
use crate::error::Result;
use crate::sym::helpers::{
    check, find, join, lemma_find, lemma_join_push, lemma_join_uniform_len, parse,
    position, push_bits, push_slice, weighted_sum, weighted_sum_mod, with_char,
};
use vstd::prelude::*;

verus! {

/// The characters that Code93 encodes, in table order.
pub const CHARS: [char; 47] = [
    '0', '1', '2', '3', '4', '5', '6', '7', '8', '9', 'A', 'B', 'C', 'D', 'E', 'F', 'G', 'H', 'I',
    'J', 'K', 'L', 'M', 'N', 'O', 'P', 'Q', 'R', 'S', 'T', 'U', 'V', 'W', 'X', 'Y', 'Z', '-', '.',
    ' ', '$', '/', '+', '%', '(', ')', '[', ']',
];
/// The bar pattern of each character.
pub const BARS: [[u8; 9]; 47] = [
    [1, 0, 0, 0, 1, 0, 1, 0, 0],
    [1, 0, 1, 0, 0, 1, 0, 0, 0],
    [1, 0, 1, 0, 0, 0, 1, 0, 0],
    [1, 0, 1, 0, 0, 0, 0, 1, 0],
    [1, 0, 0, 1, 0, 1, 0, 0, 0],
    [1, 0, 0, 1, 0, 0, 1, 0, 0],
    [1, 0, 0, 1, 0, 0, 0, 1, 0],
    [1, 0, 1, 0, 1, 0, 0, 0, 0],
    [1, 0, 0, 0, 1, 0, 0, 1, 0],
    [1, 0, 0, 0, 0, 1, 0, 1, 0],
    [1, 1, 0, 1, 0, 1, 0, 0, 0],
    [1, 1, 0, 1, 0, 0, 1, 0, 0],
    [1, 1, 0, 1, 0, 0, 0, 1, 0],
    [1, 1, 0, 0, 1, 0, 1, 0, 0],
    [1, 1, 0, 0, 1, 0, 0, 1, 0],
    [1, 1, 0, 0, 0, 1, 0, 1, 0],
    [1, 0, 1, 1, 0, 1, 0, 0, 0],
    [1, 0, 1, 1, 0, 0, 1, 0, 0],
    [1, 0, 1, 1, 0, 0, 0, 1, 0],
    [1, 0, 0, 1, 1, 0, 1, 0, 0],
    [1, 0, 0, 0, 1, 1, 0, 1, 0],
    [1, 0, 1, 0, 1, 1, 0, 0, 0],
    [1, 0, 1, 0, 0, 1, 1, 0, 0],
    [1, 0, 1, 0, 0, 0, 1, 1, 0],
    [1, 0, 0, 1, 0, 1, 1, 0, 0],
    [1, 0, 0, 0, 1, 0, 1, 1, 0],
    [1, 1, 0, 1, 1, 0, 1, 0, 0],
    [1, 1, 0, 1, 1, 0, 0, 1, 0],
    [1, 1, 0, 1, 0, 1, 1, 0, 0],
    [1, 1, 0, 1, 0, 0, 1, 1, 0],
    [1, 1, 0, 0, 1, 0, 1, 1, 0],
    [1, 1, 0, 0, 1, 1, 0, 1, 0],
    [1, 0, 1, 1, 0, 1, 1, 0, 0],
    [1, 0, 1, 1, 0, 0, 1, 1, 0],
    [1, 0, 0, 1, 1, 0, 1, 1, 0],
    [1, 0, 0, 1, 1, 1, 0, 1, 0],
    [1, 0, 0, 1, 0, 1, 1, 1, 0],
    [1, 1, 1, 0, 1, 0, 1, 0, 0],
    [1, 1, 1, 0, 1, 0, 0, 1, 0],
    [1, 1, 1, 0, 0, 1, 0, 1, 0],
    [1, 0, 1, 1, 0, 1, 1, 1, 0],
    [1, 0, 1, 1, 1, 0, 1, 1, 0],
    [1, 1, 0, 1, 0, 1, 1, 1, 0],
    [1, 0, 0, 1, 0, 0, 1, 1, 0],
    [1, 1, 1, 0, 1, 1, 0, 1, 0],
    [1, 1, 1, 0, 1, 0, 1, 1, 0],
    [1, 0, 0, 1, 1, 0, 0, 1, 0],
];

/// The guard pattern (the `*` character) at both ends.
pub const GUARD: [u8; 9] = [1, 0, 1, 0, 1, 1, 1, 1, 0];

/// The single bar that terminates the barcode.
pub const TERMINATOR: [u8; 1] = [1];

/// The shortest accepted input, in bytes.
pub const MIN_LEN: usize = 1;

/// The longest accepted input, in bytes.
pub const MAX_LEN: usize = 255;

/// The bar pattern of one character.
pub open spec fn pattern(c: char) -> Seq<u8> {
    BARS[find(CHARS@, c)]@
}

/// The check character over `data`, with weights that wrap after `threshold`,
/// reduced modulo 47.
pub open spec fn checksum(data: Seq<char>, threshold: int) -> char {
    CHARS[weighted_sum(CHARS@, data, threshold) % 47]
}

/// The C check character.
pub open spec fn c_checksum(data: Seq<char>) -> char {
    checksum(data, 20)
}

/// The K check character, computed over the data followed by C.
pub open spec fn k_checksum(data: Seq<char>) -> char {
    checksum(data.push(c_checksum(data)), 15)
}

/// The patterns of the characters, in order.
pub open spec fn patterns(chars: Seq<char>) -> Seq<Seq<u8>> {
    chars.map_values(|c: char| pattern(c))
}

/// The full bit sequence: guard, characters, C, K, guard and terminator bar.
pub open spec fn encoding(data: Seq<char>) -> Seq<u8> {
    GUARD@ + join(patterns(data.push(c_checksum(data)).push(k_checksum(data)))) + GUARD@
        + TERMINATOR@
}

/// The Code93 barcode type.
#[derive(Debug)]
pub struct Code93(Vec<char>);

impl View for Code93 {
    type V = Seq<char>;

    closed spec fn view(&self) -> Seq<char> {
        self.0@
    }
}

impl Code93 {
    #[verifier::type_invariant]
    spec fn valid(self) -> bool {
        check(self.0@, MIN_LEN as int, MAX_LEN as int, CHARS@) is None
    }

    /// Creates a new barcode.
    ///
    /// Returns `Error::Length` if the input is empty or longer than 255 bytes,
    /// and `Error::Character` if it holds a character outside the alphabet.
    pub fn new(data: &str) -> (r: Result<Self>)
        ensures
            match r {
                Ok(b) => b@ == data@ && check(data@, MIN_LEN as int, MAX_LEN as int, CHARS@) is None,
                Err(e) => check(data@, MIN_LEN as int, MAX_LEN as int, CHARS@) == Some(e),
            },
    {
        let chars = parse(data, MIN_LEN, MAX_LEN, &CHARS)?;
        Ok(Code93(chars))
    }

    /// Appends the pattern of a character of the alphabet.
    fn char_encoding(c: char, out: &mut Vec<u8>)
        requires
            CHARS@.contains(c),
        ensures
            final(out)@ == old(out)@ + pattern(c),
    {
        proof {
            lemma_find(CHARS@, c);
        }
        let k = match position(&CHARS, c) {
            Some(k) => k,
            None => 0,
        };
        push_bits(out, &BARS[k], 9);
        assert(BARS[k as int]@.take(9) =~= BARS[k as int]@);
    }

    /// Calculates a check character using a weighted modulo-47 algorithm.
    fn checksum_char(data: &[char], weight_threshold: usize) -> (r: char)
        requires
            1 <= weight_threshold,
            forall|k: int| 0 <= k < data@.len() ==> CHARS@.contains(#[trigger] data@[k]),
        ensures
            r == checksum(data@, weight_threshold as int),
            CHARS@.contains(r),
    {
        let index = weighted_sum_mod(&CHARS, data, weight_threshold, 47);
        let r = CHARS[index];
        assert(CHARS@[index as int] == r);
        r
    }

    /// Calculates the C check character.
    fn c_checksum_char(data: &[char]) -> (r: char)
        requires
            forall|k: int| 0 <= k < data@.len() ==> CHARS@.contains(#[trigger] data@[k]),
        ensures
            r == c_checksum(data@),
            CHARS@.contains(r),
    {
        Self::checksum_char(data, 20)
    }

    /// Calculates the K check character over the data followed by `c_checksum`.
    fn k_checksum_char(data: &[char], c_checksum: char) -> (r: char)
        requires
            forall|k: int| 0 <= k < data@.len() ==> CHARS@.contains(#[trigger] data@[k]),
            c_checksum == crate::sym::code93::c_checksum(data@),
            CHARS@.contains(c_checksum),
        ensures
            r == k_checksum(data@),
            CHARS@.contains(r),
    {
        let extended_data = with_char(data, c_checksum);
        assert forall|k: int|
            0 <= k < extended_data@.len() implies CHARS@.contains(
            #[trigger] extended_data@[k],
        ) by {
            if k < data@.len() {
                assert(extended_data@[k] == data@[k]);
            }
        }
        Self::checksum_char(extended_data.as_slice(), 15)
    }

    /// Appends a character's pattern; Code93 has no space between characters.
    fn push_encoding(into: &mut Vec<u8>, c: char)
        requires
            CHARS@.contains(c),
        ensures
            final(into)@ == old(into)@ + pattern(c),
    {
        Self::char_encoding(c, into);
    }

    /// The patterns of the characters followed by those of C and K.
    fn payload(&self) -> (r: Vec<u8>)
        ensures
            r@ == join(patterns(self@.push(c_checksum(self@)).push(k_checksum(self@)))),
    {
        proof {
            use_type_invariant(self);
        }
        let c_checksum = Self::c_checksum_char(self.0.as_slice());
        let k_checksum = Self::k_checksum_char(self.0.as_slice(), c_checksum);
        let with_c = with_char(self.0.as_slice(), c_checksum);
        let all = with_char(with_c.as_slice(), k_checksum);
        assert forall|k: int| 0 <= k < all@.len() implies CHARS@.contains(#[trigger] all@[k]) by {
            if k < self.0@.len() {
                assert(all@[k] == self.0@[k]);
            }
        }
        let mut enc: Vec<u8> = Vec::new();
        let n = all.len();
        let mut i: usize = 0;
        while i < n
            invariant
                n == all@.len(),
                0 <= i <= n,
                forall|k: int| 0 <= k < all@.len() ==> CHARS@.contains(#[trigger] all@[k]),
                enc@ == join(patterns(all@.take(i as int))),
            decreases n - i,
        {
            Self::push_encoding(&mut enc, all[i]);
            proof {
                let p = pattern(all@[i as int]);
                assert(patterns(all@.take(i + 1)) =~= patterns(all@.take(i as int)).push(p));
                lemma_join_push(patterns(all@.take(i as int)), p);
            }
            i = i + 1;
        }
        proof {
            assert(all@.take(n as int) =~= all@);
        }
        enc
    }

    /// Encodes the barcode.
    /// Returns a `Vec<u8>` of binary digits.
    pub fn encode(&self) -> (r: Vec<u8>)
        ensures
            r@ == encoding(self@),
    {
        let mut enc: Vec<u8> = Vec::new();
        push_bits(&mut enc, &GUARD, 9);
        let payload = self.payload();
        push_slice(&mut enc, payload.as_slice());
        push_bits(&mut enc, &GUARD, 9);
        push_bits(&mut enc, &TERMINATOR, 1);
        proof {
            assert(GUARD@.take(9) =~= GUARD@);
            assert(TERMINATOR@.take(1) =~= TERMINATOR@);
            assert(enc@ =~= encoding(self@));
        }
        enc
    }
}

/// Framing: the encoding is 9 bits for each character, 18 for the two check
/// characters, and 19 for the guards and terminator; it starts with the
/// guard pattern and ends with the guard pattern and the terminator bar.
pub proof fn lemma_framing(data: Seq<char>)
    ensures
        encoding(data).len() == 9 * data.len() + 37,
        encoding(data).take(9) == GUARD@,
        encoding(data).skip(encoding(data).len() - 10) == GUARD@ + TERMINATOR@,
{
    let e = encoding(data);
    let parts = patterns(data.push(c_checksum(data)).push(k_checksum(data)));
    let body = join(parts);
    lemma_join_uniform_len(parts, 9);
    assert(e =~= GUARD@ + body + (GUARD@ + TERMINATOR@));
    assert(e.take(9) =~= GUARD@);
    assert(e.skip(e.len() - 10) =~= GUARD@ + TERMINATOR@);
}

} // verus!
