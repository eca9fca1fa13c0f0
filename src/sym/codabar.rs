//! Encoder for Codabar barcodes.
//!
//! Codabar is a simple, self-checking symbology without a standard for a checksum digit.
//! It is used by parcel carriers, some hospitals, and photo labs.
//!
//! Barcodes of this variant should start and end with either A, B, C, or D depending on
//! the industry.
use crate::error::{Error, Result};
use crate::sym::helpers::{check, find, lemma_find, parse, position, push_bits};
use vstd::prelude::*;

verus! {

/// The characters that Codabar encodes, in table order.
pub const CHARS: [char; 20] = [
    '0', '1', '2', '3', '4', '5', '6', '7', '8', '9', '-', '$', ':', '/', '.', '+', 'A', 'B', 'C',
    'D',
];

/// The bar pattern of each character, padded with zeros to twelve bits.
pub const BARS: [[u8; 12]; 20] = [
    [1, 0, 1, 0, 1, 0, 0, 1, 1, 0, 0, 0],
    [1, 0, 1, 0, 1, 1, 0, 0, 1, 0, 0, 0],
    [1, 0, 1, 0, 0, 1, 0, 1, 1, 0, 0, 0],
    [1, 1, 0, 0, 1, 0, 1, 0, 1, 0, 0, 0],
    [1, 0, 1, 1, 0, 1, 0, 0, 1, 0, 0, 0],
    [1, 1, 0, 1, 0, 1, 0, 0, 1, 0, 0, 0],
    [1, 0, 0, 1, 0, 1, 0, 1, 1, 0, 0, 0],
    [1, 0, 0, 1, 0, 1, 1, 0, 1, 0, 0, 0],
    [1, 0, 0, 1, 1, 0, 1, 0, 1, 0, 0, 0],
    [1, 1, 0, 1, 0, 0, 1, 0, 1, 0, 0, 0],
    [1, 0, 1, 0, 0, 1, 1, 0, 1, 0, 0, 0],
    [1, 0, 1, 1, 0, 0, 1, 0, 1, 0, 0, 0],
    [1, 1, 0, 1, 0, 1, 1, 0, 1, 1, 0, 0],
    [1, 1, 0, 1, 1, 0, 1, 0, 1, 1, 0, 0],
    [1, 1, 0, 1, 1, 0, 1, 1, 0, 1, 0, 0],
    [1, 0, 1, 1, 0, 0, 1, 1, 0, 0, 1, 1],
    [1, 0, 1, 1, 0, 0, 1, 0, 0, 1, 0, 0],
    [1, 0, 1, 0, 0, 1, 0, 0, 1, 1, 0, 0],
    [1, 0, 0, 1, 0, 0, 1, 0, 1, 1, 0, 0],
    [1, 0, 1, 0, 0, 1, 1, 0, 0, 1, 0, 0],
];

/// How many bits of each row of `BARS` belong to the pattern.
pub const WIDTHS: [usize; 20] = [9, 9, 9, 9, 9, 9, 9, 9, 9, 9, 9, 9, 10, 10, 10, 12, 10, 10, 10, 10];

/// The shortest accepted input, in bytes.
pub const MIN_LEN: usize = 1;

/// The longest accepted input, in bytes.
pub const MAX_LEN: usize = 255;

/// The bar pattern of one character.
pub open spec fn pattern(c: char) -> Seq<u8> {
    let k = find(CHARS@, c);
    BARS[k]@.take(WIDTHS[k] as int)
}

/// The patterns of the characters, one narrow space between neighbours.
pub open spec fn encoding(s: Seq<char>) -> Seq<u8>
    decreases s.len(),
{
    if s.len() == 0 {
        seq![]
    } else if s.len() == 1 {
        pattern(s[0])
    } else {
        encoding(s.drop_last()) + seq![0u8] + pattern(s.last())
    }
}

/// The Codabar barcode type.
#[derive(Debug)]
pub struct Codabar(Vec<char>);

impl View for Codabar {
    type V = Seq<char>;

    closed spec fn view(&self) -> Seq<char> {
        self.0@
    }
}

impl Codabar {
    #[verifier::type_invariant]
    spec fn valid(self) -> bool {
        check(self.0@, MIN_LEN as int, MAX_LEN as int, CHARS@) is None
    }

    /// Creates a new barcode.
    ///
    /// Returns `Error::Length` if the input is empty or longer than 255 bytes,
    /// and `Error::Character` if it holds a character outside the alphabet.
    pub fn new(data: &str) -> (r: Result<Self>)
        ensures
            match r {
                Ok(b) => b@ == data@ && check(data@, MIN_LEN as int, MAX_LEN as int, CHARS@) is None,
                Err(e) => check(data@, MIN_LEN as int, MAX_LEN as int, CHARS@) == Some(e),
            },
    {
        let chars = parse(data, MIN_LEN, MAX_LEN, &CHARS)?;
        Ok(Codabar(chars))
    }

    /// The table position of a character of the alphabet.
    fn from_char(c: char) -> (k: usize)
        requires
            CHARS@.contains(c),
        ensures
            k as int == find(CHARS@, c),
            k < 20,
    {
        proof {
            lemma_find(CHARS@, c);
        }
        match position(&CHARS, c) {
            Some(k) => k,
            None => 0,
        }
    }

    /// Appends the pattern of a character of the alphabet.
    fn lookup(c: char, out: &mut Vec<u8>)
        requires
            CHARS@.contains(c),
        ensures
            final(out)@ == old(out)@ + pattern(c),
    {
        let k = Self::from_char(c);
        push_bits(out, &BARS[k], WIDTHS[k]);
    }

    /// Encodes the barcode.
    /// Returns a `Vec<u8>` of binary digits.
    pub fn encode(&self) -> (r: Vec<u8>)
        ensures
            r@ == encoding(self@),
    {
        proof {
            use_type_invariant(self);
        }
        let mut enc: Vec<u8> = Vec::new();
        let n = self.0.len();
        let mut i: usize = 0;
        while i < n
            invariant
                n == self.0@.len(),
                0 <= i <= n,
                check(self.0@, MIN_LEN as int, MAX_LEN as int, CHARS@) is None,
                enc@ == encoding(self.0@.take(i as int)),
            decreases n - i,
        {
            let c = self.0[i];
            assert(CHARS@.contains(self.0@[i as int]));
            if i > 0 {
                enc.push(0);
            }
            Self::lookup(c, &mut enc);
            proof {
                assert(self.0@.take(i + 1).drop_last() =~= self.0@.take(i as int));
            }
            i = i + 1;
        }
        proof {
            assert(self.0@.take(n as int) =~= self.0@);
        }
        enc
    }
}

} // verus!
