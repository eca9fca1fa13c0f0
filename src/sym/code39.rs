//! Encoder for Code39 barcodes.
//!
//! Code39 is a discrete, variable-length barcode, often referred to as "3-of-9".
//! A modulo-43 check character can be appended on request.
use crate::error::Result;
use crate::sym::helpers::{
    check, find, join, lemma_find, lemma_join_last, lemma_join_push, lemma_join_uniform_len, parse,
    position, push_bits, push_slice, weighted_sum, weighted_sum_mod,
};
use vstd::prelude::*;

verus! {

/// The characters that Code39 encodes, in table order.
pub const CHARS: [char; 43] = [
    '0', '1', '2', '3', '4', '5', '6', '7', '8', '9', 'A', 'B', 'C', 'D', 'E', 'F', 'G', 'H', 'I',
    'J', 'K', 'L', 'M', 'N', 'O', 'P', 'Q', 'R', 'S', 'T', 'U', 'V', 'W', 'X', 'Y', 'Z', '-', '.',
    ' ', '$', '/', '+', '%',
];
/// The bar pattern of each character.
pub const BARS: [[u8; 12]; 43] = [
    [1, 0, 1, 0, 0, 1, 1, 0, 1, 1, 0, 1],
    [1, 1, 0, 1, 0, 0, 1, 0, 1, 0, 1, 1],
    [1, 0, 1, 1, 0, 0, 1, 0, 1, 0, 1, 1],
    [1, 1, 0, 1, 1, 0, 0, 1, 0, 1, 0, 1],
    [1, 0, 1, 0, 0, 1, 1, 0, 1, 0, 1, 1],
    [1, 1, 0, 1, 0, 0, 1, 1, 0, 1, 0, 1],
    [1, 0, 1, 1, 0, 0, 1, 1, 0, 1, 0, 1],
    [1, 0, 1, 0, 0, 1, 0, 1, 1, 0, 1, 1],
    [1, 1, 0, 1, 0, 0, 1, 0, 1, 1, 0, 1],
    [1, 0, 1, 1, 0, 0, 1, 0, 1, 1, 0, 1],
    [1, 1, 0, 1, 0, 1, 0, 0, 1, 0, 1, 1],
    [1, 0, 1, 1, 0, 1, 0, 0, 1, 0, 1, 1],
    [1, 1, 0, 1, 1, 0, 1, 0, 0, 1, 0, 1],
    [1, 0, 1, 0, 1, 1, 0, 0, 1, 0, 1, 1],
    [1, 1, 0, 1, 0, 1, 1, 0, 0, 1, 0, 1],
    [1, 0, 1, 1, 0, 1, 1, 0, 0, 1, 0, 1],
    [1, 0, 1, 0, 1, 0, 0, 1, 1, 0, 1, 1],
    [1, 1, 0, 1, 0, 1, 0, 0, 1, 1, 0, 1],
    [1, 0, 1, 1, 0, 1, 0, 0, 1, 1, 0, 1],
    [1, 0, 1, 0, 1, 1, 0, 0, 1, 1, 0, 1],
    [1, 1, 0, 1, 0, 1, 0, 1, 0, 0, 1, 1],
    [1, 0, 1, 1, 0, 1, 0, 1, 0, 0, 1, 1],
    [1, 1, 0, 1, 1, 0, 1, 0, 1, 0, 0, 1],
    [1, 0, 1, 0, 1, 1, 0, 1, 0, 0, 1, 1],
    [1, 1, 0, 1, 0, 1, 1, 0, 1, 0, 0, 1],
    [1, 0, 1, 1, 0, 1, 1, 0, 1, 0, 0, 1],
    [1, 0, 1, 0, 1, 0, 1, 1, 0, 0, 1, 1],
    [1, 1, 0, 1, 0, 1, 0, 1, 1, 0, 0, 1],
    [1, 0, 1, 1, 0, 1, 0, 1, 1, 0, 0, 1],
    [1, 0, 1, 0, 1, 1, 0, 1, 1, 0, 0, 1],
    [1, 1, 0, 0, 1, 0, 1, 0, 1, 0, 1, 1],
    [1, 0, 0, 1, 1, 0, 1, 0, 1, 0, 1, 1],
    [1, 1, 0, 0, 1, 1, 0, 1, 0, 1, 0, 1],
    [1, 0, 0, 1, 0, 1, 1, 0, 1, 0, 1, 1],
    [1, 1, 0, 0, 1, 0, 1, 1, 0, 1, 0, 1],
    [1, 0, 0, 1, 1, 0, 1, 1, 0, 1, 0, 1],
    [1, 0, 0, 1, 0, 1, 0, 1, 1, 0, 1, 1],
    [1, 1, 0, 0, 1, 0, 1, 0, 1, 1, 0, 1],
    [1, 0, 0, 1, 1, 0, 1, 0, 1, 1, 0, 1],
    [1, 0, 0, 1, 0, 0, 1, 0, 0, 1, 0, 1],
    [1, 0, 0, 1, 0, 0, 1, 0, 1, 0, 0, 1],
    [1, 0, 0, 1, 0, 1, 0, 0, 1, 0, 0, 1],
    [1, 0, 1, 0, 0, 1, 0, 0, 1, 0, 0, 1],
];

/// The guard pattern (the `*` character) at both ends.
pub const GUARD: [u8; 12] = [1, 0, 0, 1, 0, 1, 1, 0, 1, 1, 0, 1];

/// The shortest accepted input, in bytes.
pub const MIN_LEN: usize = 1;

/// The longest accepted input, in bytes.
pub const MAX_LEN: usize = 255;

/// The bar pattern of one character.
pub open spec fn pattern(c: char) -> Seq<u8> {
    BARS[find(CHARS@, c)]@
}

/// The modulo-43 check character: the sum of the characters' table positions
/// (with a weight threshold of 1 every weight is 1), reduced modulo 43.
pub open spec fn checksum(data: Seq<char>) -> char {
    CHARS[weighted_sum(CHARS@, data, 1) % 43]
}

/// The data, followed by its check character when one is requested.
pub open spec fn with_check(data: Seq<char>, checksum: bool) -> Seq<char> {
    if checksum {
        data.push(crate::sym::code39::checksum(data))
    } else {
        data
    }
}

/// Each character's pattern followed by a narrow space.
pub open spec fn spaced(chars: Seq<char>) -> Seq<Seq<u8>> {
    chars.map_values(|c: char| pattern(c) + seq![0u8])
}

/// The full bit sequence: guard, space, characters (and check), guard.
pub open spec fn encoding(data: Seq<char>, checksum: bool) -> Seq<u8> {
    GUARD@ + seq![0u8] + join(spaced(with_check(data, checksum))) + GUARD@
}

/// The Code39 barcode type.
#[derive(Debug)]
pub struct Code39 {
    data: Vec<char>,
    checksum: bool,
}

impl View for Code39 {
    type V = (Seq<char>, bool);

    closed spec fn view(&self) -> (Seq<char>, bool) {
        (self.data@, self.checksum)
    }
}

impl Code39 {
    #[verifier::type_invariant]
    spec fn valid(self) -> bool {
        check(self.data@, MIN_LEN as int, MAX_LEN as int, CHARS@) is None
    }

    fn init(data: &str, checksum: bool) -> (r: Result<Self>)
        ensures
            match r {
                Ok(b) => b@ == (data@, checksum) && check(
                    data@,
                    MIN_LEN as int,
                    MAX_LEN as int,
                    CHARS@,
                ) is None,
                Err(e) => check(data@, MIN_LEN as int, MAX_LEN as int, CHARS@) == Some(e),
            },
    {
        let chars = parse(data, MIN_LEN, MAX_LEN, &CHARS)?;
        Ok(Code39 { data: chars, checksum })
    }

    /// Creates a new barcode without a check character.
    ///
    /// Returns `Error::Length` if the input is empty or longer than 255 bytes,
    /// and `Error::Character` if it holds a character outside the alphabet.
    pub fn new(data: &str) -> (r: Result<Self>)
        ensures
            match r {
                Ok(b) => b@ == (data@, false) && check(
                    data@,
                    MIN_LEN as int,
                    MAX_LEN as int,
                    CHARS@,
                ) is None,
                Err(e) => check(data@, MIN_LEN as int, MAX_LEN as int, CHARS@) == Some(e),
            },
    {
        Self::init(data, false)
    }

    /// Creates a new barcode with an appended modulo-43 check character.
    ///
    /// Returns `Error::Length` if the input is empty or longer than 255 bytes,
    /// and `Error::Character` if it holds a character outside the alphabet.
    pub fn with_checksum(data: &str) -> (r: Result<Self>)
        ensures
            match r {
                Ok(b) => b@ == (data@, true) && check(
                    data@,
                    MIN_LEN as int,
                    MAX_LEN as int,
                    CHARS@,
                ) is None,
                Err(e) => check(data@, MIN_LEN as int, MAX_LEN as int, CHARS@) == Some(e),
            },
    {
        Self::init(data, true)
    }

    /// Whether a check character is encoded.
    pub fn checksum(&self) -> (r: bool)
        ensures
            r == self@.1,
    {
        self.checksum
    }

    /// Calculates the check character using a modulo-43 algorithm.
    fn checksum_char(&self) -> (r: char)
        ensures
            r == checksum(self@.0),
            CHARS@.contains(r),
    {
        proof {
            use_type_invariant(self);
        }
        let index = weighted_sum_mod(&CHARS, self.data.as_slice(), 1, 43);
        let r = CHARS[index];
        assert(CHARS@[index as int] == r);
        r
    }

    /// Appends the pattern of the check character and the narrow space after it.
    fn checksum_encoding(&self, out: &mut Vec<u8>)
        ensures
            final(out)@ == old(out)@ + (pattern(checksum(self@.0)) + seq![0u8]),
    {
        let c = self.checksum_char();
        Self::push_encoding(out, c);
    }

    /// Appends the pattern of a character of the alphabet.
    fn char_encoding(c: char, out: &mut Vec<u8>)
        requires
            CHARS@.contains(c),
        ensures
            final(out)@ == old(out)@ + pattern(c),
    {
        proof {
            lemma_find(CHARS@, c);
        }
        let k = match position(&CHARS, c) {
            Some(k) => k,
            None => 0,
        };
        push_bits(out, &BARS[k], 12);
        assert(BARS[k as int]@.take(12) =~= BARS[k as int]@);
    }

    /// Appends a character's pattern and the narrow space that separates
    /// characters in Code39.
    fn push_encoding(into: &mut Vec<u8>, c: char)
        requires
            CHARS@.contains(c),
        ensures
            final(into)@ == old(into)@ + (pattern(c) + seq![0u8]),
    {
        Self::char_encoding(c, into);
        into.push(0);
    }

    /// The leading space, then the characters (and check character), each
    /// followed by a narrow space.
    fn payload(&self) -> (r: Vec<u8>)
        ensures
            r@ == seq![0u8] + join(spaced(with_check(self@.0, self@.1))),
    {
        proof {
            use_type_invariant(self);
        }
        let mut enc: Vec<u8> = Vec::new();
        enc.push(0);
        let n = self.data.len();
        let mut i: usize = 0;
        while i < n
            invariant
                n == self.data@.len(),
                0 <= i <= n,
                check(self.data@, MIN_LEN as int, MAX_LEN as int, CHARS@) is None,
                enc@ == seq![0u8] + join(spaced(self.data@.take(i as int))),
            decreases n - i,
        {
            assert(CHARS@.contains(self.data@[i as int]));
            Self::push_encoding(&mut enc, self.data[i]);
            proof {
                let p = pattern(self.data@[i as int]) + seq![0u8];
                assert(spaced(self.data@.take(i + 1)) =~= spaced(self.data@.take(i as int)).push(p));
                lemma_join_push(spaced(self.data@.take(i as int)), p);
            }
            i = i + 1;
        }
        proof {
            assert(self.data@.take(n as int) =~= self.data@);
        }
        if self.checksum {
            self.checksum_encoding(&mut enc);
            proof {
                let p = pattern(checksum(self.data@)) + seq![0u8];
                assert(spaced(self.data@.push(checksum(self.data@))) =~= spaced(self.data@).push(p));
                lemma_join_push(spaced(self.data@), p);
            }
        }
        enc
    }

    /// Encodes the barcode.
    /// Returns a `Vec<u8>` of binary digits.
    pub fn encode(&self) -> (r: Vec<u8>)
        ensures
            r@ == encoding(self@.0, self@.1),
    {
        let mut enc: Vec<u8> = Vec::new();
        push_bits(&mut enc, &GUARD, 12);
        let payload = self.payload();
        push_slice(&mut enc, payload.as_slice());
        push_bits(&mut enc, &GUARD, 12);
        proof {
            assert(GUARD@.take(12) =~= GUARD@);
            assert(enc@ =~= encoding(self@.0, self@.1));
        }
        enc
    }
}

/// Framing: the encoding is 13 bits per character and check character plus
/// 25; it starts with the guard and a narrow space and ends with a narrow
/// space and the guard.
pub proof fn lemma_framing(data: Seq<char>, checksum: bool)
    ensures
        encoding(data, checksum).len() == 25 + 13 * (data.len() + if checksum {
            1int
        } else {
            0int
        }),
        encoding(data, checksum).take(13) == GUARD@ + seq![0u8],
        encoding(data, checksum).skip(encoding(data, checksum).len() - 13) == seq![0u8] + GUARD@,
{
    let e = encoding(data, checksum);
    let x = with_check(data, checksum);
    let parts = spaced(x);
    let j = join(parts);
    lemma_join_uniform_len(parts, 13);
    let body = seq![0u8] + j;
    if x.len() > 0 {
        assert(parts.last() == pattern(x.last()) + seq![0u8]);
        lemma_join_last(parts);
    } else {
        assert(parts =~= Seq::<Seq<u8>>::empty());
    }
    assert(body =~= body.drop_last().push(0u8));
    assert(e =~= GUARD@ + body.drop_last() + (seq![0u8] + GUARD@));
    assert(e.take(13) =~= GUARD@ + seq![0u8]);
    assert(e.skip(e.len() - 13) =~= seq![0u8] + GUARD@);
}

} // verus!
