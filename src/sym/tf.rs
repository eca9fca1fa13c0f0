//! Encoder for 2-of-5 barcodes.
//!
//! 2-of-5 barcodes are often used by airlines and in some industrial settings,
//! and on the outer cartons of groups of retail products.
//!
//! Most of the time the interleaved variant is preferable to the standard one.
use crate::error::Result;
use crate::sym::helpers::{
    check, digit_values, join, lemma_join_push, lemma_join_uniform_len, modulo_10,
    modulo_10_checksum, parse, push_bits, push_slice, to_digits, DIGITS,
};
use vstd::prelude::*;

verus! {

/// The widths of the five elements of each digit: `N` narrow, `W` wide.
pub const WIDTHS: [[char; 5]; 10] = [
    ['N', 'N', 'W', 'W', 'N'],
    ['W', 'N', 'N', 'N', 'W'],
    ['N', 'W', 'N', 'N', 'W'],
    ['W', 'W', 'N', 'N', 'N'],
    ['N', 'N', 'W', 'N', 'W'],
    ['W', 'N', 'W', 'N', 'N'],
    ['N', 'W', 'W', 'N', 'N'],
    ['N', 'N', 'N', 'W', 'W'],
    ['W', 'N', 'N', 'W', 'N'],
    ['N', 'W', 'N', 'W', 'N'],
];

/// The start pattern of the interleaved variant.
pub const ITF_START: [u8; 4] = [1, 0, 1, 0];

/// The stop pattern of the interleaved variant.
pub const ITF_STOP: [u8; 4] = [1, 1, 0, 1];

/// The start pattern of the standard variant.
pub const STF_START: [u8; 8] = [1, 1, 0, 1, 1, 0, 1, 0];

/// The stop pattern of the standard variant.
pub const STF_STOP: [u8; 8] = [1, 1, 0, 1, 0, 1, 1, 0];

/// The shortest accepted input, in bytes.
pub const MIN_LEN: usize = 1;

/// The longest accepted input, in bytes.
pub const MAX_LEN: usize = 255;

/// One element of width `w` in colour `bit`: three modules when wide, one when narrow.
pub open spec fn element(w: char, bit: u8) -> Seq<u8> {
    if w == 'W' {
        seq![bit, bit, bit]
    } else {
        seq![bit]
    }
}

/// A digit of the standard variant: each element is a bar followed by a narrow space.
pub open spec fn stf_digit(d: u8) -> Seq<u8> {
    join(Seq::new(5, |k: int| element(WIDTHS[d as int][k], 1) + seq![0u8]))
}

/// Two digits of the interleaved variant: the first one's widths give the
/// bars, the second one's the spaces.
pub open spec fn itf_pair(bars: u8, spaces: u8) -> Seq<u8> {
    join(Seq::new(5, |k: int| element(WIDTHS[bars as int][k], 1) + element(WIDTHS[spaces as int][k], 0)))
}

/// The standard payload: each digit on its own.
pub open spec fn stf_payload(d: Seq<u8>) -> Seq<u8> {
    join(d.map_values(|x: u8| stf_digit(x)))
}

/// The interleaved payload: the digits taken in pairs.
pub open spec fn itf_payload(d: Seq<u8>) -> Seq<u8> {
    join(Seq::new(d.len() / 2, |j: int| itf_pair(d[2 * j], d[2 * j + 1])))
}

/// The digits of an interleaved barcode: an odd count gets its modulo-10
/// check digit appended.
pub open spec fn interleaved_digits(data: Seq<char>) -> Seq<u8> {
    let d = digit_values(data);
    if d.len() % 2 == 1 {
        d.push(modulo_10(d, false) as u8)
    } else {
        d
    }
}

/// The 2-of-5 barcode type.
#[derive(Debug)]
pub enum TF {
    /// The standard 2-of-5 barcode type.
    Standard(Vec<u8>),
    /// The interleaved 2-of-5 barcode type.
    Interleaved(Vec<u8>),
}

impl View for TF {
    type V = Seq<u8>;

    open spec fn view(&self) -> Seq<u8> {
        match self {
            TF::Standard(d) => d@,
            TF::Interleaved(d) => d@,
        }
    }
}

/// The full bit sequence: start pattern, payload, stop pattern.
pub open spec fn encoding(tf: TF) -> Seq<u8> {
    match tf {
        TF::Standard(d) => STF_START@ + stf_payload(d@) + STF_STOP@,
        TF::Interleaved(d) => ITF_START@ + itf_payload(d@) + ITF_STOP@,
    }
}

impl TF {
    /// Digits of at most 9, at most 256 of them; an even count when interleaved.
    pub open spec fn wf(&self) -> bool {
        &&& self@.len() <= 256
        &&& forall|k: int| 0 <= k < self@.len() ==> #[trigger] self@[k] <= 9
        &&& (self is Interleaved ==> self@.len() % 2 == 0)
    }

    /// Creates a new interleaved barcode. For an odd number of digits a
    /// modulo-10 check digit is computed and appended.
    ///
    /// Returns `Error::Length` if the input is empty or longer than 255
    /// bytes, and `Error::Character` if a character is not a digit.
    pub fn interleaved(data: &str) -> (r: Result<Self>)
        ensures
            match r {
                Ok(b) => check(data@, MIN_LEN as int, MAX_LEN as int, DIGITS@) is None
                    && b is Interleaved && b@ == interleaved_digits(data@) && b.wf(),
                Err(e) => check(data@, MIN_LEN as int, MAX_LEN as int, DIGITS@) == Some(e),
            },
    {
        let chars = parse(data, MIN_LEN, MAX_LEN, &DIGITS)?;
        proof {
            assert forall|k: int| 0 <= k < chars@.len() implies DIGITS@.contains(
                #[trigger] chars@[k],
            ) by {
                if !DIGITS@.contains(chars@[k]) {
                    assert(check(data@, MIN_LEN as int, MAX_LEN as int, DIGITS@) == Some(
                        crate::error::Error::Character,
                    ));
                }
            }
        }
        let mut digits = to_digits(chars.as_slice());
        let checksum_required = digits.len() % 2 == 1;
        if checksum_required {
            let check_digit = modulo_10_checksum(digits.as_slice(), false);
            digits.push(check_digit);
        }
        Ok(TF::Interleaved(digits))
    }

    /// Creates a new standard barcode.
    ///
    /// Returns `Error::Length` if the input is empty or longer than 255
    /// bytes, and `Error::Character` if a character is not a digit.
    pub fn standard(data: &str) -> (r: Result<Self>)
        ensures
            match r {
                Ok(b) => check(data@, MIN_LEN as int, MAX_LEN as int, DIGITS@) is None
                    && b is Standard && b@ == digit_values(data@) && b.wf(),
                Err(e) => check(data@, MIN_LEN as int, MAX_LEN as int, DIGITS@) == Some(e),
            },
    {
        let chars = parse(data, MIN_LEN, MAX_LEN, &DIGITS)?;
        proof {
            assert forall|k: int| 0 <= k < chars@.len() implies DIGITS@.contains(
                #[trigger] chars@[k],
            ) by {
                if !DIGITS@.contains(chars@[k]) {
                    assert(check(data@, MIN_LEN as int, MAX_LEN as int, DIGITS@) == Some(
                        crate::error::Error::Character,
                    ));
                }
            }
        }
        let digits = to_digits(chars.as_slice());
        Ok(TF::Standard(digits))
    }

    /// The digits.
    pub fn raw_data(&self) -> (r: &[u8])
        ensures
            r@ == self@,
    {
        match self {
            TF::Standard(d) => d.as_slice(),
            TF::Interleaved(d) => d.as_slice(),
        }
    }

    /// Weaves two digits: the bars take the widths of `bars`, the spaces those of `spaces`.
    fn interleave(bars: u8, spaces: u8) -> (r: Vec<u8>)
        requires
            bars <= 9,
            spaces <= 9,
        ensures
            r@ == itf_pair(bars, spaces),
    {
        let bwidths = Self::char_widths(bars);
        let swidths = Self::char_widths(spaces);
        let ghost parts = Seq::new(
            5,
            |k: int| element(WIDTHS[bars as int][k], 1) + element(WIDTHS[spaces as int][k], 0),
        );
        let mut encoding: Vec<u8> = Vec::new();
        let mut k: usize = 0;
        while k < 5
            invariant
                0 <= k <= 5,
                bwidths == WIDTHS[bars as int],
                swidths == WIDTHS[spaces as int],
                parts == Seq::new(
                    5,
                    |k: int| element(WIDTHS[bars as int][k], 1) + element(WIDTHS[spaces as int][k], 0),
                ),
                encoding@ == join(parts.take(k as int)),
            decreases 5 - k,
        {
            let ghost before = encoding@;
            if bwidths[k] == 'W' {
                encoding.push(1);
                encoding.push(1);
                encoding.push(1);
            } else {
                encoding.push(1);
            }
            if swidths[k] == 'W' {
                encoding.push(0);
                encoding.push(0);
                encoding.push(0);
            } else {
                encoding.push(0);
            }
            proof {
                assert(encoding@ =~= before + parts[k as int]);
                assert(parts.take(k + 1) =~= parts.take(k as int).push(parts[k as int]));
                lemma_join_push(parts.take(k as int), parts[k as int]);
            }
            k = k + 1;
        }
        proof {
            assert(parts.take(5) =~= parts);
        }
        encoding
    }

    /// The standard encoding of one digit.
    fn char_encoding(d: u8) -> (r: Vec<u8>)
        requires
            d <= 9,
        ensures
            r@ == stf_digit(d),
    {
        let widths = Self::char_widths(d);
        let ghost parts = Seq::new(5, |k: int| element(WIDTHS[d as int][k], 1) + seq![0u8]);
        let mut bars: Vec<u8> = Vec::new();
        let mut k: usize = 0;
        while k < 5
            invariant
                0 <= k <= 5,
                widths == WIDTHS[d as int],
                parts == Seq::new(5, |k: int| element(WIDTHS[d as int][k], 1) + seq![0u8]),
                bars@ == join(parts.take(k as int)),
            decreases 5 - k,
        {
            let ghost before = bars@;
            if widths[k] == 'W' {
                bars.push(1);
                bars.push(1);
                bars.push(1);
                bars.push(0);
            } else {
                bars.push(1);
                bars.push(0);
            }
            proof {
                assert(bars@ =~= before + parts[k as int]);
                assert(parts.take(k + 1) =~= parts.take(k as int).push(parts[k as int]));
                lemma_join_push(parts.take(k as int), parts[k as int]);
            }
            k = k + 1;
        }
        proof {
            assert(parts.take(5) =~= parts);
        }
        bars
    }

    /// The element widths of a digit.
    fn char_widths(d: u8) -> (r: [char; 5])
        requires
            d <= 9,
        ensures
            r == WIDTHS[d as int],
    {
        WIDTHS[d as usize]
    }

    /// The standard payload.
    fn stf_payload(&self) -> (r: Vec<u8>)
        requires
            self.wf(),
        ensures
            r@ == stf_payload(self@),
    {
        let data = self.raw_data();
        let mut encodings: Vec<u8> = Vec::new();
        let mut i: usize = 0;
        while i < data.len()
            invariant
                data@ == self@,
                forall|k: int| 0 <= k < data@.len() ==> #[trigger] data@[k] <= 9,
                0 <= i <= data@.len(),
                encodings@ == stf_payload(data@.take(i as int)),
            decreases data@.len() - i,
        {
            let enc = Self::char_encoding(data[i]);
            push_slice(&mut encodings, enc.as_slice());
            proof {
                let f = |x: u8| stf_digit(x);
                assert(data@.take(i + 1).map_values(f) =~= data@.take(i as int).map_values(f).push(
                    stf_digit(data@[i as int]),
                ));
                lemma_join_push(data@.take(i as int).map_values(f), stf_digit(data@[i as int]));
            }
            i = i + 1;
        }
        proof {
            assert(data@.take(data@.len() as int) =~= data@);
        }
        encodings
    }

    /// The interleaved payload.
    fn itf_payload(&self) -> (r: Vec<u8>)
        requires
            self.wf(),
            self is Interleaved,
        ensures
            r@ == itf_payload(self@),
    {
        let data = self.raw_data();
        let pairs = data.len() / 2;
        let ghost f = |j: int| itf_pair(data@[2 * j], data@[2 * j + 1]);
        let mut weaves: Vec<u8> = Vec::new();
        let mut j: usize = 0;
        while j < pairs
            invariant
                data@ == self@,
                data@.len() % 2 == 0,
                data@.len() <= 256,
                pairs == data@.len() / 2,
                forall|k: int| 0 <= k < data@.len() ==> #[trigger] data@[k] <= 9,
                f == (|j: int| itf_pair(data@[2 * j], data@[2 * j + 1])),
                0 <= j <= pairs,
                weaves@ == join(Seq::new(j as nat, f)),
            decreases pairs - j,
        {
            let bars = data[2 * j];
            let spaces = data[2 * j + 1];
            let pair = Self::interleave(bars, spaces);
            push_slice(&mut weaves, pair.as_slice());
            proof {
                assert(Seq::new((j + 1) as nat, f) =~= Seq::new(j as nat, f).push(f(j as int)));
                lemma_join_push(Seq::new(j as nat, f), f(j as int));
            }
            j = j + 1;
        }
        weaves
    }

    /// Encodes the barcode.
    /// Returns a `Vec<u8>` of binary digits.
    pub fn encode(&self) -> (r: Vec<u8>)
        requires
            self.wf(),
        ensures
            r@ == encoding(*self),
    {
        let mut enc: Vec<u8> = Vec::new();
        match self {
            TF::Standard(_) => {
                push_bits(&mut enc, &STF_START, 8);
                let payload = self.stf_payload();
                push_slice(&mut enc, payload.as_slice());
                push_bits(&mut enc, &STF_STOP, 8);
                proof {
                    assert(STF_START@.take(8) =~= STF_START@);
                    assert(STF_STOP@.take(8) =~= STF_STOP@);
                }
            },
            TF::Interleaved(_) => {
                push_bits(&mut enc, &ITF_START, 4);
                let payload = self.itf_payload();
                push_slice(&mut enc, payload.as_slice());
                push_bits(&mut enc, &ITF_STOP, 4);
                proof {
                    assert(ITF_START@.take(4) =~= ITF_START@);
                    assert(ITF_STOP@.take(4) =~= ITF_STOP@);
                }
            },
        }
        enc
    }
}

/// The length of a join of five parts.
proof fn lemma_join_five(parts: Seq<Seq<u8>>)
    requires
        parts.len() == 5,
    ensures
        join(parts).len() == parts[0].len() + parts[1].len() + parts[2].len() + parts[3].len()
            + parts[4].len(),
{
    let p4 = parts.drop_last();
    let p3 = p4.drop_last();
    let p2 = p3.drop_last();
    let p1 = p2.drop_last();
    assert(p1.drop_last() =~= Seq::<Seq<u8>>::empty());
    assert(join(Seq::<Seq<u8>>::empty()).len() == 0);
    assert(p1.last() == parts[0]);
    assert(join(p1) == join(p1.drop_last()) + p1.last());
    assert(join(p1).len() == parts[0].len());
    assert(join(p2).len() == join(p1).len() + parts[1].len());
    assert(join(p3).len() == join(p2).len() + parts[2].len());
    assert(join(p4).len() == join(p3).len() + parts[3].len());
    assert(join(parts).len() == join(p4).len() + parts[4].len());
}

/// Each digit's widths hold exactly two wide elements, so a digit is 14 bits
/// in the standard variant and a pair of digits 18 bits when interleaved.
proof fn lemma_digit_lens(a: u8, b: u8)
    requires
        a <= 9,
        b <= 9,
    ensures
        stf_digit(a).len() == 14,
        itf_pair(a, b).len() == 18,
{
    let sp = Seq::new(5, |k: int| element(WIDTHS[a as int][k], 1) + seq![0u8]);
    let ip = Seq::new(
        5,
        |k: int| element(WIDTHS[a as int][k], 1) + element(WIDTHS[b as int][k], 0),
    );
    lemma_join_five(sp);
    lemma_join_five(ip);
    let wa = WIDTHS[a as int];
    let wb = WIDTHS[b as int];
    assert((if wa[0] == 'W' { 3int } else { 1int }) + (if wa[1] == 'W' { 3int } else { 1int }) + (
    if wa[2] == 'W' { 3int } else { 1int }) + (if wa[3] == 'W' { 3int } else { 1int }) + (if wa[4]
        == 'W' { 3int } else { 1int }) == 9);
    assert((if wb[0] == 'W' { 3int } else { 1int }) + (if wb[1] == 'W' { 3int } else { 1int }) + (
    if wb[2] == 'W' { 3int } else { 1int }) + (if wb[3] == 'W' { 3int } else { 1int }) + (if wb[4]
        == 'W' { 3int } else { 1int }) == 9);
}

/// Framing: the encoding starts with the start pattern and ends with the stop
/// pattern of its variant; it is 16 bits plus 14 per digit in the standard
/// variant, 8 bits plus 9 per digit in the interleaved one.
pub proof fn lemma_framing(tf: TF)
    requires
        tf.wf(),
    ensures
        tf is Standard ==> encoding(tf).take(8) == STF_START@ && encoding(tf).skip(
            encoding(tf).len() - 8,
        ) == STF_STOP@ && encoding(tf).len() == 16 + 14 * tf@.len(),
        tf is Interleaved ==> encoding(tf).take(4) == ITF_START@ && encoding(tf).skip(
            encoding(tf).len() - 4,
        ) == ITF_STOP@ && encoding(tf).len() == 8 + 9 * tf@.len(),
{
    let e = encoding(tf);
    match tf {
        TF::Standard(d) => {
            let parts = d@.map_values(|x: u8| stf_digit(x));
            assert forall|i: int| 0 <= i < parts.len() implies (#[trigger] parts[i]).len() == 14 by {
                lemma_digit_lens(d@[i], 0);
            }
            lemma_join_uniform_len(parts, 14);
            assert(e.take(8) =~= STF_START@);
            assert(e.skip(e.len() - 8) =~= STF_STOP@);
        },
        TF::Interleaved(d) => {
            let parts = Seq::new(d@.len() / 2, |j: int| itf_pair(d@[2 * j], d@[2 * j + 1]));
            assert forall|i: int| 0 <= i < parts.len() implies (#[trigger] parts[i]).len() == 18 by {
                lemma_digit_lens(d@[2 * i], d@[2 * i + 1]);
            }
            lemma_join_uniform_len(parts, 18);
            assert(e.take(4) =~= ITF_START@);
            assert(e.skip(e.len() - 4) =~= ITF_STOP@);
        },
    }
}

} // verus!
