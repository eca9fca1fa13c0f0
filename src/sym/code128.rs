//! Encoder for Code128 barcodes.
//!
//! Code128 is a high-density symbology that encodes alphanumeric data and many special
//! characters by means of three character sets, and packs pairs of digits into one symbol.
//!
//! ## Character sets
//!
//! Control characters select the character set in use:
//!
//! * `\u{00C0}` (À) switches to character set A,
//! * `\u{0181}` (Ɓ) switches to character set B,
//! * `\u{0106}` (Ć) switches to character set C.
//!
//! The starting character set is chosen when the barcode is created; a control
//! character inside the data switches to another set from there on.
//!
//! ## Function characters
//!
//! * FNC1: `\u{0179}`
//! * FNC2: `\u{017A}`
//! * FNC3: `\u{017B}`
//! * FNC4: `\u{017C}`
//! * SHIFT: `\u{017D}`
use crate::error::{Error, Result};
use crate::sym::helpers::{
    byte_len, find, join, lemma_byte_len, lemma_find, lemma_join_first, lemma_join_push, position,
    push_bits,
};
use vstd::arithmetic::div_mod::{lemma_add_mod_noop, lemma_mod_twice, lemma_mul_mod_noop_right};
use vstd::prelude::*;

verus! {

/// Represents the character sets available in Code128 barcodes.
///
/// - `A`: ASCII characters 00 to 95.
/// - `B`: ASCII characters 32 to 127.
/// - `C`: pairs of digits (00-99).
/// - `Unset`: no character set; creating a barcode with it fails.
#[derive(Clone, Copy, Debug, PartialEq, Eq, Structural)]
pub enum CharacterSet {
    /// Character set A
    A,
    /// Character set B
    B,
    /// Character set C
    C,
    /// No character set specified.
    Unset,
}

/// Character set A: the character of each symbol value below 103.
pub const SET_A: [char; 103] = [
    ' ', '!', '"', '#', '$', '%', '&', '\'', '(', ')', '*', '+', ',', '-', '.', '/', '0', '1', '2',
    '3', '4', '5', '6', '7', '8', '9', ':', ';', '<', '=', '>', '?', '@', 'A', 'B', 'C', 'D', 'E',
    'F', 'G', 'H', 'I', 'J', 'K', 'L', 'M', 'N', 'O', 'P', 'Q', 'R', 'S', 'T', 'U', 'V', 'W', 'X',
    'Y', 'Z', '[', '\\', ']', '^', '_', '\u{0000}', '\u{0001}', '\u{0002}', '\u{0003}', '\u{0004}',
    '\u{0005}', '\u{0006}', '\u{0007}', '\u{0008}', '\u{0009}', '\u{000A}', '\u{000B}', '\u{000C}',
    '\u{000D}', '\u{000E}', '\u{000F}', '\u{0010}', '\u{0011}', '\u{0012}', '\u{0013}', '\u{0014}',
    '\u{0015}', '\u{0016}', '\u{0017}', '\u{0018}', '\u{0019}', '\u{001A}', '\u{001B}', '\u{001C}',
    '\u{001D}', '\u{001E}', '\u{001F}', '\u{017B}', '\u{017A}', '\u{017D}', '\u{0106}', '\u{0181}',
    '\u{017C}', '\u{0179}',
];

/// Character set B: the character of each symbol value below 103.
pub const SET_B: [char; 103] = [
    ' ', '!', '"', '#', '$', '%', '&', '\'', '(', ')', '*', '+', ',', '-', '.', '/', '0', '1', '2',
    '3', '4', '5', '6', '7', '8', '9', ':', ';', '<', '=', '>', '?', '@', 'A', 'B', 'C', 'D', 'E',
    'F', 'G', 'H', 'I', 'J', 'K', 'L', 'M', 'N', 'O', 'P', 'Q', 'R', 'S', 'T', 'U', 'V', 'W', 'X',
    'Y', 'Z', '[', '\\', ']', '^', '_', '`', 'a', 'b', 'c', 'd', 'e', 'f', 'g', 'h', 'i', 'j', 'k',
    'l', 'm', 'n', 'o', 'p', 'q', 'r', 's', 't', 'u', 'v', 'w', 'x', 'y', 'z', '{', '|', '}', '~',
    '\u{00F7}', '\u{017B}', '\u{017A}', '\u{017D}', '\u{0106}', '\u{017C}', '\u{00C0}', '\u{0179}',
];

/// Character set C: the characters of symbol values 100 to 102 (values
/// below 100 stand for pairs of digits).
pub const SET_C: [char; 3] = ['\u{0181}', '\u{00C0}', '\u{0179}'];

/// The bar pattern of each symbol value.
#[verifier::opaque]
pub const PATTERNS: [[u8; 11]; 106] = [
    [1, 1, 0, 1, 1, 0, 0, 1, 1, 0, 0],
    [1, 1, 0, 0, 1, 1, 0, 1, 1, 0, 0],
    [1, 1, 0, 0, 1, 1, 0, 0, 1, 1, 0],
    [1, 0, 0, 1, 0, 0, 1, 1, 0, 0, 0],
    [1, 0, 0, 1, 0, 0, 0, 1, 1, 0, 0],
    [1, 0, 0, 0, 1, 0, 0, 1, 1, 0, 0],
    [1, 0, 0, 1, 1, 0, 0, 1, 0, 0, 0],
    [1, 0, 0, 1, 1, 0, 0, 0, 1, 0, 0],
    [1, 0, 0, 0, 1, 1, 0, 0, 1, 0, 0],
    [1, 1, 0, 0, 1, 0, 0, 1, 0, 0, 0],
    [1, 1, 0, 0, 1, 0, 0, 0, 1, 0, 0],
    [1, 1, 0, 0, 0, 1, 0, 0, 1, 0, 0],
    [1, 0, 1, 1, 0, 0, 1, 1, 1, 0, 0],
    [1, 0, 0, 1, 1, 0, 1, 1, 1, 0, 0],
    [1, 0, 0, 1, 1, 0, 0, 1, 1, 1, 0],
    [1, 0, 1, 1, 1, 0, 0, 1, 1, 0, 0],
    [1, 0, 0, 1, 1, 1, 0, 1, 1, 0, 0],
    [1, 0, 0, 1, 1, 1, 0, 0, 1, 1, 0],
    [1, 1, 0, 0, 1, 1, 1, 0, 0, 1, 0],
    [1, 1, 0, 0, 1, 0, 1, 1, 1, 0, 0],
    [1, 1, 0, 0, 1, 0, 0, 1, 1, 1, 0],
    [1, 1, 0, 1, 1, 1, 0, 0, 1, 0, 0],
    [1, 1, 0, 0, 1, 1, 1, 0, 1, 0, 0],
    [1, 1, 1, 0, 1, 1, 0, 1, 1, 1, 0],
    [1, 1, 1, 0, 1, 0, 0, 1, 1, 0, 0],
    [1, 1, 1, 0, 0, 1, 0, 1, 1, 0, 0],
    [1, 1, 1, 0, 0, 1, 0, 0, 1, 1, 0],
    [1, 1, 1, 0, 1, 1, 0, 0, 1, 0, 0],
    [1, 1, 1, 0, 0, 1, 1, 0, 1, 0, 0],
    [1, 1, 1, 0, 0, 1, 1, 0, 0, 1, 0],
    [1, 1, 0, 1, 1, 0, 1, 1, 0, 0, 0],
    [1, 1, 0, 1, 1, 0, 0, 0, 1, 1, 0],
    [1, 1, 0, 0, 0, 1, 1, 0, 1, 1, 0],
    [1, 0, 1, 0, 0, 0, 1, 1, 0, 0, 0],
    [1, 0, 0, 0, 1, 0, 1, 1, 0, 0, 0],
    [1, 0, 0, 0, 1, 0, 0, 0, 1, 1, 0],
    [1, 0, 1, 1, 0, 0, 0, 1, 0, 0, 0],
    [1, 0, 0, 0, 1, 1, 0, 1, 0, 0, 0],
    [1, 0, 0, 0, 1, 1, 0, 0, 0, 1, 0],
    [1, 1, 0, 1, 0, 0, 0, 1, 0, 0, 0],
    [1, 1, 0, 0, 0, 1, 0, 1, 0, 0, 0],
    [1, 1, 0, 0, 0, 1, 0, 0, 0, 1, 0],
    [1, 0, 1, 1, 0, 1, 1, 1, 0, 0, 0],
    [1, 0, 1, 1, 0, 0, 0, 1, 1, 1, 0],
    [1, 0, 0, 0, 1, 1, 0, 1, 1, 1, 0],
    [1, 0, 1, 1, 1, 0, 1, 1, 0, 0, 0],
    [1, 0, 1, 1, 1, 0, 0, 0, 1, 1, 0],
    [1, 0, 0, 0, 1, 1, 1, 0, 1, 1, 0],
    [1, 1, 1, 0, 1, 1, 1, 0, 1, 1, 0],
    [1, 1, 0, 1, 0, 0, 0, 1, 1, 1, 0],
    [1, 1, 0, 0, 0, 1, 0, 1, 1, 1, 0],
    [1, 1, 0, 1, 1, 1, 0, 1, 0, 0, 0],
    [1, 1, 0, 1, 1, 1, 0, 0, 0, 1, 0],
    [1, 1, 0, 1, 1, 1, 0, 1, 1, 1, 0],
    [1, 1, 1, 0, 1, 0, 1, 1, 0, 0, 0],
    [1, 1, 1, 0, 1, 0, 0, 0, 1, 1, 0],
    [1, 1, 1, 0, 0, 0, 1, 0, 1, 1, 0],
    [1, 1, 1, 0, 1, 1, 0, 1, 0, 0, 0],
    [1, 1, 1, 0, 1, 1, 0, 0, 0, 1, 0],
    [1, 1, 1, 0, 0, 0, 1, 1, 0, 1, 0],
    [1, 1, 1, 0, 1, 1, 1, 1, 0, 1, 0],
    [1, 1, 0, 0, 1, 0, 0, 0, 0, 1, 0],
    [1, 1, 1, 1, 0, 0, 0, 1, 0, 1, 0],
    [1, 0, 1, 0, 0, 1, 1, 0, 0, 0, 0],
    [1, 0, 1, 0, 0, 0, 0, 1, 1, 0, 0],
    [1, 0, 0, 1, 0, 1, 1, 0, 0, 0, 0],
    [1, 0, 0, 1, 0, 0, 0, 0, 1, 1, 0],
    [1, 0, 0, 0, 0, 1, 0, 1, 1, 0, 0],
    [1, 0, 0, 0, 0, 1, 0, 0, 1, 1, 0],
    [1, 0, 1, 1, 0, 0, 1, 0, 0, 0, 0],
    [1, 0, 1, 1, 0, 0, 0, 0, 1, 0, 0],
    [1, 0, 0, 1, 1, 0, 1, 0, 0, 0, 0],
    [1, 0, 0, 1, 1, 0, 0, 0, 0, 1, 0],
    [1, 0, 0, 0, 0, 1, 1, 0, 1, 0, 0],
    [1, 0, 0, 0, 0, 1, 1, 0, 0, 1, 0],
    [1, 1, 0, 0, 0, 0, 1, 0, 0, 1, 0],
    [1, 1, 0, 0, 1, 0, 1, 0, 0, 0, 0],
    [1, 1, 1, 1, 0, 1, 1, 1, 0, 1, 0],
    [1, 1, 0, 0, 0, 0, 1, 0, 1, 0, 0],
    [1, 0, 0, 0, 1, 1, 1, 1, 0, 1, 0],
    [1, 0, 1, 0, 0, 1, 1, 1, 1, 0, 0],
    [1, 0, 0, 1, 0, 1, 1, 1, 1, 0, 0],
    [1, 0, 0, 1, 0, 0, 1, 1, 1, 1, 0],
    [1, 0, 1, 1, 1, 1, 0, 0, 1, 0, 0],
    [1, 0, 0, 1, 1, 1, 1, 0, 1, 0, 0],
    [1, 0, 0, 1, 1, 1, 1, 0, 0, 1, 0],
    [1, 1, 1, 1, 0, 1, 0, 0, 1, 0, 0],
    [1, 1, 1, 1, 0, 0, 1, 0, 1, 0, 0],
    [1, 1, 1, 1, 0, 0, 1, 0, 0, 1, 0],
    [1, 1, 0, 1, 1, 0, 1, 1, 1, 1, 0],
    [1, 1, 0, 1, 1, 1, 1, 0, 1, 1, 0],
    [1, 1, 1, 1, 0, 1, 1, 0, 1, 1, 0],
    [1, 0, 1, 0, 1, 1, 1, 1, 0, 0, 0],
    [1, 0, 1, 0, 0, 0, 1, 1, 1, 1, 0],
    [1, 0, 0, 0, 1, 0, 1, 1, 1, 1, 0],
    [1, 0, 1, 1, 1, 1, 0, 1, 0, 0, 0],
    [1, 0, 1, 1, 1, 1, 0, 0, 0, 1, 0],
    [1, 1, 1, 1, 0, 1, 0, 1, 0, 0, 0],
    [1, 1, 1, 1, 0, 1, 0, 0, 0, 1, 0],
    [1, 0, 1, 1, 1, 0, 1, 1, 1, 1, 0],
    [1, 0, 1, 1, 1, 1, 0, 1, 1, 1, 0],
    [1, 1, 1, 0, 1, 0, 1, 1, 1, 1, 0],
    [1, 1, 1, 1, 0, 1, 0, 1, 1, 1, 0],
    [1, 1, 0, 1, 0, 0, 0, 0, 1, 0, 0],
    [1, 1, 0, 1, 0, 0, 1, 0, 0, 0, 0],
    [1, 1, 0, 1, 0, 0, 1, 1, 1, 0, 0],
];

/// The stop pattern.
pub const STOP: [u8; 11] = [1, 1, 0, 0, 0, 1, 1, 1, 0, 1, 0];

/// The termination bars.
pub const TERM: [u8; 2] = [1, 1];

/// The shortest accepted input in bytes, not counting the start character.
pub const MIN_LEN: usize = 2;

/// Whether `c` is one of the three control characters that select a set.
pub open spec fn is_switch(c: char) -> bool {
    c == '\u{00C0}' || c == '\u{0181}' || c == '\u{0106}'
}

/// The character set that a control character selects.
pub open spec fn set_of(c: char) -> CharacterSet {
    if c == '\u{00C0}' {
        CharacterSet::A
    } else if c == '\u{0181}' {
        CharacterSet::B
    } else if c == '\u{0106}' {
        CharacterSet::C
    } else {
        CharacterSet::Unset
    }
}

/// The control character that starts a barcode in `set`.
pub open spec fn start_char(set: CharacterSet) -> char {
    match set {
        CharacterSet::A => '\u{00C0}',
        CharacterSet::B => '\u{0181}',
        _ => '\u{0106}',
    }
}

/// The symbol value of the start pattern that a control character selects.
pub open spec fn start_value(c: char) -> usize {
    if c == '\u{00C0}' {
        103
    } else if c == '\u{0181}' {
        104
    } else {
        105
    }
}

/// Whether `c` is a decimal digit.
pub open spec fn is_digit(c: char) -> bool {
    '0' <= c && c <= '9'
}

/// The value of a decimal digit.
pub open spec fn digit_value(c: char) -> int {
    c as int - '0' as int
}

/// The symbol value of a single character in `set`, or -1 when it has none.
pub open spec fn lookup_value(set: CharacterSet, c: char) -> int {
    match set {
        CharacterSet::A => find(SET_A@, c),
        CharacterSet::B => find(SET_B@, c),
        CharacterSet::C => if find(SET_C@, c) == -1 {
            -1
        } else {
            find(SET_C@, c) + 100
        },
        CharacterSet::Unset => -1,
    }
}

/// The tokenizer's state: the active set, a digit waiting for its pair, and
/// the symbol values emitted so far.
pub type TokenState = (CharacterSet, Option<char>, Seq<usize>);

/// One step of the tokenizer over the character `ch`.
pub open spec fn step(st: TokenState, ch: char) -> Result<TokenState> {
    let (set, carry, units) = st;
    if is_switch(ch) && units.len() == 0 {
        Ok((set_of(ch), carry, units.push(start_value(ch))))
    } else if is_switch(ch) {
        if set == CharacterSet::C && carry is Some {
            Err(Error::Character)
        } else if lookup_value(set, ch) < 0 {
            Err(Error::Character)
        } else {
            Ok((set_of(ch), carry, units.push(lookup_value(set, ch) as usize)))
        }
    } else if is_digit(ch) && set == CharacterSet::C {
        match carry {
            Option::None => Ok((set, Some(ch), units)),
            Option::Some(n) => Ok(
                (set, Option::None, units.push((10 * digit_value(n) + digit_value(ch)) as usize)),
            ),
        }
    } else if lookup_value(set, ch) < 0 {
        Err(Error::Character)
    } else {
        Ok((set, carry, units.push(lookup_value(set, ch) as usize)))
    }
}

/// The tokenizer run over all of `chars`, stopping at the first error.
pub open spec fn run(chars: Seq<char>) -> Result<TokenState>
    decreases chars.len(),
{
    if chars.len() == 0 {
        Ok((CharacterSet::Unset, Option::None, Seq::empty()))
    } else {
        match run(chars.drop_last()) {
            Ok(st) => step(st, chars.last()),
            Err(e) => Err(e),
        }
    }
}

/// The symbol values of `chars`; a digit left without its pair is an error.
pub open spec fn tokenize(chars: Seq<char>) -> Result<Seq<usize>> {
    match run(chars) {
        Ok(st) => if st.1 is Some {
            Err(Error::Character)
        } else {
            Ok(st.2)
        },
        Err(e) => Err(e),
    }
}

/// What creating a barcode from `data` in the starting set `set` yields.
pub open spec fn units_of(data: Seq<char>, set: CharacterSet) -> Result<Seq<usize>> {
    if byte_len(data) < MIN_LEN {
        Err(Error::Length)
    } else if set == CharacterSet::Unset {
        Err(Error::Character)
    } else {
        tokenize(seq![start_char(set)] + data)
    }
}

/// The sum of the symbol values, each times its position (the first counts once).
pub open spec fn weighted_sum(units: Seq<usize>) -> int
    decreases units.len(),
{
    if units.len() == 0 {
        0
    } else {
        let i = units.len() - 1;
        weighted_sum(units.drop_last()) + units.last() * (if i == 0 {
            1
        } else {
            i
        })
    }
}

/// The modulo-103 check value.
pub open spec fn checksum(units: Seq<usize>) -> int {
    weighted_sum(units) % 103
}

/// The patterns of the symbol values, in order.
pub open spec fn patterns(units: Seq<usize>) -> Seq<Seq<u8>> {
    units.map_values(|u: usize| PATTERNS[u as int]@)
}

/// The full bit sequence: symbols, check symbol, stop pattern and termination bars.
pub open spec fn encoding(units: Seq<usize>) -> Seq<u8> {
    join(patterns(units)) + PATTERNS[checksum(units)]@ + STOP@ + TERM@
}

/// The Code128 barcode type.
#[derive(Debug)]
pub struct Code128(Vec<usize>);

impl View for Code128 {
    type V = Seq<usize>;

    closed spec fn view(&self) -> Seq<usize> {
        self.0@
    }
}

impl CharacterSet {
    /// The character set that a control character selects.
    pub fn from_char(c: char) -> (r: Result<Self>)
        ensures
            is_switch(c) ==> r == Ok::<CharacterSet, Error>(set_of(c)),
            !is_switch(c) ==> r == Err::<CharacterSet, Error>(Error::Character),
    {
        if c == '\u{00C0}' {
            Ok(CharacterSet::A)
        } else if c == '\u{0181}' {
            Ok(CharacterSet::B)
        } else if c == '\u{0106}' {
            Ok(CharacterSet::C)
        } else {
            Err(Error::Character)
        }
    }

    /// The symbol value of a single character in this set.
    pub fn lookup(self, c: char) -> (r: Result<usize>)
        ensures
            lookup_value(self, c) >= 0 ==> r == Ok::<usize, Error>(lookup_value(self, c) as usize),
            lookup_value(self, c) < 0 ==> r == Err::<usize, Error>(Error::Character),
            lookup_value(self, c) < 103,
    {
        proof {
            lemma_find(SET_A@, c);
            lemma_find(SET_B@, c);
            lemma_find(SET_C@, c);
        }
        let found = match self {
            CharacterSet::A => position(&SET_A, c),
            CharacterSet::B => position(&SET_B, c),
            CharacterSet::C => match position(&SET_C, c) {
                Some(k) => Some(k + 100),
                None => None,
            },
            CharacterSet::Unset => None,
        };
        match found {
            Some(k) => Ok(k),
            None => Err(Error::Character),
        }
    }
}

impl Code128 {
    #[verifier::type_invariant]
    spec fn valid(self) -> bool {
        forall|k: int| 0 <= k < self.0@.len() ==> #[trigger] self.0@[k] < 106
    }

    /// Creates a new barcode whose data starts in `character_set`.
    ///
    /// Returns `Error::Length` if `data` has fewer than two bytes, and
    /// `Error::Character` if no starting set is given or the data does not
    /// tokenize.
    pub fn new(data: &str, character_set: CharacterSet) -> (r: Result<Self>)
        ensures
            match r {
                Ok(b) => units_of(data@, character_set) == Ok::<Seq<usize>, Error>(b@),
                Err(e) => units_of(data@, character_set) == Err::<Seq<usize>, Error>(e),
            },
    {
        // The length in UTF-8 bytes, which a slice holds in a `usize`.
        if data.as_bytes().len() < MIN_LEN {
            return Err(Error::Length);
        }
        let chars = crate::sym::helpers::chars_of(data);
        let starting_char = match character_set {
            CharacterSet::A => '\u{00C0}',
            CharacterSet::B => '\u{0181}',
            CharacterSet::C => '\u{0106}',
            CharacterSet::Unset => {
                return Err(Error::Character);
            },
        };
        let mut all: Vec<char> = Vec::new();
        all.push(starting_char);
        let mut i: usize = 0;
        while i < chars.len()
            invariant
                0 <= i <= chars@.len(),
                all@ == seq![starting_char] + chars@.take(i as int),
            decreases chars@.len() - i,
        {
            all.push(chars[i]);
            proof {
                assert(chars@.take(i + 1) =~= chars@.take(i as int).push(chars@[i as int]));
                assert(seq![starting_char] + chars@.take(i + 1) =~= (seq![starting_char]
                    + chars@.take(i as int)).push(chars@[i as int]));
            }
            i = i + 1;
        }
        proof {
            assert(chars@.take(chars@.len() as int) =~= chars@);
        }
        match Self::parse(&all) {
            Ok(units) => Ok(Code128(units)),
            Err(e) => Err(e),
        }
    }

    /// Tokenizes the characters into symbol values.
    fn parse(chars: &Vec<char>) -> (r: Result<Vec<usize>>)
        ensures
            match r {
                Ok(u) => tokenize(chars@) == Ok::<Seq<usize>, Error>(u@) && forall|k: int|
                    0 <= k < u@.len() ==> #[trigger] u@[k] < 106,
                Err(e) => tokenize(chars@) == Err::<Seq<usize>, Error>(e),
            },
    {
        let mut units: Vec<usize> = Vec::new();
        let mut char_set = CharacterSet::Unset;
        let mut carry: Option<char> = None;
        let n = chars.len();
        let mut i: usize = 0;
        while i < n
            invariant
                n == chars@.len(),
                0 <= i <= n,
                run(chars@.take(i as int)) == Ok::<TokenState, Error>((char_set, carry, units@)),
                forall|k: int| 0 <= k < units@.len() ==> #[trigger] units@[k] < 106,
                carry is Some ==> is_digit(carry->Some_0),
            decreases n - i,
        {
            let ch = chars[i];
            proof {
                assert(chars@.take(i + 1).drop_last() =~= chars@.take(i as int));
            }
            let is_sw = ch == '\u{00C0}' || ch == '\u{0181}' || ch == '\u{0106}';
            if is_sw && units.len() == 0 {
                char_set = match CharacterSet::from_char(ch) {
                    Ok(s) => s,
                    Err(e) => {
                        return Err(e);
                    },
                };
                let start: usize = if ch == '\u{00C0}' {
                    103
                } else if ch == '\u{0181}' {
                    104
                } else {
                    105
                };
                units.push(start);
            } else if is_sw {
                if char_set == CharacterSet::C && carry.is_some() {
                    proof {
                        lemma_run_err(chars@, i as int + 1);
                    }
                    return Err(Error::Character);
                }
                let u = match char_set.lookup(ch) {
                    Ok(u) => u,
                    Err(e) => {
                        proof {
                            lemma_run_err(chars@, i as int + 1);
                        }
                        return Err(e);
                    },
                };
                units.push(u);
                char_set = match CharacterSet::from_char(ch) {
                    Ok(s) => s,
                    Err(e) => {
                        return Err(e);
                    },
                };
            } else if '0' <= ch && ch <= '9' && char_set == CharacterSet::C {
                match carry {
                    None => {
                        carry = Some(ch);
                    },
                    Some(d) => {
                        let value = (d as u32 - '0' as u32) * 10 + (ch as u32 - '0' as u32);
                        units.push(value as usize);
                        carry = None;
                    },
                }
            } else {
                let u = match char_set.lookup(ch) {
                    Ok(u) => u,
                    Err(e) => {
                        proof {
                            lemma_run_err(chars@, i as int + 1);
                        }
                        return Err(e);
                    },
                };
                units.push(u);
            }
            i = i + 1;
        }
        proof {
            assert(chars@.take(n as int) =~= chars@);
        }
        match carry {
            Some(_) => Err(Error::Character),
            None => Ok(units),
        }
    }

    /// Calculates the check value using a modulo-103 algorithm.
    fn checksum_value(&self) -> (r: u8)
        ensures
            r as int == checksum(self@),
    {
        let n = self.0.len();
        let mut total: u64 = 0;
        let mut i: usize = 0;
        while i < n
            invariant
                n == self.0@.len(),
                0 <= i <= n,
                total < 103,
                total as int == weighted_sum(self.0@.take(i as int)) % 103,
            decreases n - i,
        {
            proof {
                use_type_invariant(self);
            }
            let u = self.0[i];
            assert(u < 106);
            let w: usize = if i == 0 {
                1
            } else {
                i
            };
            let wm = (w % 103) as u64;
            assert((u as u64) * wm <= 105 * 102) by (nonlinear_arith)
                requires
                    u < 106,
                    wm < 103,
            ;
            proof {
                let prefix = self.0@.take(i + 1);
                assert(prefix.drop_last() =~= self.0@.take(i as int));
                let ws = weighted_sum(self.0@.take(i as int));
                lemma_add_mod_noop(ws, u * w, 103);
                lemma_add_mod_noop(ws % 103, u * (w % 103), 103);
                lemma_mod_twice(ws, 103);
                lemma_mul_mod_noop_right(u as int, w as int, 103);
            }
            total = (total + (u as u64) * wm) % 103;
            i = i + 1;
        }
        proof {
            assert(self.0@.take(n as int) =~= self.0@);
        }
        total as u8
    }

    /// Appends the pattern of a symbol value.
    fn unit_encoding(u: usize, out: &mut Vec<u8>)
        requires
            u < 106,
        ensures
            final(out)@ == old(out)@ + PATTERNS[u as int]@,
    {
        push_bits(out, &PATTERNS[u], 11);
        assert(PATTERNS[u as int]@.take(11) =~= PATTERNS[u as int]@);
    }

    /// Appends the pattern of the check value.
    fn checksum_encoding(&self, out: &mut Vec<u8>)
        ensures
            final(out)@ == old(out)@ + PATTERNS[checksum(self@)]@,
    {
        let v = self.checksum_value();
        Self::unit_encoding(v as usize, out);
    }

    /// The patterns of the symbol values, in order.
    fn payload(&self) -> (r: Vec<u8>)
        ensures
            r@ == join(patterns(self@)),
    {
        proof {
            use_type_invariant(self);
        }
        let mut enc: Vec<u8> = Vec::new();
        let n = self.0.len();
        let mut i: usize = 0;
        while i < n
            invariant
                n == self.0@.len(),
                0 <= i <= n,
                forall|k: int| 0 <= k < self.0@.len() ==> #[trigger] self.0@[k] < 106,
                enc@ == join(patterns(self.0@.take(i as int))),
            decreases n - i,
        {
            Self::unit_encoding(self.0[i], &mut enc);
            proof {
                assert(patterns(self.0@.take(i + 1)) =~= patterns(self.0@.take(i as int)).push(
                    PATTERNS[self.0@[i as int] as int]@,
                ));
                lemma_join_push(patterns(self.0@.take(i as int)), PATTERNS[self.0@[i as int] as int]@);
            }
            i = i + 1;
        }
        proof {
            assert(self.0@.take(n as int) =~= self.0@);
        }
        enc
    }

    /// Encodes the barcode.
    /// Returns a `Vec<u8>` of binary digits.
    pub fn encode(&self) -> (r: Vec<u8>)
        ensures
            r@ == encoding(self@),
    {
        let mut enc = self.payload();
        self.checksum_encoding(&mut enc);
        push_bits(&mut enc, &STOP, 11);
        push_bits(&mut enc, &TERM, 2);
        proof {
            assert(STOP@.take(11) =~= STOP@);
            assert(TERM@.take(2) =~= TERM@);
        }
        enc
    }
}

/// Once the tokenizer fails on a prefix, it fails with the same error on the whole input.
pub proof fn lemma_run_err(chars: Seq<char>, j: int)
    requires
        0 <= j <= chars.len(),
        run(chars.take(j)) is Err,
    ensures
        run(chars) == run(chars.take(j)),
    decreases chars.len() - j,
{
    if j < chars.len() {
        assert(chars.take(j + 1).drop_last() =~= chars.take(j));
        lemma_run_err(chars, j + 1);
    } else {
        assert(chars.take(j) =~= chars);
    }
}

/// Every failure of the tokenizer is a `Character` error.
pub proof fn lemma_run_errors(chars: Seq<char>)
    ensures
        run(chars) is Err ==> run(chars) == Err::<TokenState, Error>(Error::Character),
    decreases chars.len(),
{
    if chars.len() > 0 {
        lemma_run_errors(chars.drop_last());
    }
}

/// The control characters and the digits have symbols in sets A or B.
proof fn lemma_known_chars(c: char)
    ensures
        is_switch(c) || is_digit(c) ==> SET_A@.contains(c) || SET_B@.contains(c),
{
    assert(SET_A@[99] == '\u{0106}');
    assert(SET_A@[100] == '\u{0181}');
    assert(SET_B@[101] == '\u{00C0}');
    assert(SET_A@[16] == '0');
    assert(SET_A@[17] == '1');
    assert(SET_A@[18] == '2');
    assert(SET_A@[19] == '3');
    assert(SET_A@[20] == '4');
    assert(SET_A@[21] == '5');
    assert(SET_A@[22] == '6');
    assert(SET_A@[23] == '7');
    assert(SET_A@[24] == '8');
    assert(SET_A@[25] == '9');
}

/// Alphabet: a character that none of the three character sets holds, at
/// any position of the data, makes creation fail with `Character`.
pub proof fn lemma_unknown_char(data: Seq<char>, set: CharacterSet, i: int)
    requires
        byte_len(data) >= MIN_LEN,
        set != CharacterSet::Unset,
        0 <= i < data.len(),
        !SET_A@.contains(data[i]),
        !SET_B@.contains(data[i]),
        !SET_C@.contains(data[i]),
    ensures
        units_of(data, set) == Err::<Seq<usize>, Error>(Error::Character),
{
    let s = seq![start_char(set)] + data;
    let c = data[i];
    lemma_known_chars(c);
    lemma_find(SET_A@, c);
    lemma_find(SET_B@, c);
    lemma_find(SET_C@, c);
    assert(s.take(i + 2).drop_last() =~= s.take(i + 1));
    assert(s.take(i + 2).last() == c);
    assert(run(s.take(i + 2)) is Err);
    lemma_run_err(s, i + 2);
    lemma_run_errors(s);
}

/// Alphabet, by the active set: a character that the set in use at its
/// position has no symbol for (and that is neither a control character nor,
/// in set C, a digit) makes creation fail with `Character`.
pub proof fn lemma_missing_from_active_set(data: Seq<char>, set: CharacterSet, i: int)
    requires
        byte_len(data) >= MIN_LEN,
        set != CharacterSet::Unset,
        0 <= i < data.len(),
        run((seq![start_char(set)] + data).take(i + 1)) is Ok,
        !is_switch(data[i]),
        !(is_digit(data[i]) && run((seq![start_char(set)] + data).take(i + 1))->Ok_0.0
            == CharacterSet::C),
        lookup_value(run((seq![start_char(set)] + data).take(i + 1))->Ok_0.0, data[i]) < 0,
    ensures
        units_of(data, set) == Err::<Seq<usize>, Error>(Error::Character),
{
    let s = seq![start_char(set)] + data;
    assert(s.take(i + 2).drop_last() =~= s.take(i + 1));
    assert(s.take(i + 2).last() == data[i]);
    assert(run(s.take(i + 2)) is Err);
    lemma_run_err(s, i + 2);
    lemma_run_errors(s);
}

/// The first symbol is the start symbol of the first character.
proof fn lemma_run_start(chars: Seq<char>, j: int)
    requires
        1 <= j <= chars.len(),
        is_switch(chars[0]),
        run(chars.take(j)) is Ok,
    ensures
        run(chars.take(j))->Ok_0.2.len() >= 1,
        run(chars.take(j))->Ok_0.2[0] == start_value(chars[0]),
    decreases j,
{
    assert(chars.take(j).drop_last() =~= chars.take(j - 1));
    if j > 1 {
        lemma_run_start(chars, j - 1);
    } else {
        assert(chars.take(0) =~= Seq::<char>::empty());
    }
}

/// Framing: a barcode's encoding starts with the start pattern of its
/// starting set and ends with the stop pattern and termination bars.
pub proof fn lemma_framing(data: Seq<char>, set: CharacterSet, units: Seq<usize>)
    requires
        units_of(data, set) == Ok::<Seq<usize>, Error>(units),
    ensures
        encoding(units).take(11) == PATTERNS[start_value(start_char(set)) as int]@,
        encoding(units).skip(encoding(units).len() - 13) == STOP@ + TERM@,
        encoding(units).len() == 11 * (units.len() + 2) + 2,
{
    lemma_join_len(units);
    let s = seq![start_char(set)] + data;
    assert(s.take(s.len() as int) =~= s);
    lemma_run_start(s, s.len() as int);
    let parts = patterns(units);
    lemma_join_first(parts);
    let e = encoding(units);
    let rest = join(parts.drop_first()) + PATTERNS[checksum(units)]@;
    assert(e =~= parts[0] + rest + (STOP@ + TERM@));
    assert(parts[0].len() == 11);
    assert(e.take(11) =~= parts[0]);
    assert(e.skip(e.len() - 13) =~= STOP@ + TERM@);
}

/// Every symbol pattern has eleven bits.
pub proof fn lemma_join_len(units: Seq<usize>)
    ensures
        join(patterns(units)).len() == 11 * units.len(),
    decreases units.len(),
{
    if units.len() > 0 {
        assert(patterns(units).drop_last() =~= patterns(units.drop_last()));
        lemma_join_len(units.drop_last());
    }
}

/// The tokenizer over digits, from a state in set A or C with no digit
/// waiting: in A one symbol per digit, in C one symbol per pair of digits.
proof fn lemma_run_digits(s: Seq<char>, m: int, j: int)
    requires
        1 <= m <= j <= s.len(),
        run(s.take(m)) is Ok,
        run(s.take(m))->Ok_0.0 == CharacterSet::A || run(s.take(m))->Ok_0.0 == CharacterSet::C,
        run(s.take(m))->Ok_0.1 is None,
        run(s.take(m))->Ok_0.2.len() >= 1,
        forall|k: int| m <= k < s.len() ==> is_digit(#[trigger] s[k]),
    ensures
        run(s.take(j)) is Ok,
        run(s.take(j))->Ok_0.0 == run(s.take(m))->Ok_0.0,
        run(s.take(m))->Ok_0.0 == CharacterSet::A ==> run(s.take(j))->Ok_0.1 is None && run(
            s.take(j),
        )->Ok_0.2.len() == run(s.take(m))->Ok_0.2.len() + (j - m),
        run(s.take(m))->Ok_0.0 == CharacterSet::C ==> (run(s.take(j))->Ok_0.1 is None <==> (j
            - m) % 2 == 0) && run(s.take(j))->Ok_0.2.len() == run(s.take(m))->Ok_0.2.len() + (j
            - m) / 2,
    decreases j - m,
{
    if j > m {
        lemma_run_digits(s, m, j - 1);
        assert(s.take(j).drop_last() =~= s.take(j - 1));
        let c = s[j - 1];
        assert(s.take(j).last() == c);
        lemma_known_chars(c);
        lemma_find(SET_A@, c);
        assert(SET_A@[16] == '0' && SET_A@[25] == '9');
    }
}

/// Numeric pairs: digits of even count encode strictly shorter in set C,
/// two digits to a symbol, than in set A, one digit to a symbol.
pub proof fn lemma_pairs_shorter(digits: Seq<char>)
    requires
        digits.len() >= MIN_LEN,
        digits.len() % 2 == 0,
        forall|k: int| 0 <= k < digits.len() ==> is_digit(#[trigger] digits[k]),
    ensures
        units_of(digits, CharacterSet::A) is Ok,
        units_of(digits, CharacterSet::C) is Ok,
        encoding(units_of(digits, CharacterSet::C)->Ok_0).len() == 11 * (digits.len() / 2 + 3)
            + 2,
        encoding(units_of(digits, CharacterSet::A)->Ok_0).len() == 11 * (digits.len() + 3) + 2,
        encoding(units_of(digits, CharacterSet::C)->Ok_0).len() < encoding(
            units_of(digits, CharacterSet::A)->Ok_0,
        ).len(),
{
    lemma_byte_len(digits);
    let sa = seq![start_char(CharacterSet::A)] + digits;
    let sc = seq![start_char(CharacterSet::C)] + digits;
    assert forall|k: int| 1 <= k < sa.len() implies is_digit(#[trigger] sa[k]) by {
        assert(sa[k] == digits[k - 1]);
    }
    assert forall|k: int| 1 <= k < sc.len() implies is_digit(#[trigger] sc[k]) by {
        assert(sc[k] == digits[k - 1]);
    }
    assert(sa.take(1) =~= seq![sa[0]]);
    assert(sc.take(1) =~= seq![sc[0]]);
    assert(sa.take(1).drop_last() =~= Seq::<char>::empty());
    assert(sc.take(1).drop_last() =~= Seq::<char>::empty());
    assert(run(Seq::<char>::empty()) == Ok::<TokenState, Error>(
        (CharacterSet::Unset, Option::None, Seq::empty()),
    ));
    assert(sa.take(1).last() == '\u{00C0}');
    assert(sc.take(1).last() == '\u{0106}');
    assert(run(sa.take(1)) is Ok);
    assert(run(sc.take(1)) is Ok);
    lemma_run_digits(sa, 1, sa.len() as int);
    lemma_run_digits(sc, 1, sc.len() as int);
    assert(sa.take(sa.len() as int) =~= sa);
    assert(sc.take(sc.len() as int) =~= sc);
    let ua = units_of(digits, CharacterSet::A)->Ok_0;
    let uc = units_of(digits, CharacterSet::C)->Ok_0;
    lemma_join_len(ua);
    lemma_join_len(uc);
}


/// The tokenizer over a start in set A and characters of set A that are not
/// control characters: one symbol per character, staying in set A.
proof fn lemma_run_in_a(s: Seq<char>, j: int)
    requires
        s.len() >= 1,
        s[0] == '\u{00C0}',
        forall|k: int|
            1 <= k < s.len() ==> SET_A@.contains(#[trigger] s[k]) && !is_switch(s[k]),
        1 <= j <= s.len(),
    ensures
        run(s.take(j)) is Ok,
        run(s.take(j))->Ok_0.0 == CharacterSet::A,
        run(s.take(j))->Ok_0.1 is None,
        run(s.take(j))->Ok_0.2.len() == j,
    decreases j,
{
    assert(s.take(j).drop_last() =~= s.take(j - 1));
    if j > 1 {
        lemma_run_in_a(s, j - 1);
        let c = s[j - 1];
        assert(s.take(j).last() == c);
        lemma_find(SET_A@, c);
    } else {
        assert(s.take(0) =~= Seq::<char>::empty());
        assert(run(Seq::<char>::empty()) == Ok::<TokenState, Error>(
            (CharacterSet::Unset, Option::None, Seq::empty()),
        ));
        assert(s.take(1).last() == '\u{00C0}');
    }
}

/// Numeric pairs after a switch: after a prefix of set A characters (no
/// control characters), switching to set C before four or more digits of
/// even count encodes strictly shorter than leaving the digits in set A.
pub proof fn lemma_switch_shorter(prefix: Seq<char>, digits: Seq<char>)
    requires
        forall|k: int|
            0 <= k < prefix.len() ==> SET_A@.contains(#[trigger] prefix[k]) && !is_switch(
                prefix[k],
            ),
        digits.len() >= 4,
        digits.len() % 2 == 0,
        forall|k: int| 0 <= k < digits.len() ==> is_digit(#[trigger] digits[k]),
    ensures
        units_of(prefix + seq!['\u{0106}'] + digits, CharacterSet::A) is Ok,
        units_of(prefix + digits, CharacterSet::A) is Ok,
        encoding(units_of(prefix + seq!['\u{0106}'] + digits, CharacterSet::A)->Ok_0).len() == 11
            * (prefix.len() + digits.len() / 2 + 2) + 24,
        encoding(units_of(prefix + digits, CharacterSet::A)->Ok_0).len() == 11 * (prefix.len()
            + digits.len() + 1) + 24,
        encoding(units_of(prefix + seq!['\u{0106}'] + digits, CharacterSet::A)->Ok_0).len()
            < encoding(units_of(prefix + digits, CharacterSet::A)->Ok_0).len(),
{
    lemma_byte_len(prefix + seq!['\u{0106}'] + digits);
    lemma_byte_len(prefix + digits);
    let head = seq!['\u{00C0}'] + prefix;
    let m = head.len() as int;
    assert forall|k: int| 1 <= k < head.len() implies SET_A@.contains(#[trigger] head[k])
        && !is_switch(head[k]) by {
        assert(head[k] == prefix[k - 1]);
    }
    lemma_run_in_a(head, m);
    let switched = seq!['\u{00C0}'] + (prefix + seq!['\u{0106}'] + digits);
    let plain = seq!['\u{00C0}'] + (prefix + digits);
    assert(head.take(m) =~= head);
    lemma_run_start(head, m);
    let st = run(head)->Ok_0;
    // The switch to set C: one symbol, no digit waiting.
    assert(switched.take(m) =~= head);
    assert(switched.take(m + 1).drop_last() =~= head);
    assert(switched.take(m + 1).last() == '\u{0106}');
    assert(SET_A@[99] == '\u{0106}');
    lemma_find(SET_A@, '\u{0106}');
    assert(run(switched.take(m + 1)) == Ok::<TokenState, Error>(
        (CharacterSet::C, Option::None, st.2.push(lookup_value(CharacterSet::A, '\u{0106}') as usize)),
    ));
    assert forall|k: int| m + 1 <= k < switched.len() implies is_digit(#[trigger] switched[k]) by {
        assert(switched[k] == digits[k - m - 1]);
    }
    lemma_run_digits(switched, m + 1, switched.len() as int);
    assert(switched.take(switched.len() as int) =~= switched);
    // The same digits left in set A.
    assert(plain.take(m) =~= head);
    assert forall|k: int| m <= k < plain.len() implies is_digit(#[trigger] plain[k]) by {
        assert(plain[k] == digits[k - m]);
    }
    lemma_run_digits(plain, m, plain.len() as int);
    assert(plain.take(plain.len() as int) =~= plain);
    let us = units_of(prefix + seq!['\u{0106}'] + digits, CharacterSet::A)->Ok_0;
    let up = units_of(prefix + digits, CharacterSet::A)->Ok_0;
    lemma_join_len(us);
    lemma_join_len(up);
}

} // verus!
