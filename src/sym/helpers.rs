//! Shared pieces of the symbologies: validation, table search and bit output.
use crate::error::Error;
use vstd::arithmetic::div_mod::{
    lemma_add_mod_noop, lemma_mod_twice, lemma_mul_mod_noop_right,
};
use vstd::prelude::*;
use vstd::string::StrSliceExecFns;
use vstd::utf8::{encode_utf8, is_ascii_chars, is_ascii_chars_encode_utf8};

verus! {

/// The first position at or after `from` where `table` holds `c`, or -1.
pub open spec fn find_from(table: Seq<char>, c: char, from: int) -> int
    decreases table.len() - from,
{
    if from < 0 || from >= table.len() {
        -1
    } else if table[from] == c {
        from
    } else {
        find_from(table, c, from + 1)
    }
}

/// The first position of `c` in `table`, or -1 when it is absent.
pub open spec fn find(table: Seq<char>, c: char) -> int {
    find_from(table, c, 0)
}

pub proof fn lemma_find_from(table: Seq<char>, c: char, from: int)
    requires
        0 <= from,
    ensures
        find_from(table, c, from) == -1 || (from <= find_from(table, c, from) < table.len()
            && table[find_from(table, c, from)] == c),
        find_from(table, c, from) == -1 <==> (forall|k: int|
            from <= k < table.len() ==> table[k] != c),
    decreases table.len() - from,
{
    if from < table.len() && table[from] != c {
        lemma_find_from(table, c, from + 1);
    }
}

pub proof fn lemma_find(table: Seq<char>, c: char)
    ensures
        find(table, c) == -1 || (0 <= find(table, c) < table.len() && table[find(table, c)]
            == c),
        find(table, c) == -1 <==> !table.contains(c),
        table.contains(c) ==> 0 <= find(table, c) < table.len(),
{
    lemma_find_from(table, c, 0);
}

/// Searches `table` for `c`, front to back.
pub fn position<const N: usize>(table: &[char; N], c: char) -> (r: Option<usize>)
    ensures
        match r {
            Some(k) => k as int == find(table@, c) && k < N,
            None => find(table@, c) == -1,
        },
{
    proof {
        lemma_find(table@, c);
    }
    let mut i: usize = 0;
    while i < N
        invariant
            0 <= i <= N,
            table@.len() == N,
            find_from(table@, c, 0) == find_from(table@, c, i as int),
        decreases N - i,
    {
        if table[i] == c {
            return Some(i);
        }
        i = i + 1;
    }
    None
}

/// The length of text in UTF-8 bytes, as `str::len` counts it.
pub open spec fn byte_len(s: Seq<char>) -> int {
    encode_utf8(s).len() as int
}

/// Every character takes at least one byte.
pub proof fn lemma_byte_len(s: Seq<char>)
    ensures
        byte_len(s) >= s.len(),
    decreases s.len(),
{
    if s.len() > 0 {
        lemma_byte_len(s.drop_first());
    }
}

/// Text of ASCII characters takes one byte per character.
pub proof fn lemma_ascii_byte_len(s: Seq<char>)
    requires
        forall|i: int| 0 <= i < s.len() ==> '\0' <= #[trigger] s[i] <= '\u{7f}',
    ensures
        byte_len(s) == s.len(),
{
    assert(is_ascii_chars(s));
    is_ascii_chars_encode_utf8(s);
}

/// The verdict of validation: a length in bytes outside `min..=max` is
/// reported before a character outside `alphabet`.
pub open spec fn check(s: Seq<char>, min: int, max: int, alphabet: Seq<char>) -> Option<Error> {
    if byte_len(s) < min || byte_len(s) > max {
        Some(Error::Length)
    } else if exists|i: int| 0 <= i < s.len() && !alphabet.contains(#[trigger] s[i]) {
        Some(Error::Character)
    } else {
        None
    }
}

/// The characters of `data`, in order.
pub fn chars_of(data: &str) -> (r: Vec<char>)
    ensures
        r@ == data@,
{
    let n = data.unicode_len();
    let mut out: Vec<char> = Vec::new();
    let mut i: usize = 0;
    while i < n
        invariant
            n == data@.len(),
            0 <= i <= n,
            out@ == data@.take(i as int),
        decreases n - i,
    {
        out.push(data.get_char(i));
        proof {
            assert(data@.take(i + 1) =~= data@.take(i as int).push(data@[i as int]));
        }
        i = i + 1;
    }
    proof {
        assert(data@.take(n as int) =~= data@);
    }
    out
}

/// Checks the length, then each character, of `data`.
pub fn parse<const N: usize>(data: &str, min: usize, max: usize, alphabet: &[char; N]) -> (r:
    Result<Vec<char>, Error>)
    ensures
        match r {
            Ok(v) => v@ == data@ && check(data@, min as int, max as int, alphabet@) is None
                && v@.len() <= max && ((forall|k: int|
                0 <= k < N ==> '\0' <= #[trigger] alphabet@[k] <= '\u{7f}') ==> byte_len(v@) == v@.len()),
            Err(e) => check(data@, min as int, max as int, alphabet@) == Some(e),
        },
{
    // The length in UTF-8 bytes, which a slice holds in a `usize`.
    let bytes = data.as_bytes().len();
    if bytes < min || bytes > max {
        return Err(Error::Length);
    }
    let chars = chars_of(data);
    let n = chars.len();
    proof {
        lemma_byte_len(data@);
    }
    let mut i: usize = 0;
    while i < n
        invariant
            chars@ == data@,
            n == chars@.len(),
            min <= byte_len(data@) <= max,
            n <= max,
            0 <= i <= n,
            forall|k: int| 0 <= k < i ==> alphabet@.contains(#[trigger] chars@[k]),
        decreases n - i,
    {
        match position(alphabet, chars[i]) {
            Some(_) => {},
            None => {
                proof {
                    lemma_find(alphabet@, chars@[i as int]);
                }
                return Err(Error::Character);
            },
        }
        proof {
            lemma_find(alphabet@, chars@[i as int]);
        }
        i = i + 1;
    }
    proof {
        if forall|k: int| 0 <= k < N ==> '\0' <= #[trigger] alphabet@[k] <= '\u{7f}' {
            assert forall|j: int| 0 <= j < n implies '\0' <= #[trigger] chars@[j] <= '\u{7f}' by {
                assert(alphabet@.contains(chars@[j]));
            }
            lemma_ascii_byte_len(chars@);
        }
    }
    Ok(chars)
}

/// Concatenation of the parts, in order.
pub open spec fn join(parts: Seq<Seq<u8>>) -> Seq<u8>
    decreases parts.len(),
{
    if parts.len() == 0 {
        seq![]
    } else {
        join(parts.drop_last()) + parts.last()
    }
}

pub proof fn lemma_join_push(parts: Seq<Seq<u8>>, p: Seq<u8>)
    ensures
        join(parts.push(p)) == join(parts) + p,
{
    assert(parts.push(p).drop_last() =~= parts);
}

pub proof fn lemma_join_first(parts: Seq<Seq<u8>>)
    requires
        parts.len() >= 1,
    ensures
        join(parts) == parts[0] + join(parts.drop_first()),
    decreases parts.len(),
{
    if parts.len() == 1 {
        assert(parts.drop_last() =~= Seq::<Seq<u8>>::empty());
        assert(parts.drop_first() =~= Seq::<Seq<u8>>::empty());
        assert(parts[0] + Seq::<u8>::empty() =~= parts[0]);
    } else {
        lemma_join_first(parts.drop_last());
        assert(parts.drop_last().drop_first() =~= parts.drop_first().drop_last());
        assert(parts.drop_first().last() == parts.last());
        assert(parts[0] + join(parts.drop_last().drop_first()) + parts.last() =~= parts[0] + (join(
            parts.drop_first().drop_last(),
        ) + parts.drop_first().last()));
    }
}

/// Parts of equal width `w` join to `w` bits each.
pub proof fn lemma_join_uniform_len(parts: Seq<Seq<u8>>, w: int)
    requires
        forall|i: int| 0 <= i < parts.len() ==> (#[trigger] parts[i]).len() == w,
    ensures
        join(parts).len() == w * parts.len(),
    decreases parts.len(),
{
    if parts.len() > 0 {
        lemma_join_uniform_len(parts.drop_last(), w);
        assert(w * (parts.len() - 1) + w == w * parts.len()) by (nonlinear_arith);
    }
}

/// Parts of equal width `w` joined with `sep` between neighbours.
pub proof fn lemma_join_sep_uniform_len(parts: Seq<Seq<u8>>, sep: Seq<u8>, w: int)
    requires
        parts.len() >= 1,
        forall|i: int| 0 <= i < parts.len() ==> (#[trigger] parts[i]).len() == w,
    ensures
        join_sep(parts, sep).len() == w * parts.len() + sep.len() * (parts.len() - 1),
    decreases parts.len(),
{
    if parts.len() > 1 {
        lemma_join_sep_uniform_len(parts.drop_last(), sep, w);
        assert(parts.last() == parts[parts.len() - 1]);
        assert(w * (parts.len() - 1) + sep.len() * (parts.len() - 2) + sep.len() + w == w
            * parts.len() + sep.len() * (parts.len() - 1)) by (nonlinear_arith);
    } else {
        assert(parts[0].len() == w);
        assert(w * 1 + sep.len() * 0 == w) by (nonlinear_arith);
    }
}

/// In parts of equal width `w` joined with `sep`, the separator before part
/// `i` stands right after the first `i` parts and `i - 1` separators.
pub proof fn lemma_join_sep_at(parts: Seq<Seq<u8>>, sep: Seq<u8>, w: int, i: int)
    requires
        1 <= i < parts.len(),
        w >= 0,
        forall|k: int| 0 <= k < parts.len() ==> (#[trigger] parts[k]).len() == w,
    ensures
        join_sep(parts, sep).subrange(w * i + sep.len() * (i - 1), w * i + sep.len() * i) == sep,
    decreases parts.len(),
{
    let n = parts.len();
    let prefix = parts.drop_last();
    lemma_join_sep_uniform_len(prefix, sep, w);
    lemma_join_sep_uniform_len(parts, sep, w);
    let whole = join_sep(parts, sep);
    let head = join_sep(prefix, sep);
    assert(whole == head + sep + parts.last());
    if i == n - 1 {
        let sl = sep.len() as int;
        assert(w * (n - 1) + sl * (n - 2) == w * i + sl * (i - 1)) by (nonlinear_arith)
            requires
                i == n - 1,
        ;
        assert(head.len() == w * i + sl * (i - 1));
        assert(w * i + sl * (i - 1) + sl == w * i + sl * i) by (nonlinear_arith);
        assert(whole.subrange(head.len() as int, (head.len() + sep.len()) as int) =~= sep);
        assert(whole.subrange(w * i + sl * (i - 1), w * i + sl * i) == sep);
    } else {
        lemma_join_sep_at(prefix, sep, w, i);
        let sl = sep.len() as int;
        let lo = w * i + sl * (i - 1);
        let hi = w * i + sl * i;
        assert(0 <= lo <= hi <= w * (n - 1) + sl * (n - 2)) by (nonlinear_arith)
            requires
                1 <= i < n - 1,
                w >= 0,
                sl >= 0,
                lo == w * i + sl * (i - 1),
                hi == w * i + sl * i,
        ;
        assert(whole.subrange(lo, hi) =~= head.subrange(lo, hi));
        assert(whole.subrange(lo, hi) == sep);
    }
}

/// The last bit of a join is the last bit of its last part.
pub proof fn lemma_join_last(parts: Seq<Seq<u8>>)
    requires
        parts.len() >= 1,
        parts.last().len() >= 1,
    ensures
        join(parts).len() >= 1,
        join(parts).last() == parts.last().last(),
{
}

/// Appends the first `len` bits of `row` to `out`.
pub fn push_bits<const N: usize>(out: &mut Vec<u8>, row: &[u8; N], len: usize)
    requires
        len <= N,
    ensures
        final(out)@ == old(out)@ + row@.take(len as int),
{
    let ghost start = out@;
    let mut i: usize = 0;
    while i < len
        invariant
            0 <= i <= len <= N,
            row@.len() == N,
            out@ == start + row@.take(i as int),
        decreases len - i,
    {
        out.push(row[i]);
        proof {
            assert(row@.take(i + 1) =~= row@.take(i as int).push(row@[i as int]));
        }
        i = i + 1;
    }
}

/// Appends every bit of `bits` to `out`.
pub fn push_slice(out: &mut Vec<u8>, bits: &[u8])
    ensures
        final(out)@ == old(out)@ + bits@,
{
    let ghost start = out@;
    let mut i: usize = 0;
    while i < bits.len()
        invariant
            0 <= i <= bits@.len(),
            out@ == start + bits@.take(i as int),
        decreases bits@.len() - i,
    {
        out.push(bits[i]);
        proof {
            assert(bits@.take(i + 1) =~= bits@.take(i as int).push(bits@[i as int]));
        }
        i = i + 1;
    }
    proof {
        assert(bits@.take(bits@.len() as int) =~= bits@);
    }
}

/// The check digit of the retail modulo-10 scheme: digits at even positions
/// weigh 1 and those at odd positions 3 when `even_start` holds, the other way
/// round when it does not.
pub open spec fn modulo_10(data: Seq<u8>, even_start: bool) -> int {
    let total = weighted_sum_10(data, even_start);
    if total % 10 == 0 {
        0
    } else {
        10 - total % 10
    }
}

/// The weight of position `i` in the retail modulo-10 scheme.
pub open spec fn weight_10(i: int, even_start: bool) -> int {
    if (i % 2 == 1) == even_start {
        3
    } else {
        1
    }
}

/// The sum of the digits of `data`, each times the weight of its position.
pub open spec fn weighted_sum_10(data: Seq<u8>, even_start: bool) -> int
    decreases data.len(),
{
    if data.len() == 0 {
        0
    } else {
        weighted_sum_10(data.drop_last(), even_start) + data.last() * weight_10(
            data.len() - 1,
            even_start,
        )
    }
}

/// Computes the retail modulo-10 check digit.
pub fn modulo_10_checksum(data: &[u8], even_start: bool) -> (r: u8)
    requires
        forall|k: int| 0 <= k < data@.len() ==> data@[k] <= 9,
    ensures
        r as int == modulo_10(data@, even_start),
        r <= 9,
{
    // The sum is kept modulo 10, which is all the check digit depends on.
    let mut total: u32 = 0;
    let mut i: usize = 0;
    while i < data.len()
        invariant
            0 <= i <= data@.len(),
            forall|k: int| 0 <= k < data@.len() ==> data@[k] <= 9,
            total < 10,
            total as int == weighted_sum_10(data@.take(i as int), even_start) % 10,
        decreases data@.len() - i,
    {
        let d = data[i] as u32;
        let w: u32 = if (i % 2 == 1) == even_start {
            3
        } else {
            1
        };
        proof {
            assert(data@.take(i + 1).drop_last() =~= data@.take(i as int));
            let ws = weighted_sum_10(data@.take(i as int), even_start);
            let dw = (d * w) as int;
            lemma_add_mod_noop(ws, dw, 10);
            lemma_add_mod_noop(ws % 10, dw, 10);
            lemma_mod_twice(ws, 10);
        }
        total = (total + d * w) % 10;
        i = i + 1;
    }
    proof {
        assert(data@.take(data@.len() as int) =~= data@);
        lemma_mod_twice(weighted_sum_10(data@, even_start), 10);
    }
    if total == 0 {
        0
    } else {
        (10 - total) as u8
    }
}

/// The weight of the character at distance `k` from the end of the data:
/// weights count 1, 2, ... up to `threshold` and then start again at 1.
pub open spec fn weight(k: int, threshold: int) -> int {
    if k % threshold == 0 {
        threshold
    } else {
        k % threshold
    }
}

/// The sum over `data` of each character's position in `table` times the
/// weight of its distance from the end (the last character is at distance 1).
pub open spec fn weighted_sum(table: Seq<char>, data: Seq<char>, threshold: int) -> int
    decreases data.len(),
{
    if data.len() == 0 {
        0
    } else {
        find(table, data[0]) * weight(data.len() as int, threshold) + weighted_sum(
            table,
            data.drop_first(),
            threshold,
        )
    }
}

/// Computes `weighted_sum` for characters of the table, modulo `modulus`.
pub fn weighted_sum_mod<const N: usize>(
    table: &[char; N],
    data: &[char],
    threshold: usize,
    modulus: usize,
) -> (r: usize)
    requires
        N <= 64,
        1 <= modulus <= 64,
        1 <= threshold,
        forall|k: int| 0 <= k < data@.len() ==> table@.contains(#[trigger] data@[k]),
    ensures
        r < modulus,
        r as int == weighted_sum(table@, data@, threshold as int) % (modulus as int),
{
    let n = data.len();
    let mut total: usize = 0;
    let mut i: usize = n;
    proof {
        assert(data@.subrange(n as int, n as int) =~= Seq::<char>::empty());
        assert(weighted_sum(table@, Seq::<char>::empty(), threshold as int) == 0);
        assert(0int % (modulus as int) == 0);
    }
    while i > 0
        invariant
            n == data@.len(),
            0 <= i <= n,
            table@.len() == N <= 64,
            1 <= modulus <= 64,
            1 <= threshold,
            forall|k: int| 0 <= k < data@.len() ==> table@.contains(#[trigger] data@[k]),
            total < modulus,
            total as int == weighted_sum(table@, data@.subrange(i as int, n as int), threshold as int)
                % (modulus as int),
        decreases i,
    {
        let c = data[i - 1];
        proof {
            lemma_find(table@, c);
        }
        let v = match position(table, c) {
            Some(k) => k,
            None => 0,
        };
        // The distance from the end is at most the length, so it fits.
        let k = n - (i - 1);
        let w = if k % threshold == 0 {
            threshold
        } else {
            k % threshold
        };
        let wm = w % modulus;
        proof {
            let s = data@.subrange(i - 1, n as int);
            assert(s.drop_first() =~= data@.subrange(i as int, n as int));
            assert(s[0] == c);
            assert(v * wm < 64 * 64) by (nonlinear_arith)
                requires
                    v < 64,
                    wm < 64,
            ;
            let m = modulus as int;
            let ws = weighted_sum(table@, data@.subrange(i as int, n as int), threshold as int);
            assert(weighted_sum(table@, s, threshold as int) == v * w + ws);
            let vi = v as int;
            let wi = w as int;
            lemma_add_mod_noop(ws, vi * wi, m);
            lemma_add_mod_noop(ws % m, vi * (wi % m), m);
            lemma_mod_twice(ws, m);
            lemma_mul_mod_noop_right(vi, wi, m);
            assert(vi * wi + ws == ws + vi * wi);
        }
        total = (total + v * wm) % modulus;
        i = i - 1;
    }
    proof {
        assert(data@.subrange(0, n as int) =~= data@);
    }
    total
}

/// `data` with `c` appended.
pub fn with_char(data: &[char], c: char) -> (r: Vec<char>)
    ensures
        r@ == data@.push(c),
{
    let mut out: Vec<char> = Vec::new();
    let mut i: usize = 0;
    while i < data.len()
        invariant
            0 <= i <= data@.len(),
            out@ == data@.take(i as int),
        decreases data@.len() - i,
    {
        out.push(data[i]);
        proof {
            assert(data@.take(i + 1) =~= data@.take(i as int).push(data@[i as int]));
        }
        i = i + 1;
    }
    proof {
        assert(data@.take(data@.len() as int) =~= data@);
    }
    out.push(c);
    out
}

/// The parts in order, `sep` between each two neighbours.
pub open spec fn join_sep(parts: Seq<Seq<u8>>, sep: Seq<u8>) -> Seq<u8>
    decreases parts.len(),
{
    if parts.len() == 0 {
        seq![]
    } else if parts.len() == 1 {
        parts[0]
    } else {
        join_sep(parts.drop_last(), sep) + sep + parts.last()
    }
}

/// The decimal digits `0` to `9`.
pub const DIGITS: [char; 10] = ['0', '1', '2', '3', '4', '5', '6', '7', '8', '9'];

/// The numeric values of decimal digit characters.
pub open spec fn digit_values(s: Seq<char>) -> Seq<u8> {
    s.map_values(|c: char| (c as int - '0' as int) as u8)
}

/// Converts decimal digit characters to their numeric values.
pub fn to_digits(chars: &[char]) -> (r: Vec<u8>)
    requires
        forall|k: int| 0 <= k < chars@.len() ==> DIGITS@.contains(#[trigger] chars@[k]),
    ensures
        r@ == digit_values(chars@),
        forall|k: int| 0 <= k < r@.len() ==> #[trigger] r@[k] <= 9,
{
    let mut out: Vec<u8> = Vec::new();
    let mut i: usize = 0;
    while i < chars.len()
        invariant
            0 <= i <= chars@.len(),
            forall|k: int| 0 <= k < chars@.len() ==> DIGITS@.contains(#[trigger] chars@[k]),
            out@ == digit_values(chars@.take(i as int)),
            forall|k: int| 0 <= k < out@.len() ==> #[trigger] out@[k] <= 9,
        decreases chars@.len() - i,
    {
        let c = chars[i];
        assert(DIGITS@.contains(chars@[i as int]));
        assert('0' <= c && c <= '9');
        let d = (c as u32 - '0' as u32) as u8;
        out.push(d);
        proof {
            assert(digit_values(chars@.take(i + 1)) =~= digit_values(chars@.take(i as int)).push(
                d,
            ));
        }
        i = i + 1;
    }
    proof {
        assert(chars@.take(chars@.len() as int) =~= chars@);
    }
    out
}

/// Length bounds: an input shorter or longer than the accepted range is
/// refused with `Length`, whatever it holds; an input of exactly the shortest
/// or the longest accepted length, made of characters of the alphabet, passes.
pub proof fn lemma_length_bounds(s: Seq<char>, min: int, max: int, alphabet: Seq<char>)
    ensures
        byte_len(s) < min || byte_len(s) > max ==> check(s, min, max, alphabet) == Some(
            Error::Length,
        ),
        min <= max && (byte_len(s) == min || byte_len(s) == max) && (forall|i: int|
            0 <= i < s.len() ==> alphabet.contains(#[trigger] s[i])) ==> check(
            s,
            min,
            max,
            alphabet,
        ) is None,
{
}

/// Alphabet: once the length is accepted, a character outside the alphabet
/// at any position is refused with `Character`.
pub proof fn lemma_alphabet(s: Seq<char>, min: int, max: int, alphabet: Seq<char>, i: int)
    requires
        min <= byte_len(s) <= max,
        0 <= i < s.len(),
        !alphabet.contains(s[i]),
    ensures
        check(s, min, max, alphabet) == Some(Error::Character),
{
}

} // verus!
