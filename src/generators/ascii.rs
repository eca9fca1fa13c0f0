//! Generating ASCII representations of barcodes.
//!
//! This is useful for testing and simple verification of barcode correctness.
use crate::error::Result;
use crate::generators::text::{concat, lemma_concat_push};
use vstd::prelude::*;
use vstd::string::StringExecFns;

verus! {

/// The ASCII barcode generator type.
#[derive(Copy, Clone, Debug)]
pub struct ASCII {
    /// The height of the barcode, in lines.
    pub height: usize,
    /// The X dimension: each bit is this many characters wide.
    pub xdim: usize,
}

/// The character of a bit: a space for 0, `#` for 1.
pub open spec fn cell(b: u8) -> char {
    if b == 0 {
        ' '
    } else {
        '#'
    }
}

/// One bit drawn `xdim` characters wide.
pub open spec fn cells(b: u8, xdim: nat) -> Seq<char> {
    Seq::new(xdim, |i: int| cell(b))
}

/// One line of the picture.
pub open spec fn row(bits: Seq<u8>, xdim: nat) -> Seq<char> {
    concat(bits.map_values(|b: u8| cells(b, xdim)))
}

/// `height` copies of `line`, separated by newlines.
pub open spec fn lines(line: Seq<char>, height: nat) -> Seq<char>
    decreases height,
{
    if height == 0 {
        seq![]
    } else if height == 1 {
        line
    } else {
        lines(line, (height - 1) as nat) + seq!['\n'] + line
    }
}

/// The whole picture.
pub open spec fn picture(bits: Seq<u8>, height: nat, xdim: nat) -> Seq<char> {
    lines(row(bits, xdim), height)
}

impl Default for ASCII {
    fn default() -> (r: Self)
        ensures
            r.height == 10,
            r.xdim == 1,
    {
        Self::new()
    }
}

impl ASCII {
    /// Returns a new ASCII with default values: 10 lines high, one character per bit.
    pub fn new() -> (r: Self)
        ensures
            r.height == 10,
            r.xdim == 1,
    {
        ASCII { height: 10, xdim: 1 }
    }

    /// One line of the picture.
    fn generate_row(&self, barcode: &[u8]) -> (r: String)
        ensures
            r@ == row(barcode@, self.xdim as nat),
    {
        let mut out = String::new();
        let n = barcode.len();
        let mut i: usize = 0;
        while i < n
            invariant
                n == barcode@.len(),
                0 <= i <= n,
                out@ == row(barcode@.take(i as int), self.xdim as nat),
            decreases n - i,
        {
            let b = barcode[i];
            let ghost before = out@;
            let mut k: usize = 0;
            while k < self.xdim
                invariant
                    0 <= k <= self.xdim,
                    b == barcode@[i as int],
                    out@ == before + Seq::new(k as nat, |j: int| cell(b)),
                decreases self.xdim - k,
            {
                if b == 0 {
                    proof {
                        reveal_strlit(" ");
                    }
                    out.append(" ");
                } else {
                    proof {
                        reveal_strlit("#");
                    }
                    out.append("#");
                }
                proof {
                    assert(Seq::new((k + 1) as nat, |j: int| cell(b)) =~= Seq::new(
                        k as nat,
                        |j: int| cell(b),
                    ).push(cell(b)));
                }
                k = k + 1;
            }
            proof {
                let f = |x: u8| cells(x, self.xdim as nat);
                assert(Seq::new(self.xdim as nat, |j: int| cell(b)) =~= cells(b, self.xdim as nat));
                assert(barcode@.take(i + 1).map_values(f) =~= barcode@.take(i as int).map_values(
                    f,
                ).push(cells(b, self.xdim as nat)));
                lemma_concat_push(barcode@.take(i as int).map_values(f), cells(b, self.xdim as nat));
            }
            i = i + 1;
        }
        proof {
            assert(barcode@.take(n as int) =~= barcode@);
        }
        out
    }

    /// Generates the picture of the given barcode: `height` lines, each
    /// drawing every bit `xdim` characters wide.
    pub fn generate(&self, barcode: &[u8]) -> (r: Result<String>)
        ensures
            r is Ok,
            r->Ok_0@ == picture(barcode@, self.height as nat, self.xdim as nat),
    {
        let mut output = String::new();
        let row = self.generate_row(barcode);
        let mut i: usize = 0;
        while i < self.height
            invariant
                0 <= i <= self.height,
                row@ == crate::generators::ascii::row(barcode@, self.xdim as nat),
                output@ == lines(row@, i as nat),
            decreases self.height - i,
        {
            if i > 0 {
                proof {
                    reveal_strlit("\n");
                }
                output.append("\n");
            }
            output.append(row.as_str());
            i = i + 1;
        }
        Ok(output)
    }
}

} // verus!
