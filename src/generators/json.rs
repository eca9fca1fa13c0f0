//! Generating JSON representations of barcodes.
//!
//! This is useful for passing encoded data to third-party systems in a conventional format.
//!
//! Output is of the format:
//! ```javascript
//! {"height":10,"xdim":1,"encoding":[1,0,0,1,1,0]}
//! ```
use crate::error::Result;
use crate::generators::text::{decimal, push_decimal};
use vstd::prelude::*;
use vstd::string::StringExecFns;

verus! {

/// The JSON barcode generator type.
#[derive(Copy, Clone, Debug)]
pub struct JSON {
    /// The height of the barcode.
    pub height: usize,
    /// The X dimension. Specifies the width of the "narrow" bars.
    pub xdim: usize,
}

/// The digit of a bit: `0` for 0, `1` for anything else.
pub open spec fn bit_char(b: u8) -> char {
    if b == 0 {
        '0'
    } else {
        '1'
    }
}

/// The bits as digits separated by commas.
pub open spec fn bit_list(bits: Seq<u8>) -> Seq<char>
    decreases bits.len(),
{
    if bits.len() == 0 {
        seq![]
    } else if bits.len() == 1 {
        seq![bit_char(bits[0])]
    } else {
        bit_list(bits.drop_last()) + seq![',', bit_char(bits.last())]
    }
}

/// The JSON document for the bits.
pub open spec fn document(bits: Seq<u8>, height: nat, xdim: nat) -> Seq<char> {
    "{\"height\":"@ + decimal(height) + ",\"xdim\":"@ + decimal(xdim) + ",\"encoding\":["@
        + bit_list(bits) + "]}"@
}

impl Default for JSON {
    fn default() -> (r: Self)
        ensures
            r.height == 10,
            r.xdim == 1,
    {
        Self::new()
    }
}

impl JSON {
    /// Returns a new JSON with default values: height 10, X dimension 1.
    pub fn new() -> (r: Self)
        ensures
            r.height == 10,
            r.xdim == 1,
    {
        JSON { height: 10, xdim: 1 }
    }

    /// Generates the JSON document of the given barcode.
    pub fn generate(&self, barcode: &[u8]) -> (r: Result<String>)
        ensures
            r is Ok,
            r->Ok_0@ == document(barcode@, self.height as nat, self.xdim as nat),
    {
        let mut bits = String::new();
        let n = barcode.len();
        let mut i: usize = 0;
        while i < n
            invariant
                n == barcode@.len(),
                0 <= i <= n,
                bits@ == bit_list(barcode@.take(i as int)),
            decreases n - i,
        {
            if i > 0 {
                proof {
                    reveal_strlit(",");
                }
                bits.append(",");
            }
            if barcode[i] == 0 {
                proof {
                    reveal_strlit("0");
                }
                bits.append("0");
            } else {
                proof {
                    reveal_strlit("1");
                }
                bits.append("1");
            }
            proof {
                assert(barcode@.take(i + 1).drop_last() =~= barcode@.take(i as int));
                if i == 0 {
                    assert(bits@ =~= bit_list(barcode@.take(1)));
                } else {
                    assert(bits@ =~= bit_list(barcode@.take(i + 1)));
                }
            }
            i = i + 1;
        }
        proof {
            assert(barcode@.take(n as int) =~= barcode@);
        }
        let mut output = String::new();
        output.append("{\"height\":");
        push_decimal(&mut output, self.height as u64);
        output.append(",\"xdim\":");
        push_decimal(&mut output, self.xdim as u64);
        output.append(",\"encoding\":[");
        output.append(bits.as_str());
        output.append("]}");
        Ok(output)
    }
}

} // verus!
