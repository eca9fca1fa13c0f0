//! Generating SVG representations of barcodes.
//!
//! An SVG generator is built with a struct literal, or with `SVG::new` and the
//! builder methods:
//!
//! ```rust
//! use barcoders::generators::svg::{Color, SVG};
//!
//! let svg = SVG::new(100)
//!     .xdim(2)
//!     .background(Color::white())
//!     .foreground(Color::black())
//!     .xmlns(String::from("http://www.w3.org/2000/svg"));
//! ```
use crate::error::{Error, Result};
use crate::generators::text::{
    concat, decimal, digit_char, lemma_concat_push, push_decimal, push_digit,
};
use vstd::prelude::*;
use vstd::string::{StrSliceExecFns, StringExecFns};

verus! {

/// Represents a RGBA color for the barcode foreground and background.
#[derive(Copy, Clone, Debug)]
pub struct Color {
    /// Red, Green, Blue, Alpha value.
    pub rgba: [u8; 4],
}

/// The SVG barcode generator type.
#[derive(Clone, Debug)]
pub struct SVG {
    /// The height of the barcode, in pixels.
    pub height: u32,
    /// The X dimension: each bit is this many pixels wide.
    pub xdim: u32,
    /// The RGBA color for the foreground.
    pub foreground: Color,
    /// The RGBA color for the background.
    pub background: Color,
    /// The XML namespace.
    pub xmlns: Option<String>,
}

/// The lower-case hexadecimal digits.
pub open spec fn hex_digits() -> Seq<char> {
    "0123456789abcdef"@
}

/// Two hexadecimal digits for a byte.
pub open spec fn hex_pair(n: u8) -> Seq<char> {
    seq![hex_digits()[n as int / 16], hex_digits()[n as int % 16]]
}

/// The `rrggbb` notation of a color.
pub open spec fn color_hex(c: Color) -> Seq<char> {
    hex_pair(c.rgba[0]) + hex_pair(c.rgba[1]) + hex_pair(c.rgba[2])
}

/// The opacity `alpha / 255` in hundredths, rounded to the nearest (a value
/// halfway between two hundredths cannot occur).
pub open spec fn opacity_hundredths(alpha: u8) -> int {
    (200 * alpha as int + 255) / 510
}

/// The opacity with two decimals, such as `0.50`.
pub open spec fn opacity_text(alpha: u8) -> Seq<char> {
    let h = opacity_hundredths(alpha);
    decimal((h / 100) as nat) + seq!['.', digit_char((h / 10) % 10), digit_char(h % 10)]
}

/// The fill-opacity attribute, absent for a fully opaque color.
pub open spec fn opacity_attr(alpha: u8) -> Seq<char> {
    if opacity_hundredths(alpha) == 100 {
        seq![]
    } else {
        " fill-opacity=\""@ + opacity_text(alpha) + "\" "@
    }
}

/// The color of a rectangle: the foreground for style 1, else the background.
pub open spec fn fill_of(svg: SVG, style: u8) -> Color {
    if style == 1 {
        svg.foreground
    } else {
        svg.background
    }
}

/// One rectangle of the picture.
pub open spec fn rect_text(svg: SVG, style: u8, offset: nat, width: nat) -> Seq<char> {
    "<rect x=\""@ + decimal(offset) + "\" y=\"0\" width=\""@ + decimal(width) + "\" height=\""@
        + decimal(svg.height as nat) + "\" fill=\"#"@ + color_hex(fill_of(svg, style)) + "\""@
        + opacity_attr(fill_of(svg, style).rgba[3]) + "/>"@
}

/// The foreground rectangles, one for each bit 1.
pub open spec fn bar_rects(svg: SVG, bits: Seq<u8>) -> Seq<char> {
    concat(
        Seq::new(
            bits.len(),
            |i: int|
                if bits[i] == 1 {
                    rect_text(svg, 1, (i * svg.xdim) as nat, svg.xdim as nat)
                } else {
                    seq![]
                },
        ),
    )
}

/// The namespace attribute, when there is a namespace.
pub open spec fn xmlns_attr(xmlns: Option<String>) -> Seq<char> {
    match xmlns {
        Some(x) => "xmlns=\""@ + x@ + "\" "@,
        None => seq![],
    }
}

/// The SVG document of the bits: the background, then the bars.
pub open spec fn document(svg: SVG, bits: Seq<u8>) -> Seq<char> {
    let width = (bits.len() * svg.xdim) as nat;
    "<svg version=\"1.1\" "@ + xmlns_attr(svg.xmlns) + "viewBox=\"0 0 "@ + decimal(width) + " "@
        + decimal(svg.height as nat) + "\">"@ + rect_text(svg, 0, 0, width) + bar_rects(svg, bits)
        + "</svg>"@
}

/// Appends the two hexadecimal digits of a byte.
fn format_hex(out: &mut String, n: u8)
    ensures
        final(out)@ == old(out)@ + hex_pair(n),
{
    to_hex_digit(out, n / 16);
    to_hex_digit(out, n % 16);
}

/// Appends one hexadecimal digit.
fn to_hex_digit(out: &mut String, n: u8)
    requires
        n < 16,
    ensures
        final(out)@ == old(out)@ + seq![hex_digits()[n as int]],
{
    let digits = "0123456789abcdef";
    proof {
        reveal_strlit("0123456789abcdef");
    }
    let d = digits.substring_char(n as usize, n as usize + 1);
    out.append(d);
    assert(d@ =~= seq![hex_digits()[n as int]]);
}

impl Color {
    /// Constructor.
    pub fn new(rgba: [u8; 4]) -> (r: Self)
        ensures
            r.rgba == rgba,
    {
        Color { rgba }
    }

    /// Constructor for black (#000000).
    pub fn black() -> (r: Self)
        ensures
            r.rgba@ == seq![0u8, 0u8, 0u8, 255u8],
    {
        Self::new([0, 0, 0, 255])
    }

    /// Constructor for white (#FFFFFF).
    pub fn white() -> (r: Self)
        ensures
            r.rgba@ == seq![255u8, 255u8, 255u8, 255u8],
    {
        Self::new([255, 255, 255, 255])
    }

    /// The opacity with two decimals.
    fn to_opacity(self) -> (r: String)
        ensures
            r@ == opacity_text(self.rgba[3]),
    {
        let alpha = self.rgba[3] as u64;
        let h = (200 * alpha + 255) / 510;
        let mut out = String::new();
        push_decimal(&mut out, h / 100);
        proof {
            reveal_strlit(".");
        }
        out.append(".");
        push_digit(&mut out, (h / 10) % 10);
        push_digit(&mut out, h % 10);
        out
    }

    /// The `rrggbb` notation of the color.
    fn to_hex(self) -> (r: String)
        ensures
            r@ == color_hex(self),
    {
        let mut out = String::new();
        format_hex(&mut out, self.rgba[0]);
        format_hex(&mut out, self.rgba[1]);
        format_hex(&mut out, self.rgba[2]);
        out
    }
}

impl SVG {
    /// Returns a new SVG of the given height, with one pixel per bit, black
    /// bars on white and no namespace.
    pub fn new(height: u32) -> (r: Self)
        ensures
            r.height == height,
            r.xdim == 1,
            r.foreground.rgba@ == seq![0u8, 0u8, 0u8, 255u8],
            r.background.rgba@ == seq![255u8, 255u8, 255u8, 255u8],
            r.xmlns is None,
    {
        SVG {
            height,
            xdim: 1,
            foreground: Color { rgba: [0, 0, 0, 255] },
            background: Color { rgba: [255, 255, 255, 255] },
            xmlns: None,
        }
    }

    /// Sets the XML namespace (xmlns) of the SVG.
    pub fn xmlns(self, xmlns_uri: String) -> (r: Self)
        ensures
            r == (SVG { xmlns: Some(xmlns_uri), ..self }),
    {
        SVG {
            height: self.height,
            xdim: self.xdim,
            foreground: self.foreground,
            background: self.background,
            xmlns: Some(xmlns_uri),
        }
    }

    /// Sets the width of a bit, in pixels.
    pub fn xdim(self, xdim: u32) -> (r: Self)
        ensures
            r == (SVG { xdim, ..self }),
    {
        SVG {
            height: self.height,
            xdim,
            foreground: self.foreground,
            background: self.background,
            xmlns: self.xmlns,
        }
    }

    /// Sets the foreground (bar) color.
    pub fn foreground(self, color: Color) -> (r: Self)
        ensures
            r == (SVG { foreground: color, ..self }),
    {
        SVG {
            height: self.height,
            xdim: self.xdim,
            foreground: color,
            background: self.background,
            xmlns: self.xmlns,
        }
    }

    /// Sets the background color.
    pub fn background(self, color: Color) -> (r: Self)
        ensures
            r == (SVG { background: color, ..self }),
    {
        SVG {
            height: self.height,
            xdim: self.xdim,
            foreground: self.foreground,
            background: color,
            xmlns: self.xmlns,
        }
    }

    /// One rectangle: the foreground color for style 1, else the background.
    fn rect(&self, style: u8, offset: u32, width: u32) -> (r: String)
        ensures
            r@ == rect_text(*self, style, offset as nat, width as nat),
    {
        let fill = if style == 1 {
            self.foreground
        } else {
            self.background
        };
        let alpha = fill.rgba[3] as u64;
        let mut out = String::new();
        out.append("<rect x=\"");
        push_decimal(&mut out, offset as u64);
        out.append("\" y=\"0\" width=\"");
        push_decimal(&mut out, width as u64);
        out.append("\" height=\"");
        push_decimal(&mut out, self.height as u64);
        out.append("\" fill=\"#");
        let hex = fill.to_hex();
        out.append(hex.as_str());
        out.append("\"");
        if (200 * alpha + 255) / 510 != 100 {
            let opacity = fill.to_opacity();
            out.append(" fill-opacity=\"");
            out.append(opacity.as_str());
            out.append("\" ");
        }
        out.append("/>");
        out
    }

    /// Generates the SVG document of the given barcode.
    ///
    /// Returns `Error::Length` if the barcode has more bits than a `u32`
    /// holds, and `Error::Conversion` if its width in pixels does not fit in
    /// a `u32`.
    pub fn generate(&self, barcode: &[u8]) -> (r: Result<String>)
        ensures
            barcode@.len() > u32::MAX ==> r == Err::<String, Error>(Error::Length),
            barcode@.len() <= u32::MAX && barcode@.len() * self.xdim > u32::MAX ==> r == Err::<
                String,
                Error,
            >(Error::Conversion),
            barcode@.len() <= u32::MAX && barcode@.len() * self.xdim <= u32::MAX ==> r is Ok
                && r->Ok_0@ == document(
                *self,
                barcode@,
            ),
    {
        let n = barcode.len();
        if n > u32::MAX as usize {
            return Err(Error::Length);
        }
        let len = n as u32;
        let width = match len.checked_mul(self.xdim) {
            Some(w) => w,
            None => {
                return Err(Error::Conversion);
            },
        };
        let ghost f = |i: int|
            if barcode@[i] == 1 {
                rect_text(*self, 1, (i * self.xdim) as nat, self.xdim as nat)
            } else {
                seq![]
            };
        let mut rects = String::new();
        let mut i: usize = 0;
        while i < n
            invariant
                n == barcode@.len(),
                n <= u32::MAX,
                n as int * self.xdim as int == width as int,
                width <= u32::MAX,
                0 <= i <= n,
                f == (|i: int|
                    if barcode@[i] == 1 {
                        rect_text(*self, 1, (i * self.xdim) as nat, self.xdim as nat)
                    } else {
                        seq![]
                    }),
                rects@ == concat(Seq::new(i as nat, f)),
            decreases n - i,
        {
            proof {
                assert(i * self.xdim <= width) by (nonlinear_arith)
                    requires
                        i < n,
                        n as int * self.xdim as int == width as int,
                ;
                assert(Seq::new((i + 1) as nat, f) =~= Seq::new(i as nat, f).push(f(i as int)));
                lemma_concat_push(Seq::new(i as nat, f), f(i as int));
            }
            if barcode[i] == 1 {
                let offset = (i as u32) * self.xdim;
                let rect = self.rect(1, offset, self.xdim);
                rects.append(rect.as_str());
            }
            i = i + 1;
        }
        let mut out = String::new();
        out.append("<svg version=\"1.1\" ");
        match &self.xmlns {
            Some(x) => {
                out.append("xmlns=\"");
                out.append(x.as_str());
                out.append("\" ");
            },
            None => {},
        }
        out.append("viewBox=\"0 0 ");
        push_decimal(&mut out, width as u64);
        out.append(" ");
        push_decimal(&mut out, self.height as u64);
        out.append("\">");
        let background = self.rect(0, 0, width);
        out.append(background.as_str());
        out.append(rects.as_str());
        out.append("</svg>");
        proof {
            assert(out@ =~= document(*self, barcode@));
        }
        Ok(out)
    }
}

} // verus!
