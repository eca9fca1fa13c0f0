//! Encoders that turn text into the bar/space pattern of a barcode symbology.
//!
//! Each symbology validates its input on construction and encodes it into a
//! sequence of binary digits (1 = bar, 0 = space).
pub mod error;
pub mod generators;
pub mod sym;
