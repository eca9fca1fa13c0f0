//! The errors that encoding and generation can report.
use vstd::prelude::*;

verus! {

/// The possible errors that can occur during barcode encoding and generation.
#[derive(Clone, Copy, Debug, PartialEq, Eq, Structural)]
pub enum Error {
    /// An invalid character found during encoding.
    Character,
    /// An invalid data length during encoding.
    Length,
    /// An error during barcode generation.
    Generate,
    /// Invalid checksum.
    Checksum,
    /// Invalid data.
    Conversion,
}

/// Alias-type for `Result<T, Error>`.
pub type Result<T> = core::result::Result<T, Error>;

impl Error {
    /// A short human-readable description of the error.
    pub fn message(&self) -> (r: &'static str) {
        match self {
            Error::Character => "Barcode data is invalid",
            Error::Length => "Barcode data length is invalid",
            Error::Generate => "Could not generate barcode data",
            Error::Checksum => "Invalid checksum",
            Error::Conversion => "Invalid data conversion",
        }
    }
}

} // verus!
