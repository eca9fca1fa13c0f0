//! Supported barcode symbologies.
//!
//! Each symbology lives in its own module. A value is created through a
//! validating constructor and then encoded with `encode`.

pub mod codabar;
pub mod code11;
pub mod code128;
pub mod code39;
pub mod code93;
pub mod ean13;
pub mod ean8;
pub mod ean_supp;
pub mod helpers;
pub mod tf;
