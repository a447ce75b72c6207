//! Compact, time-ordered 64-bit identifiers.
//!
//! An identifier packs a 42-bit timestamp, an 11-bit sequence counter and a
//! 10-bit generator identity into one 64-bit word, and round-trips through an
//! 8-byte big-endian binary form and an 11-character URL-safe base64 text
//! form.  A generator issues strictly increasing identifiers under a
//! non-decreasing clock.

use vstd::prelude::*;

pub mod base64;
pub mod config;
pub mod generator;
pub mod id;
pub mod systime;

pub use id::FID;

verus! {

/// Every failure the library can report.
#[derive(Debug, Copy, Clone, PartialEq, Eq, Structural)]
pub enum Error {
    /// timestamp at or above 2^42
    TimestampOverflow(u64),
    /// sequence at or above 2^11
    SequenceOverflow(u16),
    /// generator at or above 2^10
    GeneratorOverflow(u16),
    /// the clock reads earlier than the epoch or than the last issued timestamp
    SysTimeIsInPast,
    /// a binary identifier was not exactly 8 bytes
    WrongSliceSize(usize),
    /// a base64 group was cut short or padded wrongly
    Base64PaddingError,
    /// an output buffer cannot hold the result
    Base64BufferTooSmall,
    /// a byte outside the base64 alphabet
    Base64WrongSymbolError,
    /// ignore-mode selector that relaxes both padding and symbol errors
    Base64PaddingWrongSymbolError,
}

impl Error {
    /// The stable integer for this error at the foreign-function boundary:
    /// each kind maps to a small negative code, and every base64 failure
    /// shares one code.
    pub fn code(&self) -> (r: i32)
        ensures
            r == match *self {
                Error::TimestampOverflow(_) => -2,
                Error::SequenceOverflow(_) => -3,
                Error::GeneratorOverflow(_) => -4,
                Error::SysTimeIsInPast => -5,
                Error::WrongSliceSize(_) => -6,
                Error::Base64PaddingError => -7,
                Error::Base64BufferTooSmall => -7,
                Error::Base64WrongSymbolError => -7,
                Error::Base64PaddingWrongSymbolError => -7,
            },
    {
        match *self {
            Error::TimestampOverflow(_) => -2,
            Error::SequenceOverflow(_) => -3,
            Error::GeneratorOverflow(_) => -4,
            Error::SysTimeIsInPast => -5,
            Error::WrongSliceSize(_) => -6,
            Error::Base64PaddingError => -7,
            Error::Base64BufferTooSmall => -7,
            Error::Base64WrongSymbolError => -7,
            Error::Base64PaddingWrongSymbolError => -7,
        }
    }
}

} // verus!
