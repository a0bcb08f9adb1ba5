//! The ways an embedding or an extraction can fail.

use vstd::prelude::*;

verus! {

/// Every failure the codec reports.
#[derive(Clone, Copy, Debug, PartialEq, Eq, Structural)]
pub enum Error {
    /// `depth` and `bits` do not describe a window inside a byte, the JPEG
    /// component does not exist, or the payload is empty.
    InvalidParameters,
    /// The carrier is neither PNG nor JPEG, or not 8-bit RGB / RGBA.
    UnsupportedFormat,
    /// The payload does not fit the carrier at the chosen `bits`.
    TooMuchData,
    /// The length found in a carrier's header cannot be a payload's.
    InvalidDataSize,
    /// The stride asked for does not fit the carrier.
    TooBigStep,
    /// The walk ran out of samples before the payload was done.
    CarrierTruncated,
    /// The carrier could not be read or written.
    CarrierIoError,
    /// The payload could not be read or written.
    PayloadIoError,
}

impl Error {
    /// A short description for a diagnostic line.
    pub fn message(&self) -> (s: &'static str)
        ensures
            s@ == Self::message_of(*self),
    {
        match self {
            Error::InvalidParameters => "invalid parameters",
            Error::UnsupportedFormat => "unsupported image format",
            Error::TooMuchData => "too much data",
            Error::InvalidDataSize => "invalid data size",
            Error::TooBigStep => "too big step",
            Error::CarrierTruncated => "image ended but data not",
            Error::CarrierIoError => "carrier i/o error",
            Error::PayloadIoError => "payload i/o error",
        }
    }

    /// The text of [`Error::message`].
    pub open spec fn message_of(e: Error) -> Seq<char> {
        match e {
            Error::InvalidParameters => "invalid parameters"@,
            Error::UnsupportedFormat => "unsupported image format"@,
            Error::TooMuchData => "too much data"@,
            Error::InvalidDataSize => "invalid data size"@,
            Error::TooBigStep => "too big step"@,
            Error::CarrierTruncated => "image ended but data not"@,
            Error::CarrierIoError => "carrier i/o error"@,
            Error::PayloadIoError => "payload i/o error"@,
        }
    }
}

} // verus!
