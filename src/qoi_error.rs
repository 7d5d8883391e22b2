use vstd::prelude::*;

verus! {

/// Why decoding or saving an image failed.
#[derive(Debug, Clone, PartialEq, Eq)]
pub enum QoiError {
    /// The stream does not open with the magic `qoif`; holds the four bytes found.
    InvalidHeader(Vec<u8>),
    /// The stream does not close with the end marker; holds the eight bytes found.
    InvalidEndMark(Vec<u8>),
    /// The stream ended before a header, a chunk or the end marker was complete.
    TruncatedStream,
    /// The decoded pixels could not be turned into an image or written out.
    SavingError(String),
    /// Reading or writing the stream failed.
    GeneralIOError(String),
}

} // verus!
