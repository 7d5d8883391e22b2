//! An image to compress, and the encode and decode operations on it.
use vstd::prelude::*;
use crate::decoder::{decode_bytes, decode_result};
use crate::encoder::encode_pixels;
use crate::format::{decode_stream, encoded};
use crate::qoi_error::QoiError;
use crate::qoi_file::QoiFile;

verus! {

/// A source image: where it came from, its dimensions and its pixels as
/// interleaved RGB bytes in row-major order.
#[derive(Debug, Clone)]
pub struct Data {
    pub path: String,
    pub width: u32,
    pub height: u32,
    pub rgb: Vec<u8>,
}

impl Data {
    /// A copy of the image's RGB bytes.
    pub fn get_pixels(&self) -> (r: Vec<u8>)
        ensures
            r@ == self.rgb@,
    {
        let mut r: Vec<u8> = Vec::new();
        let mut i: usize = 0;
        while i < self.rgb.len()
            invariant
                i <= self.rgb@.len(),
                r@ == self.rgb@.subrange(0, i as int),
            decreases self.rgb@.len() - i,
        {
            r.push(self.rgb[i]);
            i = i + 1;
            assert(r@ =~= self.rgb@.subrange(0, i as int));
        }
        assert(self.rgb@.subrange(0, i as int) =~= self.rgb@);
        r
    }
}

/// Encoding pixels into a QOI stream whose header carries this image's
/// dimensions.
pub trait QoiEncode {
    spec fn header_width(&self) -> u32;

    spec fn header_height(&self) -> u32;

    /// Appends the encoded stream of `pixels` to `buffer` and returns the
    /// number of bytes appended.
    fn encode(&self, pixels: &Vec<u8>, buffer: &mut Vec<u8>) -> (written: usize)
        ensures
            final(buffer)@ == old(buffer)@ + encoded(pixels@, self.header_width(), self.header_height()),
            written == encoded(pixels@, self.header_width(), self.header_height()).len(),
    ;
}

/// Decoding a QOI stream into a file record.
pub trait QoiDecode {
    /// Decodes the whole stream `buffer` into a record at `path`.
    fn decode(&self, buffer: &[u8], path: String) -> (r: Result<QoiFile, QoiError>)
        ensures
            decode_result(r, decode_stream(buffer@), buffer@, path),
    ;
}

impl QoiEncode for Data {
    open spec fn header_width(&self) -> u32 {
        self.width
    }

    open spec fn header_height(&self) -> u32 {
        self.height
    }

    fn encode(&self, pixels: &Vec<u8>, buffer: &mut Vec<u8>) -> (written: usize) {
        encode_pixels(pixels.as_slice(), self.width, self.height, buffer)
    }
}

impl QoiDecode for Data {
    fn decode(&self, buffer: &[u8], path: String) -> (r: Result<QoiFile, QoiError>) {
        decode_bytes(buffer, path)
    }
}

} // verus!
