use vstd::prelude::*;
use crate::format::{DecodedImage, rgb_bytes};
use crate::pixel::Pixel;

verus! {

/// A decoded image: its header fields and its pixels in row-major order.
#[derive(Debug, Clone)]
pub struct QoiFile {
    pub path: String,
    pub size: usize,
    pub width: u32,
    pub height: u32,
    pub channels: u8,
    pub color_space: u8,
    pub pixels: Vec<Pixel>,
}

/// The file record holds the decoded image `d`.
pub open spec fn holds_image(f: QoiFile, d: DecodedImage) -> bool {
    &&& f.width == d.width
    &&& f.height == d.height
    &&& f.channels == d.channels
    &&& f.color_space == d.color_space
    &&& f.pixels@ == d.pixels
}

impl QoiFile {
    /// Sets `size` to the byte size of the image: width times height times
    /// channels.
    pub fn set_size(&mut self)
        requires
            old(self).width * old(self).height * old(self).channels <= usize::MAX,
        ensures
            final(self).size == old(self).width * old(self).height * old(self).channels,
            *final(self) == (QoiFile { size: final(self).size, ..*old(self) }),
    {
        let w = self.width as usize;
        let h = self.height as usize;
        let c = self.channels as usize;
        if c == 0 {
            assert(w * h * c == 0) by (nonlinear_arith)
                requires
                    c == 0,
            ;
            self.size = 0;
        } else {
            assert(w * h <= w * h * c) by (nonlinear_arith)
                requires
                    c >= 1,
            ;
            self.size = w * h * c;
        }
    }

    /// Appends the red, green and blue bytes of each pixel in turn to
    /// `px_buffer`.
    pub fn parse_pixels_to_vec(&self, px_buffer: &mut Vec<u8>)
        ensures
            final(px_buffer)@ == old(px_buffer)@ + rgb_bytes(self.pixels@),
    {
        let ghost start = px_buffer@;
        let mut i: usize = 0;
        while i < self.pixels.len()
            invariant
                i <= self.pixels@.len(),
                px_buffer@ == start + rgb_bytes(self.pixels@.subrange(0, i as int)),
            decreases self.pixels@.len() - i,
        {
            let bytes = self.pixels[i].to_bytes();
            px_buffer.push(bytes[0]);
            px_buffer.push(bytes[1]);
            px_buffer.push(bytes[2]);
            i = i + 1;
            assert(px_buffer@ =~= start + rgb_bytes(self.pixels@.subrange(0, i as int)));
        }
        assert(self.pixels@.subrange(0, i as int) =~= self.pixels@);
    }
}

} // verus!
