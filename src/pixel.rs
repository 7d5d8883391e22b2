use vstd::prelude::*;

verus! {

/// One RGBA pixel with 8-bit channels.
#[derive(Debug, Clone, Copy, PartialEq, Eq, Structural)]
pub struct Pixel {
    pub r: u8,
    pub g: u8,
    pub b: u8,
    pub a: u8,
}

/// The canonical starting pixel: opaque black.
pub open spec fn zero_pixel() -> Pixel {
    Pixel { r: 0, g: 0, b: 0, a: 255 }
}

/// The cache hash of a pixel, before reduction to a slot.
pub open spec fn hash_of(p: Pixel) -> int {
    p.r as int * 3 + p.g as int * 5 + p.b as int * 7
}

/// The cache slot of a pixel, in `0..64`.
pub open spec fn slot_of(p: Pixel) -> int {
    hash_of(p) % 64
}

impl Pixel {
    /// The color channels, in order, without alpha.
    pub fn to_bytes(&self) -> (r: [u8; 3])
        ensures
            r@ == seq![self.r, self.g, self.b],
    {
        let r = [self.r, self.g, self.b];
        assert(r@ =~= seq![self.r, self.g, self.b]);
        r
    }

    /// The cache hash of the pixel (alpha is not part of it).
    pub fn hash(&self) -> (r: usize)
        ensures
            r == hash_of(*self),
    {
        self.r as usize * 3 + self.g as usize * 5 + self.b as usize * 7
    }
}

/// Types with a canonical starting pixel.
pub trait Zero {
    fn zero() -> (r: Pixel)
        ensures
            r == zero_pixel(),
    ;
}

impl Zero for Pixel {
    fn zero() -> (r: Pixel) {
        Pixel { r: 0, g: 0, b: 0, a: 255 }
    }
}

} // verus!
