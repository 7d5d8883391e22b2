use vstd::prelude::*;

verus! {

/// Number of channels written in the header (RGB).
pub const CHANNELS: u8 = 3;

/// Colorspace tag written in the header.
pub const COLORSPACE: u8 = 1;

/// Size of the fixed header in bytes.
pub const QOI_HEADER_SIZE: usize = 14;

/// Size of the end marker in bytes.
pub const QOI_END_MARK_SIZE: usize = 8;

/// Number of slots in the color cache.
pub const CACHE_SIZE: usize = 64;

/// Longest run a single RUN chunk can carry.
pub const MAX_RUN: u8 = 62;

// Tags.
pub const QOI_OP_INDEX: u8 = 0x00;
pub const QOI_OP_DIFF: u8 = 0x40;
pub const QOI_OP_LUMA: u8 = 0x80;
pub const QOI_OP_RUN: u8 = 0xc0;
pub const QOI_OP_RGB: u8 = 0xfe;
pub const QOI_OP_RGBA: u8 = 0xff;

// Masks.
pub const QOI_2BIT_TAG_MASK: u8 = 0xc0;
pub const QOI_6BIT_VALUE_MASK: u8 = 0x3f;

/// The four magic bytes `qoif` that open every stream.
pub open spec fn qoi_magic() -> Seq<u8> {
    seq![0x71u8, 0x6fu8, 0x69u8, 0x66u8]
}

/// The eight bytes that close every stream: seven zeros, then a one.
pub open spec fn qoi_end_mark() -> Seq<u8> {
    seq![0u8, 0u8, 0u8, 0u8, 0u8, 0u8, 0u8, 1u8]
}

} // verus!
