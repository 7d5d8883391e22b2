//! The QOI wire format as spec functions: what the encoder emits for a pixel
//! sequence and what the decoder reads from a byte stream.
use vstd::prelude::*;
use crate::consts::{CHANNELS, COLORSPACE, qoi_magic, qoi_end_mark};
use crate::pixel::{Pixel, zero_pixel, slot_of};

verus! {

/// The color cache at the start of an encode or decode: 64 zero pixels.
pub open spec fn initial_cache() -> Seq<Pixel> {
    Seq::new(64, |i: int| zero_pixel())
}

/// A value reduced modulo 256 into a byte.
pub open spec fn wrap(x: int) -> u8 {
    (x % 256) as u8
}

/// The pixels of a flat RGB buffer, three bytes each, all opaque.
/// A trailing partial pixel is not part of the image.
pub open spec fn pixels_of(buf: Seq<u8>) -> Seq<Pixel> {
    Seq::new(
        buf.len() / 3,
        |i: int| Pixel { r: buf[3 * i], g: buf[3 * i + 1], b: buf[3 * i + 2], a: 255 },
    )
}

/// The color channels of each pixel in turn, alpha dropped.
pub open spec fn rgb_bytes(px: Seq<Pixel>) -> Seq<u8> {
    Seq::new(
        3 * px.len(),
        |i: int|
            if i % 3 == 0 {
                px[i / 3].r
            } else if i % 3 == 1 {
                px[i / 3].g
            } else {
                px[i / 3].b
            },
    )
}

/// A `u32` as four big-endian bytes.
pub open spec fn be_bytes(x: u32) -> Seq<u8> {
    seq![(x >> 24) as u8, (x >> 16) as u8, (x >> 8) as u8, x as u8]
}

/// Four big-endian bytes read as a `u32`.
pub open spec fn be_u32(b0: u8, b1: u8, b2: u8, b3: u8) -> u32 {
    (b0 as u32) << 24 | (b1 as u32) << 16 | (b2 as u32) << 8 | b3 as u32
}

/// The 14-byte header: magic, width, height, channel count, colorspace.
pub open spec fn header(width: u32, height: u32) -> Seq<u8> {
    qoi_magic() + be_bytes(width) + be_bytes(height) + seq![CHANNELS, COLORSPACE]
}

// ---------------------------------------------------------------------------
// Encoder

/// Encoder state between two pixels.
pub struct EncState {
    pub prev: Pixel,
    pub run: nat,
    pub cache: Seq<Pixel>,
}

pub open spec fn initial_enc_state() -> EncState {
    EncState { prev: zero_pixel(), run: 0, cache: initial_cache() }
}

/// A RUN chunk for `n` repeats, `1 <= n <= 62`: the tag `11` and `n - 1`.
pub open spec fn run_chunk(n: nat) -> Seq<u8> {
    seq![(0xc0u8 | (n - 1) as u8)]
}

/// Every channel difference fits the DIFF range `-2..=1`.
pub open spec fn fits_diff(dr: int, dg: int, db: int) -> bool {
    -2 <= dr <= 1 && -2 <= dg <= 1 && -2 <= db <= 1
}

/// The green difference fits `-32..=31` and the red and blue differences,
/// relative to green, fit `-8..=7`.
pub open spec fn fits_luma(dr: int, dg: int, db: int) -> bool {
    -32 <= dg <= 31 && -8 <= dr - dg <= 7 && -8 <= db - dg <= 7
}

pub open spec fn diff_chunk(dr: int, dg: int, db: int) -> Seq<u8> {
    seq![0x40u8 | ((dr + 2) as u8) << 4u8 | ((dg + 2) as u8) << 2u8 | (db + 2) as u8]
}

pub open spec fn luma_chunk(dr: int, dg: int, db: int) -> Seq<u8> {
    seq![0x80u8 | (dg + 32) as u8, ((dr - dg + 8) as u8) << 4u8 | (db - dg + 8) as u8]
}

/// The chunk for a pixel that differs from the previous one: INDEX on a
/// cache hit, else the first of DIFF, LUMA and RGB that fits. Differences
/// are taken as plain integers, without wrapping.
pub open spec fn pixel_chunk(p: Pixel, prev: Pixel, cache: Seq<Pixel>) -> Seq<u8> {
    if cache[slot_of(p)] == p {
        seq![slot_of(p) as u8]
    } else {
        delta_chunk(p, prev)
    }
}

/// The chunk for pixel `p` after `prev` where the cache does not hold `p`.
pub open spec fn delta_chunk(p: Pixel, prev: Pixel) -> Seq<u8> {
    let dr = p.r - prev.r;
    let dg = p.g - prev.g;
    let db = p.b - prev.b;
    if fits_diff(dr, dg, db) {
        diff_chunk(dr, dg, db)
    } else if fits_luma(dr, dg, db) {
        luma_chunk(dr, dg, db)
    } else {
        seq![0xfeu8, p.r, p.g, p.b]
    }
}

/// The bytes that the encoder emits for pixel `p`; `last` is set on the
/// image's final pixel.
pub open spec fn step_bytes(st: EncState, p: Pixel, last: bool) -> Seq<u8> {
    if p == st.prev {
        if st.run + 1 == 62 || last {
            run_chunk(st.run + 1)
        } else {
            seq![]
        }
    } else {
        let flush = if st.run > 0 { run_chunk(st.run) } else { seq![] };
        flush + pixel_chunk(p, st.prev, st.cache)
    }
}

/// The encoder state after pixel `p`.
pub open spec fn step_state(st: EncState, p: Pixel, last: bool) -> EncState {
    if p == st.prev {
        if st.run + 1 == 62 || last {
            EncState { run: 0, ..st }
        } else {
            EncState { run: st.run + 1, ..st }
        }
    } else if st.cache[slot_of(p)] == p {
        EncState { prev: p, run: 0, cache: st.cache }
    } else {
        EncState { prev: p, run: 0, cache: st.cache.update(slot_of(p), p) }
    }
}

/// The chunk stream for the pixels `px`, starting from state `st`; a run
/// still pending after the last pixel is flushed.
pub open spec fn encode_chunks(px: Seq<Pixel>, st: EncState) -> Seq<u8>
    decreases px.len(),
{
    if px.len() == 0 {
        if st.run > 0 {
            run_chunk(st.run)
        } else {
            seq![]
        }
    } else {
        let last = px.len() == 1;
        step_bytes(st, px[0], last) + encode_chunks(px.drop_first(), step_state(st, px[0], last))
    }
}

/// The whole encoded stream of an RGB buffer: header, chunks, end marker.
pub open spec fn encoded(buf: Seq<u8>, width: u32, height: u32) -> Seq<u8> {
    header(width, height) + encode_chunks(pixels_of(buf), initial_enc_state()) + qoi_end_mark()
}

// ---------------------------------------------------------------------------
// Decoder

/// Decoder state between two chunks.
pub struct DecState {
    pub prev: Pixel,
    pub cache: Seq<Pixel>,
}

pub open spec fn initial_dec_state() -> DecState {
    DecState { prev: zero_pixel(), cache: initial_cache() }
}

pub open spec fn is_run_tag(b: u8) -> bool {
    b & 0xc0 == 0xc0 && b != 0xfe && b != 0xff
}

/// The length in bytes of the chunk whose first byte is `b`.
pub open spec fn chunk_size(b: u8) -> nat {
    if b == 0xfe {
        4
    } else if b == 0xff {
        5
    } else if b & 0xc0 == 0x80 {
        2
    } else {
        1
    }
}

/// The pixel that a chunk other than RUN stands for, at the start of `c`.
pub open spec fn chunk_pixel(c: Seq<u8>, st: DecState) -> Pixel {
    let b0 = c[0];
    let prev = st.prev;
    if b0 == 0xfe {
        Pixel { r: c[1], g: c[2], b: c[3], a: 255 }
    } else if b0 == 0xff {
        Pixel { r: c[1], g: c[2], b: c[3], a: c[4] }
    } else if b0 & 0xc0 == 0x00 {
        st.cache[(b0 & 0x3f) as int]
    } else if b0 & 0xc0 == 0x40 {
        let dr = ((b0 >> 4u8) & 3) as int - 2;
        let dg = ((b0 >> 2u8) & 3) as int - 2;
        let db = (b0 & 3) as int - 2;
        Pixel { r: wrap(prev.r + dr), g: wrap(prev.g + dg), b: wrap(prev.b + db), a: prev.a }
    } else {
        let dg = (b0 & 0x3f) as int - 32;
        let dr = dg + (c[1] >> 4u8) as int - 8;
        let db = dg + (c[1] & 0x0f) as int - 8;
        Pixel { r: wrap(prev.r + dr), g: wrap(prev.g + dg), b: wrap(prev.b + db), a: prev.a }
    }
}

/// The pixels that the chunk at the start of `c` stands for.
pub open spec fn chunk_pixels(c: Seq<u8>, st: DecState) -> Seq<Pixel> {
    if is_run_tag(c[0]) {
        Seq::new(((c[0] & 0x3f) + 1) as nat, |i: int| st.prev)
    } else {
        seq![chunk_pixel(c, st)]
    }
}

/// The decoder state after the chunk at the start of `c`. RUN leaves it as it
/// is, INDEX only moves `prev`, the others also store the pixel in the cache.
pub open spec fn chunk_state(c: Seq<u8>, st: DecState) -> DecState {
    if is_run_tag(c[0]) {
        st
    } else if c[0] & 0xc0 == 0x00 {
        DecState { prev: chunk_pixel(c, st), cache: st.cache }
    } else {
        let p = chunk_pixel(c, st);
        DecState { prev: p, cache: st.cache.update(slot_of(p), p) }
    }
}

/// The pixels of a whole chunk region, or `None` where its last chunk runs
/// past the region's end.
pub open spec fn decode_chunks(c: Seq<u8>, st: DecState) -> Option<Seq<Pixel>>
    decreases c.len(),
{
    if c.len() == 0 {
        Some(seq![])
    } else if chunk_size(c[0]) > c.len() {
        None
    } else {
        match decode_chunks(c.subrange(chunk_size(c[0]) as int, c.len() as int), chunk_state(c, st)) {
            Some(rest) => Some(chunk_pixels(c, st) + rest),
            None => None,
        }
    }
}

/// `a` in front of the pixels of `o`, if any.
pub open spec fn prepend(a: Seq<Pixel>, o: Option<Seq<Pixel>>) -> Option<Seq<Pixel>> {
    match o {
        Some(r) => Some(a + r),
        None => None,
    }
}

/// Putting `a` and then `b` in front is putting `a + b` in front.
pub proof fn lemma_prepend_assoc(a: Seq<Pixel>, b: Seq<Pixel>, o: Option<Seq<Pixel>>)
    ensures
        prepend(a, prepend(b, o)) == prepend(a + b, o),
{
    if let Some(r) = o {
        assert(a + (b + r) =~= (a + b) + r);
    }
}

/// What a successful decode yields.
pub struct DecodedImage {
    pub width: u32,
    pub height: u32,
    pub channels: u8,
    pub color_space: u8,
    pub pixels: Seq<Pixel>,
}

/// The outcome of decoding a whole stream.
pub enum DecodeOutcome {
    Decoded(DecodedImage),
    InvalidHeader,
    InvalidEndMark,
    Truncated,
}

/// Decoding a stream: a short header is a truncation; a wrong magic is an
/// invalid header; the chunk region is what lies between the header and the
/// last eight bytes, and a chunk that overruns it is a truncation; the last
/// eight bytes must be the end marker.
pub open spec fn decode_stream(s: Seq<u8>) -> DecodeOutcome {
    if s.len() < 14 {
        DecodeOutcome::Truncated
    } else if s.subrange(0, 4) != qoi_magic() {
        DecodeOutcome::InvalidHeader
    } else if s.len() < 22 {
        DecodeOutcome::Truncated
    } else {
        match decode_chunks(s.subrange(14, s.len() - 8), initial_dec_state()) {
            None => DecodeOutcome::Truncated,
            Some(px) => if s.subrange(s.len() - 8, s.len() as int) != qoi_end_mark() {
                DecodeOutcome::InvalidEndMark
            } else {
                DecodeOutcome::Decoded(
                    DecodedImage {
                        width: be_u32(s[4], s[5], s[6], s[7]),
                        height: be_u32(s[8], s[9], s[10], s[11]),
                        channels: s[12],
                        color_space: s[13],
                        pixels: px,
                    },
                )
            },
        }
    }
}

} // verus!
