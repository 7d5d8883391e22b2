//! The decoder: a QOI byte stream back to a file record.
use vstd::prelude::*;
use crate::consts::{CACHE_SIZE, QOI_END_MARK_SIZE, QOI_HEADER_SIZE, QOI_2BIT_TAG_MASK, QOI_6BIT_VALUE_MASK, QOI_OP_RGB, QOI_OP_RGBA};
use crate::format::{
    DecState, DecodeOutcome, wrap, chunk_pixel, chunk_pixels, chunk_size, chunk_state,
    decode_chunks, decode_stream, initial_cache, initial_dec_state, is_run_tag, lemma_prepend_assoc, prepend,
};
use crate::pixel::{Pixel, Zero};
use crate::qoi_error::QoiError;
use crate::qoi_file::{QoiFile, holds_image};

verus! {

/// The length of the chunk whose first byte is `b`.
fn chunk_size_of(b: u8) -> (r: usize)
    ensures
        r == chunk_size(b),
{
    if b == QOI_OP_RGB {
        4
    } else if b == QOI_OP_RGBA {
        5
    } else if b & QOI_2BIT_TAG_MASK == 0x80 {
        2
    } else {
        1
    }
}

/// `x + d`, modulo 256.
fn add_wrapping(x: u8, d: i8) -> (r: u8)
    ensures
        r == wrap(x + d),
{
    x.wrapping_add_signed(d)
}

/// The pixel of the chunk (other than RUN) at `pos`.
fn read_pixel(bytes: &[u8], pos: usize, end: usize, prev: Pixel, cache: &[Pixel; 64]) -> (r: Pixel)
    requires
        pos < end <= bytes@.len(),
        pos + chunk_size(bytes@[pos as int]) <= end,
        !is_run_tag(bytes@[pos as int]),
    ensures
        r == chunk_pixel(bytes@.subrange(pos as int, end as int), DecState { prev, cache: cache@ }),
{
    let b0 = bytes[pos];
    assert(b0 & 0x3f < 64 && (b0 >> 4u8) & 3 < 4 && (b0 >> 2u8) & 3 < 4 && b0 & 3 < 4) by (bit_vector);
    assert(b0 & 0xc0 == 0x00 || b0 & 0xc0 == 0x40 || b0 & 0xc0 == 0x80 || b0 & 0xc0 == 0xc0) by (bit_vector);
    if b0 == QOI_OP_RGB {
        Pixel { r: bytes[pos + 1], g: bytes[pos + 2], b: bytes[pos + 3], a: 255 }
    } else if b0 == QOI_OP_RGBA {
        Pixel { r: bytes[pos + 1], g: bytes[pos + 2], b: bytes[pos + 3], a: bytes[pos + 4] }
    } else if b0 & QOI_2BIT_TAG_MASK == 0x00 {
        cache[(b0 & QOI_6BIT_VALUE_MASK) as usize]
    } else if b0 & QOI_2BIT_TAG_MASK == 0x40 {
        let dr: i8 = ((b0 >> 4u8) & 3) as i8 - 2;
        let dg: i8 = ((b0 >> 2u8) & 3) as i8 - 2;
        let db: i8 = (b0 & 3) as i8 - 2;
        Pixel {
            r: add_wrapping(prev.r, dr),
            g: add_wrapping(prev.g, dg),
            b: add_wrapping(prev.b, db),
            a: prev.a,
        }
    } else {
        let b1 = bytes[pos + 1];
        assert(b1 >> 4u8 < 16 && b1 & 0x0f < 16) by (bit_vector);
        let dg: i8 = (b0 & QOI_6BIT_VALUE_MASK) as i8 - 32;
        let dr: i8 = dg + (b1 >> 4u8) as i8 - 8;
        let db: i8 = dg + (b1 & 0x0f) as i8 - 8;
        Pixel {
            r: add_wrapping(prev.r, dr),
            g: add_wrapping(prev.g, dg),
            b: add_wrapping(prev.b, db),
            a: prev.a,
        }
    }
}

/// A copy of `bytes[from..to]`.
fn copy_range(bytes: &[u8], from: usize, to: usize) -> (r: Vec<u8>)
    requires
        from <= to <= bytes@.len(),
    ensures
        r@ == bytes@.subrange(from as int, to as int),
{
    let mut r: Vec<u8> = Vec::new();
    let mut i: usize = from;
    while i < to
        invariant
            from <= i <= to <= bytes@.len(),
            r@ == bytes@.subrange(from as int, i as int),
        decreases to - i,
    {
        r.push(bytes[i]);
        i = i + 1;
        assert(r@ =~= bytes@.subrange(from as int, i as int));
    }
    r
}

/// Reads one chunk that the region holds whole, starting at `pos`: appends
/// its pixels and moves the decoder state past it.
fn decode_chunk(
    bytes: &[u8],
    pos: usize,
    end: usize,
    prev: &mut Pixel,
    cache: &mut [Pixel; 64],
    pixels: &mut Vec<Pixel>,
)
    requires
        pos < end <= bytes@.len(),
        pos + chunk_size(bytes@[pos as int]) <= end,
    ensures
        final(pixels)@ == old(pixels)@ + chunk_pixels(
            bytes@.subrange(pos as int, end as int),
            (DecState { prev: *old(prev), cache: old(cache)@ }),
        ),
        (DecState { prev: *final(prev), cache: final(cache)@ }) == chunk_state(
            bytes@.subrange(pos as int, end as int),
            (DecState { prev: *old(prev), cache: old(cache)@ }),
        ),
{
    let ghost c = bytes@.subrange(pos as int, end as int);
    let ghost st = DecState { prev: *prev, cache: cache@ };
    let ghost before = pixels@;
    let b0 = bytes[pos];
    assert(c[0] == b0);
    if b0 & QOI_2BIT_TAG_MASK == 0xc0 && b0 != QOI_OP_RGB && b0 != QOI_OP_RGBA {
        assert(b0 & 0x3f < 64) by (bit_vector);
        let n: u8 = (b0 & QOI_6BIT_VALUE_MASK) + 1;
        let p = *prev;
        let mut k: u8 = 0;
        while k < n
            invariant
                k <= n,
                pixels@ == before + Seq::new(k as nat, |i: int| p),
            decreases n - k,
        {
            pixels.push(p);
            k = k + 1;
            assert(pixels@ =~= before + Seq::new(k as nat, |i: int| p));
        }
        assert(chunk_pixels(c, st) =~= Seq::new(n as nat, |i: int| p));
    } else {
        let p = read_pixel(bytes, pos, end, *prev, cache);
        pixels.push(p);
        if b0 & QOI_2BIT_TAG_MASK != 0x00 {
            let index: usize = p.hash() % CACHE_SIZE;
            cache[index] = p;
        }
        *prev = p;
        assert(pixels@ =~= before + chunk_pixels(c, st));
        assert(cache@ =~= chunk_state(c, st).cache);
    }
}

/// Decoding a region whose first chunk it holds whole: that chunk's pixels,
/// then the rest decoded from the state after it.
proof fn lemma_decode_unfold(c: Seq<u8>, st: DecState)
    requires
        c.len() > 0,
        chunk_size(c[0]) <= c.len(),
    ensures
        decode_chunks(c, st) == prepend(
            chunk_pixels(c, st),
            decode_chunks(c.subrange(chunk_size(c[0]) as int, c.len() as int), chunk_state(c, st)),
        ),
{
}

/// Decodes the chunks in `bytes[14..end]`, or `None` where the last chunk
/// runs past `end`.
fn decode_region(bytes: &[u8], end: usize) -> (r: Option<Vec<Pixel>>)
    requires
        14 <= end <= bytes@.len(),
    ensures
        match r {
            Some(v) => decode_chunks(bytes@.subrange(14, end as int), initial_dec_state()) == Some(v@),
            None => decode_chunks(bytes@.subrange(14, end as int), initial_dec_state()) is None,
        },
{
    let ghost region = bytes@.subrange(14, end as int);
    let zero = Pixel::zero();
    let mut prev: Pixel = zero;
    let mut cache: [Pixel; 64] = [zero; 64];
    assert(cache@ =~= initial_cache());
    let mut pixels: Vec<Pixel> = Vec::new();
    let mut pos: usize = QOI_HEADER_SIZE;
    assert(pixels@ + Seq::<Pixel>::empty() =~= Seq::<Pixel>::empty());
    while pos < end
        invariant
            14 <= pos <= end <= bytes@.len(),
            region == bytes@.subrange(14, end as int),
            cache@.len() == 64,
            decode_chunks(region, initial_dec_state())
                == prepend(pixels@, decode_chunks(bytes@.subrange(pos as int, end as int), DecState { prev, cache: cache@ })),
        decreases end - pos,
    {
        let ghost c = bytes@.subrange(pos as int, end as int);
        let ghost st = DecState { prev, cache: cache@ };
        let ghost before = pixels@;
        let size = chunk_size_of(bytes[pos]);
        if size > end - pos {
            assert(c[0] == bytes@[pos as int] && c.len() == end - pos);
            assert(decode_chunks(c, st) is None);
            return None;
        }
        decode_chunk(bytes, pos, end, &mut prev, &mut cache, &mut pixels);
        proof {
            lemma_decode_unfold(c, st);
            assert(c.subrange(size as int, c.len() as int) =~= bytes@.subrange(pos + size, end as int));
            lemma_prepend_assoc(before, chunk_pixels(c, st), decode_chunks(bytes@.subrange(pos + size, end as int), chunk_state(c, st)));
        }
        pos = pos + size;
    }
    assert(bytes@.subrange(pos as int, end as int) =~= Seq::<u8>::empty());
    assert(pixels@ + Seq::<Pixel>::empty() =~= pixels@);
    Some(pixels)
}

/// `r` is what decoding `bytes` into a record at `path` returns when the
/// stream's outcome is `o`: the image, or the error of that kind with the
/// bytes found in place of the magic or of the end marker.
pub open spec fn decode_result(r: Result<QoiFile, QoiError>, o: DecodeOutcome, bytes: Seq<u8>, path: String) -> bool {
    match o {
        DecodeOutcome::Decoded(d) => r is Ok && holds_image(r->Ok_0, d) && r->Ok_0.path == path && r->Ok_0.size == 0,
        DecodeOutcome::InvalidHeader => r is Err && r->Err_0 is InvalidHeader
            && r->Err_0->InvalidHeader_0@ == bytes.subrange(0, 4),
        DecodeOutcome::InvalidEndMark => r is Err && r->Err_0 is InvalidEndMark
            && r->Err_0->InvalidEndMark_0@ == bytes.subrange(bytes.len() - 8, bytes.len() as int),
        DecodeOutcome::Truncated => r is Err && r->Err_0 is TruncatedStream,
    }
}

/// Decodes a whole QOI stream into a file record at `path`, whose size is
/// left at zero.
pub fn decode_bytes(bytes: &[u8], path: String) -> (r: Result<QoiFile, QoiError>)
    ensures
        decode_result(r, decode_stream(bytes@), bytes@, path),
{
    let len = bytes.len();
    if len < QOI_HEADER_SIZE {
        return Err(QoiError::TruncatedStream);
    }
    if !(bytes[0] == 0x71u8 && bytes[1] == 0x6fu8 && bytes[2] == 0x69u8 && bytes[3] == 0x66u8) {
        proof {
            if bytes@.subrange(0, 4) == crate::consts::qoi_magic() {
                assert(bytes@.subrange(0, 4)[0] == bytes@[0]);
                assert(bytes@.subrange(0, 4)[1] == bytes@[1]);
                assert(bytes@.subrange(0, 4)[2] == bytes@[2]);
                assert(bytes@.subrange(0, 4)[3] == bytes@[3]);
            }
        }
        return Err(QoiError::InvalidHeader(copy_range(bytes, 0, 4)));
    }
    assert(bytes@.subrange(0, 4) =~= crate::consts::qoi_magic());
    let width: u32 = (bytes[4] as u32) << 24u32 | (bytes[5] as u32) << 16u32 | (bytes[6] as u32) << 8u32 | bytes[7] as u32;
    let height: u32 = (bytes[8] as u32) << 24u32 | (bytes[9] as u32) << 16u32 | (bytes[10] as u32) << 8u32 | bytes[11] as u32;
    let channels = bytes[12];
    let color_space = bytes[13];
    if len < QOI_HEADER_SIZE + QOI_END_MARK_SIZE {
        return Err(QoiError::TruncatedStream);
    }
    let end: usize = len - QOI_END_MARK_SIZE;
    let pixels = match decode_region(bytes, end) {
        Some(pixels) => pixels,
        None => {
            return Err(QoiError::TruncatedStream);
        },
    };
    if !(bytes[end] == 0u8 && bytes[end + 1] == 0u8 && bytes[end + 2] == 0u8 && bytes[end + 3] == 0u8
        && bytes[end + 4] == 0u8 && bytes[end + 5] == 0u8 && bytes[end + 6] == 0u8 && bytes[end + 7] == 1u8) {
        proof {
            let tail = bytes@.subrange(end as int, len as int);
            if tail == crate::consts::qoi_end_mark() {
                assert(tail[0] == bytes@[end as int]);
                assert(tail[1] == bytes@[end + 1]);
                assert(tail[2] == bytes@[end + 2]);
                assert(tail[3] == bytes@[end + 3]);
                assert(tail[4] == bytes@[end + 4]);
                assert(tail[5] == bytes@[end + 5]);
                assert(tail[6] == bytes@[end + 6]);
                assert(tail[7] == bytes@[end + 7]);
            }
        }
        return Err(QoiError::InvalidEndMark(copy_range(bytes, end, len)));
    }
    assert(bytes@.subrange(end as int, len as int) =~= crate::consts::qoi_end_mark());
    Ok(QoiFile { path, size: 0, width, height, channels, color_space, pixels })
}

} // verus!
