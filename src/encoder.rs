//! The encoder: a flat RGB buffer to a QOI byte stream.
use vstd::prelude::*;
use crate::consts::{CHANNELS, COLORSPACE, CACHE_SIZE, MAX_RUN, QOI_OP_DIFF, QOI_OP_INDEX, QOI_OP_LUMA, QOI_OP_RGB, QOI_OP_RUN};
use crate::format::{EncState, be_bytes, delta_chunk, encode_chunks, encoded, header, initial_cache, initial_enc_state, pixels_of, step_bytes, step_state};
use crate::pixel::{Pixel, Zero};

verus! {

/// Appends the DIFF, LUMA or RGB chunk for `p` after `prev`.
fn write_delta_chunk(buffer: &mut Vec<u8>, p: Pixel, prev: Pixel)
    ensures
        final(buffer)@ == old(buffer)@ + delta_chunk(p, prev),
{
    let dr: i16 = p.r as i16 - prev.r as i16;
    let dg: i16 = p.g as i16 - prev.g as i16;
    let db: i16 = p.b as i16 - prev.b as i16;
    if dr > -3 && dr < 2 && dg > -3 && dg < 2 && db > -3 && db < 2 {
        let chunk: u8 = QOI_OP_DIFF | ((dr + 2) as u8) << 4u8 | ((dg + 2) as u8) << 2u8 | (db + 2) as u8;
        buffer.push(chunk);
    } else {
        let dr_dg: i16 = dr - dg;
        let db_dg: i16 = db - dg;
        if dg > -33 && dg < 32 && dr_dg > -9 && dr_dg < 8 && db_dg > -9 && db_dg < 8 {
            buffer.push(QOI_OP_LUMA | (dg + 32) as u8);
            buffer.push(((dr_dg + 8) as u8) << 4u8 | (db_dg + 8) as u8);
        } else {
            buffer.push(QOI_OP_RGB);
            buffer.push(p.r);
            buffer.push(p.g);
            buffer.push(p.b);
        }
    }
}

/// Appends `x` as four big-endian bytes.
fn write_be_u32(buffer: &mut Vec<u8>, x: u32)
    ensures
        final(buffer)@ == old(buffer)@ + be_bytes(x),
{
    buffer.push((x >> 24u32) as u8);
    buffer.push((x >> 16u32) as u8);
    buffer.push((x >> 8u32) as u8);
    buffer.push(x as u8);
}

/// Encodes the pixels of the flat RGB buffer `pixels` as a QOI stream with
/// the given dimensions in its header, appends it to `buffer` and returns the
/// number of bytes appended.
pub fn encode_pixels(pixels: &[u8], width: u32, height: u32, buffer: &mut Vec<u8>) -> (written: usize)
    ensures
        final(buffer)@ == old(buffer)@ + encoded(pixels@, width, height),
        written == encoded(pixels@, width, height).len(),
{
    let ghost start = buffer@;
    let start_len = buffer.len();
    buffer.push(0x71u8);
    buffer.push(0x6fu8);
    buffer.push(0x69u8);
    buffer.push(0x66u8);
    write_be_u32(buffer, width);
    write_be_u32(buffer, height);
    buffer.push(CHANNELS);
    buffer.push(COLORSPACE);
    assert(buffer@ =~= start + header(width, height));

    let n: usize = pixels.len() / 3;
    let ghost px = pixels_of(pixels@);
    assert(3 * n <= pixels.len());
    let zero = Pixel::zero();
    let mut prev: Pixel = zero;
    let mut run: u8 = 0;
    let mut cache: [Pixel; 64] = [zero; 64];
    assert(cache@ =~= initial_cache());
    assert(px.subrange(0, n as int) =~= px);
    let mut i: usize = 0;
    while i < n
        invariant
            n == px.len(),
            n == pixels@.len() / 3,
            3 * n <= pixels.len(),
            px == pixels_of(pixels@),
            i <= n,
            run < 62,
            cache@.len() == 64,
            buffer@ + encode_chunks(px.subrange(i as int, n as int), EncState { prev, run: run as nat, cache: cache@ })
                == start + header(width, height) + encode_chunks(px, initial_enc_state()),
        decreases n - i,
    {
        let p = Pixel { r: pixels[3 * i], g: pixels[3 * i + 1], b: pixels[3 * i + 2], a: 255 };
        let ghost st = EncState { prev, run: run as nat, cache: cache@ };
        let ghost rest = px.subrange(i as int, n as int);
        proof {
            assert(rest[0] == p);
            assert(rest.drop_first() =~= px.subrange(i + 1, n as int));
        }
        let ghost bytes = step_bytes(st, p, i + 1 == n);
        let ghost next = step_state(st, p, i + 1 == n);
        let ghost before = buffer@;
        if p == prev {
            run = run + 1;
            if run == MAX_RUN || i + 1 == n {
                buffer.push(QOI_OP_RUN | (run - 1));
                run = 0;
            }
        } else {
            if run > 0 {
                buffer.push(QOI_OP_RUN | (run - 1));
                run = 0;
            }
            let index: usize = p.hash() % CACHE_SIZE;
            if cache[index] == p {
                let i: u8 = index as u8;
                assert(QOI_OP_INDEX | i == i) by (bit_vector);
                buffer.push(QOI_OP_INDEX | i);
            } else {
                cache[index] = p;
                write_delta_chunk(buffer, p, prev);
            }
            prev = p;
        }
        assert(buffer@ =~= before + bytes);
        assert(cache@ =~= next.cache);
        i = i + 1;
    }
    let ghost before = buffer@;
    assert(px.subrange(n as int, n as int) =~= Seq::<Pixel>::empty());
    if run > 0 {
        buffer.push(QOI_OP_RUN | (run - 1));
    }
    assert(buffer@ =~= start + header(width, height) + encode_chunks(px, initial_enc_state()));
    buffer.push(0u8);
    buffer.push(0u8);
    buffer.push(0u8);
    buffer.push(0u8);
    buffer.push(0u8);
    buffer.push(0u8);
    buffer.push(0u8);
    buffer.push(1u8);
    assert(buffer@ =~= start + encoded(pixels@, width, height));
    buffer.len() - start_len
}

} // verus!
