//! Laws relating the encoder and the decoder.
use vstd::prelude::*;
use crate::consts::{qoi_magic, qoi_end_mark};
use crate::format::{
    DecState, DecodeOutcome, DecodedImage, EncState, be_bytes, be_u32, chunk_pixels, chunk_size,
    chunk_state, decode_chunks, decode_stream, diff_chunk, encode_chunks, encoded,
    fits_diff, fits_luma, header, initial_dec_state, initial_enc_state, is_run_tag, luma_chunk,
    lemma_prepend_assoc, pixel_chunk, pixels_of, prepend, rgb_bytes, run_chunk, step_bytes, step_state, wrap,
};
use crate::pixel::{Pixel, slot_of, zero_pixel};

verus! {

proof fn lemma_diff_bits(a: u8, b: u8, c: u8)
    requires
        a < 4,
        b < 4,
        c < 4,
    ensures
        ({
            let x = 0x40u8 | a << 4u8 | b << 2u8 | c;
            &&& x & 0xc0 == 0x40
            &&& (x >> 4u8) & 3 == a
            &&& (x >> 2u8) & 3 == b
            &&& x & 3 == c
            &&& x != 0xfe
            &&& x != 0xff
        }),
{
    assert({
        let x = 0x40u8 | a << 4u8 | b << 2u8 | c;
        &&& x & 0xc0 == 0x40
        &&& (x >> 4u8) & 3 == a
        &&& (x >> 2u8) & 3 == b
        &&& x & 3 == c
        &&& x != 0xfe
        &&& x != 0xff
    }) by (bit_vector)
        requires
            a < 4,
            b < 4,
            c < 4,
    ;
}

proof fn lemma_luma_bits(g: u8, x: u8, y: u8)
    requires
        g < 64,
        x < 16,
        y < 16,
    ensures
        (0x80u8 | g) & 0xc0 == 0x80,
        (0x80u8 | g) & 0x3f == g,
        (0x80u8 | g) != 0xfe,
        (0x80u8 | g) != 0xff,
        (x << 4u8 | y) >> 4u8 == x,
        (x << 4u8 | y) & 0x0f == y,
{
    assert((0x80u8 | g) & 0xc0 == 0x80 && (0x80u8 | g) & 0x3f == g && (0x80u8 | g) != 0xfe
        && (0x80u8 | g) != 0xff) by (bit_vector)
        requires
            g < 64,
    ;
    assert((x << 4u8 | y) >> 4u8 == x && (x << 4u8 | y) & 0x0f == y) by (bit_vector)
        requires
            x < 16,
            y < 16,
    ;
}

proof fn lemma_small_bits(i: u8)
    requires
        i < 64,
    ensures
        i & 0xc0 == 0,
        i & 0x3f == i,
        (0xc0u8 | i) & 0xc0 == 0xc0,
        (0xc0u8 | i) & 0x3f == i,
        i < 62 ==> (0xc0u8 | i) != 0xfe && (0xc0u8 | i) != 0xff,
{
    assert(i & 0xc0 == 0 && i & 0x3f == i && (0xc0u8 | i) & 0xc0 == 0xc0 && (0xc0u8 | i) & 0x3f == i
        && (i < 62 ==> (0xc0u8 | i) != 0xfe && (0xc0u8 | i) != 0xff)) by (bit_vector)
        requires
            i < 64,
    ;
}

/// Decoding a region that opens with a whole chunk `chunk`.
proof fn lemma_decode_front(chunk: Seq<u8>, tail: Seq<u8>, st: DecState)
    requires
        chunk.len() > 0,
        chunk_size(chunk[0]) == chunk.len(),
    ensures
        decode_chunks(chunk + tail, st) == prepend(
            chunk_pixels(chunk + tail, st),
            decode_chunks(tail, chunk_state(chunk + tail, st)),
        ),
{
    let c = chunk + tail;
    assert(c[0] == chunk[0]);
    assert(c.subrange(chunk.len() as int, c.len() as int) =~= tail);
}

/// A RUN chunk for `n` repeats decodes to `n` copies of the previous pixel
/// and leaves the state alone.
proof fn lemma_run_chunk(n: nat, tail: Seq<u8>, st: DecState)
    requires
        1 <= n <= 62,
    ensures
        decode_chunks(run_chunk(n) + tail, st) == prepend(
            Seq::new(n, |i: int| st.prev),
            decode_chunks(tail, st),
        ),
{
    let c = run_chunk(n) + tail;
    lemma_small_bits((n - 1) as u8);
    assert(c[0] == run_chunk(n)[0]);
    assert(is_run_tag(c[0]));
    lemma_decode_front(run_chunk(n), tail, st);
    assert(chunk_pixels(c, st) =~= Seq::new(n, |i: int| st.prev));
}

/// The state the decoder holds while it mirrors an encoder in state `st`.
pub open spec fn mirror(st: EncState) -> DecState {
    DecState { prev: st.prev, cache: st.cache }
}

/// What the decoder does with the chunk at the front of `chunk + tail` when
/// that chunk is `chunk`: it yields `p` and moves to state `ds2`.
pub open spec fn decodes_to(chunk: Seq<u8>, tail: Seq<u8>, ds: DecState, p: Pixel, ds2: DecState) -> bool {
    &&& chunk.len() > 0
    &&& chunk_size(chunk[0]) == chunk.len()
    &&& chunk_pixels(chunk + tail, ds) == seq![p]
    &&& chunk_state(chunk + tail, ds) == ds2
}

proof fn lemma_index_chunk(p: Pixel, st: EncState, tail: Seq<u8>)
    requires
        st.cache.len() == 64,
        st.cache[slot_of(p)] == p,
    ensures
        decodes_to(pixel_chunk(p, st.prev, st.cache), tail, mirror(st), p, mirror(step_state(st, p, false))),
        p != st.prev ==> step_state(st, p, false) == (EncState { prev: p, run: 0, cache: st.cache }),
{
    let chunk = pixel_chunk(p, st.prev, st.cache);
    let c = chunk + tail;
    let i = slot_of(p) as u8;
    lemma_small_bits(i);
    assert(c[0] == i);
    assert(chunk_pixels(c, mirror(st)) =~= seq![p]);
}

proof fn lemma_diff_chunk(p: Pixel, st: EncState, tail: Seq<u8>)
    requires
        st.cache.len() == 64,
        st.cache[slot_of(p)] != p,
        p.a == st.prev.a,
        fits_diff(p.r - st.prev.r, p.g - st.prev.g, p.b - st.prev.b),
    ensures
        decodes_to(pixel_chunk(p, st.prev, st.cache), tail, mirror(st), p,
            DecState { prev: p, cache: st.cache.update(slot_of(p), p) }),
{
    let prev = st.prev;
    let (dr, dg, db) = (p.r - prev.r, p.g - prev.g, p.b - prev.b);
    let chunk = pixel_chunk(p, prev, st.cache);
    let c = chunk + tail;
    lemma_diff_bits((dr + 2) as u8, (dg + 2) as u8, (db + 2) as u8);
    assert(chunk == diff_chunk(dr, dg, db));
    assert(c[0] == chunk[0]);
    assert(wrap(prev.r + dr) == p.r);
    assert(wrap(prev.g + dg) == p.g);
    assert(wrap(prev.b + db) == p.b);
    assert(chunk_pixels(c, mirror(st)) =~= seq![p]);
}

proof fn lemma_luma_chunk(p: Pixel, st: EncState, tail: Seq<u8>)
    requires
        st.cache.len() == 64,
        st.cache[slot_of(p)] != p,
        p.a == st.prev.a,
        !fits_diff(p.r - st.prev.r, p.g - st.prev.g, p.b - st.prev.b),
        fits_luma(p.r - st.prev.r, p.g - st.prev.g, p.b - st.prev.b),
    ensures
        decodes_to(pixel_chunk(p, st.prev, st.cache), tail, mirror(st), p,
            DecState { prev: p, cache: st.cache.update(slot_of(p), p) }),
{
    let prev = st.prev;
    let (dr, dg, db) = (p.r - prev.r, p.g - prev.g, p.b - prev.b);
    let chunk = pixel_chunk(p, prev, st.cache);
    let c = chunk + tail;
    lemma_luma_bits((dg + 32) as u8, (dr - dg + 8) as u8, (db - dg + 8) as u8);
    assert(chunk == luma_chunk(dr, dg, db));
    assert(c[0] == chunk[0] && c[1] == chunk[1]);
    assert(wrap(prev.r + dr) == p.r);
    assert(wrap(prev.g + dg) == p.g);
    assert(wrap(prev.b + db) == p.b);
    assert(chunk_pixels(c, mirror(st)) =~= seq![p]);
}

proof fn lemma_rgb_chunk(p: Pixel, st: EncState, tail: Seq<u8>)
    requires
        st.cache.len() == 64,
        st.cache[slot_of(p)] != p,
        p.a == 255,
        !fits_diff(p.r - st.prev.r, p.g - st.prev.g, p.b - st.prev.b),
        !fits_luma(p.r - st.prev.r, p.g - st.prev.g, p.b - st.prev.b),
    ensures
        decodes_to(pixel_chunk(p, st.prev, st.cache), tail, mirror(st), p,
            DecState { prev: p, cache: st.cache.update(slot_of(p), p) }),
{
    let chunk = pixel_chunk(p, st.prev, st.cache);
    let c = chunk + tail;
    assert(chunk =~= seq![0xfeu8, p.r, p.g, p.b]);
    assert(c[0] == 0xfe && c[1] == p.r && c[2] == p.g && c[3] == p.b);
    assert(0xfeu8 & 0xc0u8 == 0xc0u8) by (bit_vector);
    assert(chunk_pixels(c, mirror(st)) =~= seq![p]);
}

/// The chunk that the encoder emits for an opaque pixel `p` that differs from
/// an opaque `prev` decodes to `p`, and the decoder's state after it mirrors
/// the encoder's.
proof fn lemma_pixel_chunk(p: Pixel, st: EncState, tail: Seq<u8>)
    requires
        p != st.prev,
        p.a == 255,
        st.prev.a == 255,
        st.cache.len() == 64,
    ensures
        decode_chunks(pixel_chunk(p, st.prev, st.cache) + tail, mirror(st)) == prepend(
            seq![p],
            decode_chunks(tail, mirror(step_state(st, p, false))),
        ),
{
    let (dr, dg, db) = (p.r - st.prev.r, p.g - st.prev.g, p.b - st.prev.b);
    let chunk = pixel_chunk(p, st.prev, st.cache);
    if st.cache[slot_of(p)] == p {
        lemma_index_chunk(p, st, tail);
    } else if fits_diff(dr, dg, db) {
        lemma_diff_chunk(p, st, tail);
    } else if fits_luma(dr, dg, db) {
        lemma_luma_chunk(p, st, tail);
    } else {
        lemma_rgb_chunk(p, st, tail);
    }
    lemma_decode_front(chunk, tail, mirror(st));
}

/// `n` copies of `p`.
pub open spec fn repeat(p: Pixel, n: nat) -> Seq<Pixel> {
    Seq::new(n, |i: int| p)
}

/// All pixels of `px` are opaque.
pub open spec fn all_opaque(px: Seq<Pixel>) -> bool {
    forall|i: int| 0 <= i < px.len() ==> #[trigger] px[i].a == 255
}

/// The step for a pixel `p` that differs from the previous one: the pending
/// run, then `p`, then what the rest decodes to.
proof fn lemma_new_pixel_step(p: Pixel, st: EncState, tail: Seq<u8>, last: bool)
    requires
        p != st.prev,
        p.a == 255,
        st.run < 62,
        st.cache.len() == 64,
        st.prev.a == 255,
    ensures
        decode_chunks(step_bytes(st, p, last) + tail, mirror(st)) == prepend(
            repeat(st.prev, st.run) + seq![p],
            decode_chunks(tail, mirror(step_state(st, p, last))),
        ),
{
    let chunk = pixel_chunk(p, st.prev, st.cache);
    assert(step_state(st, p, false) == step_state(st, p, last));
    lemma_pixel_chunk(p, st, tail);
    let rest = decode_chunks(tail, mirror(step_state(st, p, last)));
    if st.run > 0 {
        assert(step_bytes(st, p, last) + tail =~= run_chunk(st.run) + (chunk + tail));
        lemma_run_chunk(st.run, chunk + tail, mirror(st));
        lemma_prepend_assoc(repeat(st.prev, st.run), seq![p], rest);
    } else {
        assert(step_bytes(st, p, last) + tail =~= chunk + tail);
        assert(repeat(st.prev, 0) + seq![p] =~= seq![p]);
    }
}

/// From any reachable encoder state, the decoder that mirrors it turns the
/// encoder's chunks for `px` back into the pending run followed by `px`.
pub proof fn lemma_chunks_round_trip(px: Seq<Pixel>, st: EncState)
    requires
        st.run < 62,
        st.cache.len() == 64,
        st.prev.a == 255,
        all_opaque(px),
    ensures
        decode_chunks(encode_chunks(px, st), mirror(st)) == Some(repeat(st.prev, st.run) + px),
    decreases px.len(),
{
    if px.len() == 0 {
        if st.run > 0 {
            lemma_run_chunk(st.run, seq![], mirror(st));
            assert(run_chunk(st.run) + seq![] =~= run_chunk(st.run));
        }
        assert(repeat(st.prev, st.run) + px =~= repeat(st.prev, st.run));
        assert(repeat(st.prev, 0) =~= Seq::<Pixel>::empty());
    } else {
        let p = px[0];
        let last = px.len() == 1;
        let rest = px.drop_first();
        let next = step_state(st, p, last);
        assert(all_opaque(rest)) by {
            assert forall|i: int| 0 <= i < rest.len() implies #[trigger] rest[i].a == 255 by {
                assert(rest[i] == px[i + 1]);
            }
        }
        assert(p.a == 255);
        lemma_chunks_round_trip(rest, next);
        let tail = encode_chunks(rest, next);
        assert(encode_chunks(px, st) == step_bytes(st, p, last) + tail);
        if p == st.prev {
            if st.run + 1 == 62 || last {
                lemma_run_chunk(st.run + 1, tail, mirror(st));
                assert(repeat(st.prev, st.run + 1) + (repeat(st.prev, 0) + rest) =~= repeat(st.prev, st.run) + px);
            } else {
                assert(step_bytes(st, p, last) + tail =~= tail);
                assert(repeat(st.prev, st.run + 1) + rest =~= repeat(st.prev, st.run) + px);
            }
        } else {
            lemma_new_pixel_step(p, st, tail, last);
            assert(repeat(st.prev, st.run) + seq![p] + (repeat(p, 0) + rest) =~= repeat(st.prev, st.run) + px);
        }
    }
}

proof fn lemma_be_u32(x: u32)
    ensures
        be_u32(be_bytes(x)[0], be_bytes(x)[1], be_bytes(x)[2], be_bytes(x)[3]) == x,
{
    assert(((x >> 24u32) as u8 as u32) << 24u32 | ((x >> 16u32) as u8 as u32) << 16u32
        | ((x >> 8u32) as u8 as u32) << 8u32 | (x as u8 as u32) == x) by (bit_vector);
}

/// The image an encoded stream of `buf` should decode to.
pub open spec fn image_of(buf: Seq<u8>, width: u32, height: u32) -> DecodedImage {
    DecodedImage { width, height, channels: 3, color_space: 1, pixels: pixels_of(buf) }
}

/// Round trip: decoding the stream that the encoder makes of an RGB buffer
/// yields the header's dimensions and the buffer's pixels, and when the
/// buffer holds whole pixels their channels are the buffer itself.
pub proof fn lemma_round_trip(buf: Seq<u8>, width: u32, height: u32)
    ensures
        decode_stream(encoded(buf, width, height)) == DecodeOutcome::Decoded(image_of(buf, width, height)),
        buf.len() % 3 == 0 ==> rgb_bytes(pixels_of(buf)) == buf,
{
    let px = pixels_of(buf);
    let chunks = encode_chunks(px, initial_enc_state());
    let s = encoded(buf, width, height);
    let h = header(width, height);
    assert(h.len() == 14);
    assert(s.len() == 22 + chunks.len());
    assert(s.subrange(0, 4) =~= qoi_magic());
    assert(s.subrange(14, s.len() - 8) =~= chunks);
    assert(s.subrange(s.len() - 8, s.len() as int) =~= qoi_end_mark());
    assert(all_opaque(px));
    lemma_chunks_round_trip(px, initial_enc_state());
    assert(repeat(initial_enc_state().prev, 0) + px =~= px);
    lemma_be_u32(width);
    lemma_be_u32(height);
    assert(s[4] == be_bytes(width)[0] && s[5] == be_bytes(width)[1] && s[6] == be_bytes(width)[2] && s[7] == be_bytes(width)[3]);
    assert(s[8] == be_bytes(height)[0] && s[9] == be_bytes(height)[1] && s[10] == be_bytes(height)[2] && s[11] == be_bytes(height)[3]);
    assert(s[12] == 3 && s[13] == 1);
    if buf.len() % 3 == 0 {
        assert(rgb_bytes(px) =~= buf);
    }
}

/// A stream whose first four bytes are not the magic is refused as an
/// invalid header, whatever follows.
pub proof fn lemma_bad_magic(s: Seq<u8>)
    requires
        s.len() >= 14,
        s.subrange(0, 4) != qoi_magic(),
    ensures
        decode_stream(s) == DecodeOutcome::InvalidHeader,
{
}

/// Changing any byte of the magic of an encoded stream makes it an invalid
/// header.
pub proof fn lemma_corrupted_magic(buf: Seq<u8>, width: u32, height: u32, i: int, x: u8)
    requires
        0 <= i < 4,
        x != encoded(buf, width, height)[i],
    ensures
        decode_stream(encoded(buf, width, height).update(i, x)) == DecodeOutcome::InvalidHeader,
{
    let s = encoded(buf, width, height).update(i, x);
    assert(s.subrange(0, 4)[i] != qoi_magic()[i]);
}

/// An encoded stream cut short by its last byte never decodes: it is refused
/// for its end marker or as truncated.
pub proof fn lemma_truncated_stream(buf: Seq<u8>, width: u32, height: u32)
    ensures
        ({
            let o = decode_stream(encoded(buf, width, height).drop_last());
            o == DecodeOutcome::InvalidEndMark || o == DecodeOutcome::Truncated
        }),
{
    let e = encoded(buf, width, height);
    let s = e.drop_last();
    assert(e.subrange(0, 4) =~= qoi_magic());
    assert(s.subrange(0, 4) =~= e.subrange(0, 4));
    assert(e[e.len() - 2] == 0);
    if s.len() >= 22 {
        assert(s.subrange(s.len() - 8, s.len() as int)[7] == 0);
        assert(s.subrange(s.len() - 8, s.len() as int) != qoi_end_mark());
    }
}

/// `k` more copies of the previous pixel, while they keep the run under 62
/// and are not the last pixels, only lengthen the pending run.
proof fn lemma_run_grows(c: Pixel, k: nat, more: Seq<Pixel>, st: EncState)
    requires
        st.prev == c,
        st.run + k < 62,
        more.len() > 0,
    ensures
        encode_chunks(repeat(c, k) + more, st) == encode_chunks(more, EncState { run: st.run + k, ..st }),
    decreases k,
{
    if k > 0 {
        let px = repeat(c, k) + more;
        assert(px[0] == c);
        assert(px.drop_first() =~= repeat(c, (k - 1) as nat) + more);
        lemma_run_grows(c, (k - 1) as nat, more, EncState { run: st.run + 1, ..st });
    } else {
        assert(repeat(c, k) + more =~= more);
    }
}

/// Run boundary: 62 copies of the previous pixel and then a different pixel
/// `d` give exactly one RUN chunk of length 62 and then the chunk of `d`.
pub proof fn lemma_run_boundary(c: Pixel, d: Pixel, rest: Seq<Pixel>, st: EncState)
    requires
        st.prev == c,
        st.run == 0,
        d != c,
    ensures
        encode_chunks(repeat(c, 62) + seq![d] + rest, st)
            == run_chunk(62) + pixel_chunk(d, c, st.cache) + encode_chunks(rest, step_state(st, d, false)),
{
    let tail = seq![c] + seq![d] + rest;
    assert(repeat(c, 62) + seq![d] + rest =~= repeat(c, 61) + tail);
    lemma_run_grows(c, 61, tail, st);
    let st61 = EncState { run: 61, ..st };
    assert(tail[0] == c);
    assert(tail.drop_first() =~= seq![d] + rest);
    let st0 = step_state(st61, c, tail.len() == 1);
    assert(st0 == st);
    let tail2 = seq![d] + rest;
    assert(tail2[0] == d);
    assert(tail2.drop_first() =~= rest);
    assert(step_state(st, d, tail2.len() == 1) == step_state(st, d, false));
    assert(step_bytes(st, d, tail2.len() == 1) =~= pixel_chunk(d, c, st.cache));
    assert(encode_chunks(tail2, st) == pixel_chunk(d, c, st.cache) + encode_chunks(rest, step_state(st, d, false)));
    assert(step_bytes(st61, c, tail.len() == 1) == run_chunk(62));
    assert(encode_chunks(tail, st61) == run_chunk(62) + encode_chunks(tail2, st));
    assert(encode_chunks(repeat(c, 62) + seq![d] + rest, st)
        =~= run_chunk(62) + pixel_chunk(d, c, st.cache) + encode_chunks(rest, step_state(st, d, false)));
}

/// The run boundary on a whole image: 62 opaque black pixels, the starting
/// previous pixel, then a different pixel `d`.
pub proof fn lemma_run_boundary_image(buf: Seq<u8>, width: u32, height: u32, d: Pixel)
    requires
        pixels_of(buf) == repeat(zero_pixel(), 62) + seq![d],
        d != zero_pixel(),
    ensures
        encoded(buf, width, height) == header(width, height) + run_chunk(62)
            + pixel_chunk(d, zero_pixel(), initial_enc_state().cache) + qoi_end_mark(),
{
    let st = initial_enc_state();
    assert(pixels_of(buf) =~= repeat(zero_pixel(), 62) + seq![d] + Seq::<Pixel>::empty());
    lemma_run_boundary(zero_pixel(), d, Seq::<Pixel>::empty(), st);
    let chunk = pixel_chunk(d, zero_pixel(), st.cache);
    assert(run_chunk(62) + chunk + Seq::<u8>::empty() =~= run_chunk(62) + chunk);
}

/// Cache symmetry: a pixel `p`, a different pixel `q` in the same cache slot,
/// then `p` again, all opaque, decode to exactly those three pixels; the
/// decoder follows the encoder's overwrite of the shared slot.
pub proof fn lemma_cache_collision(p: Pixel, q: Pixel)
    requires
        p != q,
        slot_of(p) == slot_of(q),
        p.a == 255,
        q.a == 255,
    ensures
        decode_chunks(encode_chunks(seq![p, q, p], initial_enc_state()), initial_dec_state())
            == Some(seq![p, q, p]),
{
    let px = seq![p, q, p];
    assert(all_opaque(px));
    lemma_chunks_round_trip(px, initial_enc_state());
    assert(repeat(zero_pixel(), 0) + px =~= px);
}

} // verus!
