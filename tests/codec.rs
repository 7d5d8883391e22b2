use image_compressor::comp::{Data, QoiDecode, QoiEncode};
use image_compressor::decoder::decode_bytes;
use image_compressor::encoder::encode_pixels;
use image_compressor::pixel::{Pixel, Zero};
use image_compressor::qoi_error::QoiError;

const END: [u8; 8] = [0, 0, 0, 0, 0, 0, 0, 1];

fn px(r: u8, g: u8, b: u8) -> Pixel {
    Pixel { r, g, b, a: 255 }
}

fn header(width: u32, height: u32) -> Vec<u8> {
    let mut h = vec![b'q', b'o', b'i', b'f'];
    h.extend_from_slice(&width.to_be_bytes());
    h.extend_from_slice(&height.to_be_bytes());
    h.push(3);
    h.push(1);
    h
}

fn stream(width: u32, height: u32, chunks: &[u8]) -> Vec<u8> {
    let mut s = header(width, height);
    s.extend_from_slice(chunks);
    s.extend_from_slice(&END);
    s
}

fn encode(rgb: &[u8], width: u32, height: u32) -> Vec<u8> {
    let mut out = Vec::new();
    let n = encode_pixels(rgb, width, height, &mut out);
    assert_eq!(n, out.len());
    out
}

fn rgb_of(pixels: &[Pixel]) -> Vec<u8> {
    pixels.iter().flat_map(|p| [p.r, p.g, p.b]).collect()
}

fn round_trip(rgb: &[u8], width: u32, height: u32) {
    let bytes = encode(rgb, width, height);
    let file = decode_bytes(&bytes, String::from("out.qoi")).unwrap();
    assert_eq!(file.width, width);
    assert_eq!(file.height, height);
    assert_eq!(file.channels, 3);
    assert_eq!(file.color_space, 1);
    assert_eq!(file.pixels.len() * 3, rgb.len());
    assert!(file.pixels.iter().all(|p| p.a == 255));
    let mut back = Vec::new();
    file.parse_pixels_to_vec(&mut back);
    assert_eq!(back, rgb);
}

/// A deterministic pseudo-random byte sequence.
fn noise(n: usize, seed: u32, spread: u8) -> Vec<u8> {
    let mut x = seed;
    let mut base: u8 = 128;
    let mut out = Vec::with_capacity(n);
    for _ in 0..n {
        x = x.wrapping_mul(1103515245).wrapping_add(12345);
        let step = ((x >> 16) % (2 * spread as u32 + 1)) as i32 - spread as i32;
        base = (base as i32 + step).rem_euclid(256) as u8;
        out.push(base);
    }
    out
}

#[test]
fn two_equal_pixels_after_start_pixel_luma_then_run() {
    // (10,10,10) differs from the starting black pixel: LUMA, then a run of one.
    let bytes = encode(&[10, 10, 10, 10, 10, 10], 2, 1);
    assert_eq!(bytes, stream(2, 1, &[0xaa, 0x88, 0xc0]));
    assert_eq!(bytes.len(), 25);
    let file = decode_bytes(&bytes, String::new()).unwrap();
    assert_eq!(file.pixels, vec![px(10, 10, 10), px(10, 10, 10)]);
}

#[test]
fn two_black_pixels_one_run_chunk() {
    let bytes = encode(&[0, 0, 0, 0, 0, 0], 2, 1);
    assert_eq!(bytes, stream(2, 1, &[0xc1]));
    assert_eq!(bytes.len(), 23);
    let file = decode_bytes(&bytes, String::new()).unwrap();
    assert_eq!(file.pixels, vec![px(0, 0, 0), px(0, 0, 0)]);
}

#[test]
fn red_jump_is_rgb_literal() {
    let bytes = encode(&[0, 0, 0, 255, 0, 0], 2, 1);
    assert_eq!(bytes, stream(2, 1, &[0xc0, 0xfe, 255, 0, 0]));
    let alone = encode(&[255, 0, 0], 1, 1);
    assert_eq!(alone, stream(1, 1, &[0xfe, 255, 0, 0]));
}

#[test]
fn diff_chunk_exact() {
    // (1,0,0) after black: dr=1, dg=0, db=0.
    assert_eq!(encode(&[1, 0, 0], 1, 1), stream(1, 1, &[0x7a]));
    // (254,255,0) after black is out of DIFF range (differences are not wrapped).
    let bytes = encode(&[0, 0, 0, 254, 255, 0], 2, 1);
    assert_eq!(bytes[15], 0xfe);
}

#[test]
fn luma_chunk_exact() {
    // dg = -20, dr - dg = 3, db - dg = -4 after (100,100,100).
    let bytes = encode(&[100, 100, 100, 83, 80, 76], 2, 1);
    assert_eq!(&bytes[14..bytes.len() - 8], &[0xfe, 100, 100, 100, 0x80 | 12, (11 << 4) | 4]);
    round_trip(&[100, 100, 100, 83, 80, 76], 2, 1);
}

#[test]
fn index_chunk_on_cache_hit() {
    // p = (10,20,30) hashes to slot 20; q = (0,0,1) to slot 7.
    let rgb = [10, 20, 30, 0, 0, 1, 10, 20, 30];
    let bytes = encode(&rgb, 3, 1);
    assert_eq!(bytes[bytes.len() - 9], 0x14);
    round_trip(&rgb, 3, 1);
}

#[test]
fn cache_collision_round_trip() {
    // p = (10,20,30) and q = (0,4,0) both hash to slot 20.
    let p = px(10, 20, 30);
    let q = px(0, 4, 0);
    assert_eq!(p.hash() % 64, q.hash() % 64);
    let rgb = [10, 20, 30, 0, 4, 0, 10, 20, 30];
    let bytes = encode(&rgb, 3, 1);
    // The third pixel cannot be an INDEX chunk: q took its slot.
    assert_eq!(&bytes[bytes.len() - 12..bytes.len() - 8], &[0xfe, 10, 20, 30]);
    let file = decode_bytes(&bytes, String::new()).unwrap();
    assert_eq!(file.pixels, vec![p, q, p]);
}

#[test]
fn run_boundary_62_then_different() {
    let mut rgb = vec![0u8; 62 * 3];
    rgb.extend_from_slice(&[5, 5, 5]);
    let bytes = encode(&rgb, 63, 1);
    // One RUN chunk of 62 (0xfd), then the DIFF-free LUMA for (5,5,5).
    assert_eq!(bytes, stream(63, 1, &[0xfd, 0xa5, 0x88]));
    round_trip(&rgb, 63, 1);
}

#[test]
fn long_run_splits_at_62() {
    let rgb = vec![0u8; 130 * 3];
    let bytes = encode(&rgb, 130, 1);
    assert_eq!(bytes, stream(130, 1, &[0xfd, 0xfd, 0xc5]));
    round_trip(&rgb, 130, 1);
}

#[test]
fn round_trip_many_buffers() {
    round_trip(&[], 0, 0);
    round_trip(&[7, 8, 9], 1, 1);
    for (seed, spread) in [(1u32, 1u8), (2, 3), (3, 20), (4, 128), (5, 0)] {
        let rgb = noise(3 * 500, seed, spread);
        round_trip(&rgb, 25, 20);
    }
}

#[test]
fn corrupted_magic_is_invalid_header() {
    let mut bytes = encode(&[1, 2, 3, 4, 5, 6], 2, 1);
    bytes[0] ^= 0xff;
    match decode_bytes(&bytes, String::new()) {
        Err(QoiError::InvalidHeader(found)) => assert_eq!(found, vec![b'q' ^ 0xff, b'o', b'i', b'f']),
        other => panic!("unexpected {:?}", other),
    }
}

#[test]
fn truncated_last_byte_fails() {
    for rgb in [vec![], vec![1, 2, 3], vec![9, 9, 9, 200, 1, 50, 200, 1, 50]] {
        let mut bytes = encode(&rgb, 1, 1);
        bytes.pop();
        let r = decode_bytes(&bytes, String::new());
        assert!(matches!(r, Err(QoiError::InvalidEndMark(_)) | Err(QoiError::TruncatedStream)));
    }
}

#[test]
fn bad_end_mark_is_reported() {
    let mut bytes = encode(&[1, 2, 3], 1, 1);
    let n = bytes.len();
    bytes[n - 1] = 2;
    match decode_bytes(&bytes, String::new()) {
        Err(QoiError::InvalidEndMark(found)) => assert_eq!(found, vec![0, 0, 0, 0, 0, 0, 0, 2]),
        other => panic!("unexpected {:?}", other),
    }
}

#[test]
fn short_streams_are_truncated() {
    assert!(matches!(decode_bytes(&[b'q', b'o', b'i'], String::new()), Err(QoiError::TruncatedStream)));
    let h = header(1, 1);
    assert!(matches!(decode_bytes(&h, String::new()), Err(QoiError::TruncatedStream)));
    // A literal chunk that runs into the end marker region.
    let s = stream(1, 1, &[0xfe, 1]);
    assert!(matches!(decode_bytes(&s, String::new()), Err(QoiError::TruncatedStream)));
}

#[test]
fn rgba_literal_is_read() {
    let s = stream(1, 1, &[0xff, 1, 2, 3, 4]);
    let file = decode_bytes(&s, String::from("a.qoi")).unwrap();
    assert_eq!(file.pixels, vec![Pixel { r: 1, g: 2, b: 3, a: 4 }]);
    assert_eq!(file.path, "a.qoi");
    assert_eq!(file.size, 0);
}

#[test]
fn header_fields_are_big_endian() {
    let bytes = encode(&[], 0x01020304, 0x0a0b0c0d);
    assert_eq!(&bytes[4..12], &[1, 2, 3, 4, 10, 11, 12, 13]);
    let file = decode_bytes(&bytes, String::new()).unwrap();
    assert_eq!(file.width, 0x01020304);
    assert_eq!(file.height, 0x0a0b0c0d);
    assert!(file.pixels.is_empty());
}

#[test]
fn data_encode_and_decode() {
    let rgb = vec![1, 2, 3, 1, 2, 3, 250, 0, 9, 0, 0, 0];
    let data = Data { path: String::from("x.png"), width: 2, height: 2, rgb: rgb.clone() };
    assert_eq!(data.get_pixels(), rgb);
    let mut buffer = vec![42u8];
    let written = data.encode(&data.get_pixels(), &mut buffer);
    assert_eq!(written, buffer.len() - 1);
    assert_eq!(buffer[0], 42);
    let mut file = data.decode(&buffer[1..], String::from("x_decoded.qoi")).unwrap();
    assert_eq!((file.width, file.height), (2, 2));
    file.set_size();
    assert_eq!(file.size, 12);
    let mut out = Vec::new();
    file.parse_pixels_to_vec(&mut out);
    assert_eq!(out, rgb);
    assert_eq!(rgb_of(&file.pixels), rgb);
}

#[test]
fn pixel_basics() {
    let p = px(1, 2, 3);
    assert_eq!(p.hash(), 3 + 10 + 21);
    assert_eq!(p.to_bytes(), [1, 2, 3]);
    assert_eq!(Pixel::zero(), Pixel { r: 0, g: 0, b: 0, a: 255 });
    assert_eq!(px(255, 255, 255).hash(), 255 * 15);
}
