use gx1convert::sample::{decode_samples, encode_samples};

#[test]
fn decodes_little_endian_pairs() {
    let bytes: Vec<u8> = vec![0x01, 0x00, 0xFF, 0xFF, 0x00, 0x80, 0x2C, 0x01];
    assert_eq!(decode_samples(&bytes), vec![1, -1, -32768, 300]);
}

#[test]
fn decodes_an_empty_buffer_to_no_samples() {
    let bytes: Vec<u8> = Vec::new();
    assert_eq!(decode_samples(&bytes), Vec::<i16>::new());
}

#[test]
fn a_trailing_odd_byte_is_dropped_not_an_error() {
    let bytes: Vec<u8> = vec![0x0A, 0x00, 0x14, 0x00, 0x07];
    assert_eq!(decode_samples(&bytes), vec![10, 20]);
    let single: Vec<u8> = vec![0x42];
    assert_eq!(decode_samples(&single), Vec::<i16>::new());
}

#[test]
fn encodes_low_byte_first() {
    let samples: Vec<i16> = vec![1, 2];
    assert_eq!(encode_samples(&samples), vec![0x01, 0x00, 0x02, 0x00]);
    let negatives: Vec<i16> = vec![-1, -32768, 32767];
    assert_eq!(
        encode_samples(&negatives),
        vec![0xFF, 0xFF, 0x00, 0x80, 0xFF, 0x7F]
    );
}

#[test]
fn encoding_then_decoding_reproduces_the_samples() {
    let samples: Vec<i16> = vec![0, 1, -1, 300, -300, 32767, -32768, 12345, -12345];
    let bytes = encode_samples(&samples);
    assert_eq!(bytes.len(), 2 * samples.len());
    assert_eq!(decode_samples(&bytes), samples);
}
