//! The binary sample codec.
//!
//! A raw `.dat` buffer is a flat stream of little-endian signed 16-bit
//! samples.  Decoding repeatedly consumes two-byte groups from the front
//! and stops as soon as fewer than two bytes remain, so a trailing odd
//! byte is silently dropped, never an error.

use vstd::prelude::*;

verus! {

/// The unsigned value of a little-endian byte pair.
pub open spec fn le_pair_val(lo: u8, hi: u8) -> int {
    lo + 256 * (hi as int)
}

/// The signed 16-bit sample a little-endian byte pair encodes, as its
/// two's-complement reading.
pub open spec fn le_pair_sample(lo: u8, hi: u8) -> i16 {
    if le_pair_val(lo, hi) < 32768 {
        le_pair_val(lo, hi) as i16
    } else {
        (le_pair_val(lo, hi) - 65536) as i16
    }
}

/// The longest sample sequence obtainable from the front of `bytes`:
/// sample `i` is read from bytes `2 * i` and `2 * i + 1`.
pub open spec fn decode_le(bytes: Seq<u8>) -> Seq<i16> {
    Seq::new((bytes.len() / 2) as nat, |i: int| le_pair_sample(bytes[2 * i], bytes[2 * i + 1]))
}

/// The unsigned 16-bit reading of a sample: its value, wrapped into
/// `[0, 65536)`.
pub open spec fn sample_unsigned(x: i16) -> int {
    if x >= 0 {
        x as int
    } else {
        x + 65536
    }
}

/// The low byte of a sample's little-endian encoding.
pub open spec fn sample_low_byte(x: i16) -> u8 {
    (sample_unsigned(x) % 256) as u8
}

/// The high byte of a sample's little-endian encoding.
pub open spec fn sample_high_byte(x: i16) -> u8 {
    (sample_unsigned(x) / 256) as u8
}

/// The little-endian encoding of a sample sequence, two bytes per
/// sample, low byte first.
pub open spec fn encode_le(samples: Seq<i16>) -> Seq<u8> {
    Seq::new(
        2 * samples.len(),
        |j: int|
            if j % 2 == 0 {
                sample_low_byte(samples[j / 2])
            } else {
                sample_high_byte(samples[j / 2])
            },
    )
}

/// Decodes a raw buffer into the longest possible sample sequence.
pub fn decode_samples(bytes: &Vec<u8>) -> (r: Vec<i16>)
    ensures
        r@ == decode_le(bytes@),
{
    let n = bytes.len();
    let mut r: Vec<i16> = Vec::new();
    let mut p: usize = 0;
    while p < n && p + 1 < n
        invariant
            p <= n,
            p == 2 * r@.len(),
            n == bytes@.len(),
            forall|i: int|
                0 <= i < r@.len() ==> r@[i] == le_pair_sample(bytes@[2 * i], bytes@[2 * i + 1]),
        decreases n - p,
    {
        let lo = bytes[p];
        let hi = bytes[p + 1];
        let v: u32 = lo as u32 + 256 * (hi as u32);
        let sample: i16 = if v < 32768 {
            v as i16
        } else {
            ((v as i32) - 65536) as i16
        };
        proof {
            assert(sample == le_pair_sample(lo, hi));
        }
        r.push(sample);
        p = p + 2;
    }
    proof {
        assert(r@ =~= decode_le(bytes@));
    }
    r
}

/// Encodes a sample sequence as little-endian byte pairs.
pub fn encode_samples(samples: &Vec<i16>) -> (r: Vec<u8>)
    ensures
        r@ == encode_le(samples@),
{
    let mut r: Vec<u8> = Vec::new();
    let mut i: usize = 0;
    while i < samples.len()
        invariant
            i <= samples@.len(),
            r@.len() == 2 * i,
            forall|j: int| 0 <= j < r@.len() ==> r@[j] == encode_le(samples@)[j],
        decreases samples@.len() - i,
    {
        let x = samples[i];
        let u: u32 = if x >= 0 {
            x as u32
        } else {
            ((x as i32) + 65536) as u32
        };
        proof {
            assert(u == sample_unsigned(x));
        }
        r.push((u % 256) as u8);
        r.push((u / 256) as u8);
        i = i + 1;
    }
    proof {
        assert(r@ =~= encode_le(samples@));
    }
    r
}

/// Each sample survives the trip through its own byte pair.
proof fn lemma_pair_round_trip(x: i16)
    ensures
        le_pair_sample(sample_low_byte(x), sample_high_byte(x)) == x,
{
    let u = sample_unsigned(x);
    assert(0 <= u < 65536);
    assert(u == 256 * (u / 256) + u % 256);
    assert(le_pair_val(sample_low_byte(x), sample_high_byte(x)) == u);
}

/// Round trip: encoding a sample sequence as little-endian byte pairs
/// and decoding the result reproduces the sequence exactly.
pub proof fn lemma_encode_decode_round_trip(samples: Seq<i16>)
    ensures
        decode_le(encode_le(samples)) == samples,
{
    let bytes = encode_le(samples);
    assert(bytes.len() == 2 * samples.len());
    assert forall|i: int| 0 <= i < samples.len() implies decode_le(bytes)[i] == samples[i] by {
        assert((2 * i) % 2 == 0);
        assert((2 * i + 1) % 2 == 1);
        assert((2 * i) / 2 == i);
        assert((2 * i + 1) / 2 == i);
        assert(bytes[2 * i] == sample_low_byte(samples[i]));
        assert(bytes[2 * i + 1] == sample_high_byte(samples[i]));
        lemma_pair_round_trip(samples[i]);
    }
    assert(decode_le(bytes) =~= samples);
}

/// A trailing odd byte changes nothing: decoding a buffer of odd length
/// decodes exactly its even-length front.
pub proof fn lemma_trailing_byte_dropped(bytes: Seq<u8>)
    requires
        bytes.len() % 2 == 1,
    ensures
        decode_le(bytes) == decode_le(bytes.take(bytes.len() - 1)),
{
    let front = bytes.take(bytes.len() - 1);
    assert(front.len() / 2 == bytes.len() / 2);
    assert forall|i: int| 0 <= i < decode_le(bytes).len() implies decode_le(bytes)[i] == decode_le(
        front,
    )[i] by {
        assert(2 * i + 1 < front.len());
        assert(front[2 * i] == bytes[2 * i]);
        assert(front[2 * i + 1] == bytes[2 * i + 1]);
    }
    assert(decode_le(bytes) =~= decode_le(front));
}

} // verus!
