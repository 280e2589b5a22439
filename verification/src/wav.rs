//! 16-bit PCM container encoding.
//!
//! Fixed-point samples (full scale [`SAMPLE_ONE`]) are quantized to 16-bit
//! signed integers by `round(s * 32767)`, clamped to the 16-bit range, and
//! written into a standard uncompressed mono RIFF/WAVE container at the
//! given sample rate, entirely in memory.

use crate::enhance::{samples_in_range, SAMPLE_ONE};
use vstd::arithmetic::div_mod::{lemma_div_pos_is_pos, lemma_multiply_divide_lt};
use vstd::prelude::*;

verus! {

/// Largest 16-bit PCM sample value.
pub const PCM_MAX: i64 = 32767;

/// Rounding offset: half of [`SAMPLE_ONE`].
pub const PCM_HALF: i64 = 16384;

/// `round(v * 32767 / 32768)`, rounding half away from zero, clamped to the
/// 16-bit signed range.
pub open spec fn spec_quantized(v: int) -> int {
    let n = v * PCM_MAX;
    let r = if n >= 0 {
        (n + PCM_HALF) / (SAMPLE_ONE as int)
    } else {
        -((-n + PCM_HALF) / (SAMPLE_ONE as int))
    };
    if r > PCM_MAX {
        PCM_MAX as int
    } else if r < -PCM_MAX - 1 {
        -PCM_MAX - 1
    } else {
        r
    }
}

/// Quantization of a whole buffer.
pub open spec fn spec_quantize(s: Seq<i64>) -> Seq<i16> {
    Seq::new(s.len(), |i: int| spec_quantized(s[i] as int) as i16)
}

/// Quantized values always fit 16 bits.
pub proof fn lemma_quantized_fits(v: int)
    ensures
        -32768 <= spec_quantized(v) <= 32767,
{
}

/// Quantizes a full-scale fixed-point buffer to 16-bit PCM samples.
pub fn quantize(samples: &Vec<i64>) -> (out: Vec<i16>)
    requires
        samples_in_range(samples@),
    ensures
        out@ == spec_quantize(samples@),
{
    let n = samples.len();
    let mut out: Vec<i16> = Vec::new();
    let mut k: usize = 0;
    while k < n
        invariant
            n == samples@.len(),
            samples_in_range(samples@),
            0 <= k <= n,
            out@.len() == k,
            forall|j: int| 0 <= j < k ==> out@[j] == spec_quantize(samples@)[j],
        decreases n - k,
    {
        let s = samples[k];
        let num = s * PCM_MAX;
        let r = if num >= 0 {
            proof {
                lemma_multiply_divide_lt(num as int + PCM_HALF, SAMPLE_ONE as int,
                    SAMPLE_ONE as int);
                lemma_div_pos_is_pos(num as int + PCM_HALF, SAMPLE_ONE as int);
            }
            (num + PCM_HALF) / SAMPLE_ONE
        } else {
            proof {
                lemma_multiply_divide_lt(-(num as int) + PCM_HALF, SAMPLE_ONE as int,
                    SAMPLE_ONE as int);
                lemma_div_pos_is_pos(-(num as int) + PCM_HALF, SAMPLE_ONE as int);
            }
            -((-num + PCM_HALF) / SAMPLE_ONE)
        };
        let c = if r > PCM_MAX {
            PCM_MAX
        } else if r < -PCM_MAX - 1 {
            -PCM_MAX - 1
        } else {
            r
        };
        assert(c == spec_quantized(s as int));
        out.push(c as i16);
        k = k + 1;
    }
    proof {
        assert(out@ =~= spec_quantize(samples@));
    }
    out
}

/// Little-endian bytes of a 16-bit value.
pub open spec fn spec_le16(x: u16) -> Seq<u8> {
    seq![(x & 0xff) as u8, ((x >> 8) & 0xff) as u8]
}

/// Little-endian bytes of a 32-bit value.
pub open spec fn spec_le32(x: u32) -> Seq<u8> {
    seq![
        (x & 0xff) as u8,
        ((x >> 8) & 0xff) as u8,
        ((x >> 16) & 0xff) as u8,
        ((x >> 24) & 0xff) as u8,
    ]
}

/// The sample data chunk: each sample as two little-endian bytes.
pub open spec fn spec_sample_bytes(s: Seq<i16>) -> Seq<u8>
    decreases s.len(),
{
    if s.len() == 0 {
        Seq::empty()
    } else {
        spec_sample_bytes(s.drop_last()) + spec_le16(s.last() as u16)
    }
}

/// The 44-byte container header for mono 16-bit PCM: RIFF chunk, format
/// chunk (PCM, one channel, the given rate), and the data chunk header.
pub open spec fn spec_wav_header(sample_rate: u32, n: int) -> Seq<u8> {
    seq![0x52u8, 0x49u8, 0x46u8, 0x46u8]  // "RIFF"
     + spec_le32(
        (36 + 2 * n) as u32,
    ) + seq![0x57u8, 0x41u8, 0x56u8, 0x45u8]  // "WAVE"
     + seq![0x66u8, 0x6du8, 0x74u8, 0x20u8]  // "fmt "
     + spec_le32(16) + spec_le16(1)  // PCM format tag
     + spec_le16(1)  // one channel
     + spec_le32(sample_rate) + spec_le32((2 * sample_rate) as u32)  // byte rate
     + spec_le16(2)  // block align
     + spec_le16(16)  // bits per sample
     + seq![0x64u8, 0x61u8, 0x74u8, 0x61u8]  // "data"
     + spec_le32((2 * n) as u32)
}

/// A complete mono 16-bit PCM file: header followed by the samples.
pub open spec fn spec_wav(s: Seq<i16>, sample_rate: u32) -> Seq<u8> {
    spec_wav_header(sample_rate, s.len() as int) + spec_sample_bytes(s)
}

/// Appends the two little-endian bytes of `x`.
fn push_le16(out: &mut Vec<u8>, x: u16)
    ensures
        final(out)@ == old(out)@ + spec_le16(x),
{
    assert((x & 0xff) < 256 && ((x >> 8) & 0xff) < 256) by (bit_vector);
    out.push((x & 0xff) as u8);
    out.push(((x >> 8) & 0xff) as u8);
    assert(out@ =~= old(out)@ + spec_le16(x));
}

/// Appends the four little-endian bytes of `x`.
fn push_le32(out: &mut Vec<u8>, x: u32)
    ensures
        final(out)@ == old(out)@ + spec_le32(x),
{
    assert((x & 0xff) < 256 && ((x >> 8) & 0xff) < 256 && ((x >> 16) & 0xff) < 256 && ((x >> 24)
        & 0xff) < 256) by (bit_vector);
    out.push((x & 0xff) as u8);
    out.push(((x >> 8) & 0xff) as u8);
    out.push(((x >> 16) & 0xff) as u8);
    out.push(((x >> 24) & 0xff) as u8);
    assert(out@ =~= old(out)@ + spec_le32(x));
}

/// Encodes 16-bit samples into a mono PCM container at the given rate.
///
/// The length bound keeps the RIFF chunk sizes within their 32-bit fields;
/// the rate bound keeps the byte-rate field within its 32-bit field.
pub fn encode_wav(samples: &Vec<i16>, sample_rate: u32) -> (r: Vec<u8>)
    requires
        2 * samples@.len() + 36 <= u32::MAX,
        2 * sample_rate <= u32::MAX,
    ensures
        r@ == spec_wav(samples@, sample_rate),
{
    let n = samples.len();
    let data_size: u32 = 2 * (n as u32);
    let mut out: Vec<u8> = Vec::new();
    out.push(0x52);
    out.push(0x49);
    out.push(0x46);
    out.push(0x46);
    push_le32(&mut out, 36 + data_size);
    out.push(0x57);
    out.push(0x41);
    out.push(0x56);
    out.push(0x45);
    out.push(0x66);
    out.push(0x6d);
    out.push(0x74);
    out.push(0x20);
    push_le32(&mut out, 16);
    push_le16(&mut out, 1);
    push_le16(&mut out, 1);
    push_le32(&mut out, sample_rate);
    push_le32(&mut out, 2 * sample_rate);
    push_le16(&mut out, 2);
    push_le16(&mut out, 16);
    out.push(0x64);
    out.push(0x61);
    out.push(0x74);
    out.push(0x61);
    push_le32(&mut out, data_size);
    proof {
        assert(out@ =~= spec_wav_header(sample_rate, n as int));
    }
    let ghost header = out@;
    let mut k: usize = 0;
    while k < n
        invariant
            n == samples@.len(),
            0 <= k <= n,
            out@ == header + spec_sample_bytes(samples@.take(k as int)),
        decreases n - k,
    {
        proof {
            assert(samples@.take(k as int + 1).drop_last() =~= samples@.take(k as int));
            assert(samples@.take(k as int + 1).last() == samples@[k as int]);
        }
        let s = samples[k];
        push_le16(&mut out, #[verifier::truncate] (s as u16));
        k = k + 1;
        proof {
            assert(out@ =~= header + spec_sample_bytes(samples@.take(k as int)));
        }
    }
    proof {
        assert(samples@.take(n as int) =~= samples@);
    }
    out
}

} // verus!
