use fnkey::wav::{encode_wav, quantize};
use std::io::Cursor;

#[test]
fn header_bytes_exact() {
    let samples: Vec<i16> = Vec::new();
    let bytes = encode_wav(&samples, 48000);
    assert_eq!(bytes.len(), 44);
    assert_eq!(&bytes[0..4], b"RIFF");
    assert_eq!(&bytes[4..8], &36u32.to_le_bytes());
    assert_eq!(&bytes[8..12], b"WAVE");
    assert_eq!(&bytes[12..16], b"fmt ");
    assert_eq!(&bytes[16..20], &16u32.to_le_bytes());
    assert_eq!(&bytes[20..22], &1u16.to_le_bytes());
    assert_eq!(&bytes[22..24], &1u16.to_le_bytes());
    assert_eq!(&bytes[24..28], &48000u32.to_le_bytes());
    assert_eq!(&bytes[28..32], &96000u32.to_le_bytes());
    assert_eq!(&bytes[32..34], &2u16.to_le_bytes());
    assert_eq!(&bytes[34..36], &16u16.to_le_bytes());
    assert_eq!(&bytes[36..40], b"data");
    assert_eq!(&bytes[40..44], &0u32.to_le_bytes());
}

#[test]
fn sample_bytes_little_endian() {
    let samples: Vec<i16> = vec![1, -2];
    let bytes = encode_wav(&samples, 8000);
    assert_eq!(bytes.len(), 48);
    assert_eq!(&bytes[4..8], &40u32.to_le_bytes());
    assert_eq!(&bytes[40..44], &4u32.to_le_bytes());
    assert_eq!(&bytes[44..48], &[0x01, 0x00, 0xfe, 0xff]);
}

#[test]
fn quantize_rounds_and_clamps() {
    let samples = vec![0i64, 32768, -32768, 16384, -16384, 1];
    let pcm = quantize(&samples);
    // round(0.5 * 32767) = round(16383.5) rounds half away from zero.
    assert_eq!(pcm, vec![0i16, 32767, -32767, 16384, -16384, 1]);
}

#[test]
fn round_trip_with_standard_decoder() {
    let pcm: Vec<i16> = vec![0, 1000, -1000, 32767, -32768, 123];
    let bytes = encode_wav(&pcm, 44100);
    let mut reader = hound::WavReader::new(Cursor::new(bytes)).expect("valid container");
    let spec = reader.spec();
    assert_eq!(spec.channels, 1);
    assert_eq!(spec.sample_rate, 44100);
    assert_eq!(spec.bits_per_sample, 16);
    assert_eq!(spec.sample_format, hound::SampleFormat::Int);
    let decoded: Vec<i16> = reader.samples::<i16>().map(|s| s.unwrap()).collect();
    assert_eq!(decoded, pcm);
}

#[test]
fn round_trip_matches_quantization_of_floats() {
    let floats = [0.0f32, 0.5, -0.25, 1.0, -1.0, 0.1234];
    let fixed: Vec<i64> = floats
        .iter()
        .map(|&s| ((s as f64 * 32768.0).round() as i64).clamp(-32768, 32768))
        .collect();
    let pcm = quantize(&fixed);
    let bytes = encode_wav(&pcm, 16000);
    let mut reader = hound::WavReader::new(Cursor::new(bytes)).expect("valid container");
    assert_eq!(reader.spec().sample_rate, 16000);
    assert_eq!(reader.spec().channels, 1);
    let decoded: Vec<i16> = reader.samples::<i16>().map(|s| s.unwrap()).collect();
    assert_eq!(decoded.len(), floats.len());
    for (d, s) in decoded.iter().zip(floats.iter()) {
        let ideal = (*s as f64 * 32767.0).round() as i64;
        assert!(
            ((*d as i64) - ideal).abs() <= 1,
            "decoded {d} vs ideal {ideal}"
        );
    }
}
