//! One full session: a tone is captured, enhanced, encoded, "transcribed"
//! by a canned response, and delivered.

use fnkey::delivery::{get_paste_keycode, paste_plan, QWERTY_V_KEYCODE};
use fnkey::enhance::{COEFF_MAX, COEFF_ONE, SAMPLE_ONE};
use fnkey::keys::{KeyEdge, KeyStateTracker, CONTROL_MASK, FN_MASK};
use fnkey::orchestrator::{prepare_upload, should_process, CaptureAction, Orchestrator};
use fnkey::text::{extract_transcript, final_text};
use std::io::Cursor;

#[test]
fn tone_session_end_to_end() {
    // Hold the hotkey...
    let mut tracker = KeyStateTracker::new();
    let mut orchestrator = Orchestrator::new();
    let edge = tracker.on_snapshot(FN_MASK, FN_MASK, CONTROL_MASK).unwrap();
    assert_eq!(orchestrator.on_edge(edge), CaptureAction::StartCapture);

    // ...capture one second of a 440 Hz tone at amplitude 0.3, 48 kHz...
    let rate = 48000u32;
    let samples: Vec<i64> = (0..rate as usize)
        .map(|i| {
            let t = i as f32 / rate as f32;
            let s = 0.3 * (2.0 * std::f32::consts::PI * 440.0 * t).sin();
            ((s as f64 * SAMPLE_ONE as f64).round() as i64).clamp(-SAMPLE_ONE, SAMPLE_ONE)
        })
        .collect();

    // ...and release without the polish modifier.
    let edge = tracker.on_snapshot(0, FN_MASK, CONTROL_MASK).unwrap();
    assert_eq!(edge, KeyEdge::Released { polish: false });
    assert_eq!(
        orchestrator.on_edge(edge),
        CaptureAction::StopCapture { polish: false }
    );
    assert!(should_process(samples.len()));

    // The background unit enhances and encodes.
    let a = (-2.0 * std::f32::consts::PI * 80.0 / rate as f32).exp();
    let coeff = (a as f64 * COEFF_ONE as f64).round() as i64;
    assert!(0 < coeff && coeff <= COEFF_MAX);
    let wav = prepare_upload(&samples, coeff, rate);

    // The upload is a valid mono 16-bit container at the capture rate.
    let mut reader = hound::WavReader::new(Cursor::new(wav)).expect("valid container");
    let spec = reader.spec();
    assert_eq!(spec.channels, 1);
    assert_eq!(spec.sample_rate, rate);
    assert_eq!(spec.bits_per_sample, 16);
    let decoded: Vec<i16> = reader.samples::<i16>().map(|s| s.unwrap()).collect();
    assert_eq!(decoded.len(), rate as usize);
    let peak = decoded.iter().map(|&v| (v as i32).abs()).max().unwrap();
    assert!(peak <= 32767);
    assert!(peak > 2048, "the tone should survive the filter, peak {peak}");
    let mean: i64 = decoded.iter().map(|&v| v as i64).sum::<i64>() / decoded.len() as i64;
    assert!(mean.abs() < 512, "offset should be removed, mean {mean}");

    // The transcription service answers; no polish was requested.
    let transcript = extract_transcript(true, &b"test input".to_vec()).unwrap();
    let delivered = final_text(transcript, None);
    assert_eq!(delivered, b"test input".to_vec());

    // Clipboard write succeeds, so the paste keystroke is sent with the
    // layout-resolved keycode for 'v'.
    assert_eq!(get_paste_keycode(Some(47)), 47);
    assert_eq!(get_paste_keycode(None), QWERTY_V_KEYCODE);
    assert_eq!(paste_plan(true, Some(47)), Some(47));
    assert_eq!(paste_plan(false, Some(47)), None);
}
