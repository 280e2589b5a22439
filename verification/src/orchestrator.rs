//! The recording orchestrator: the state machine that drives capture from
//! key edges, and the processing that a completed recording goes through.
//!
//! The orchestrator never blocks the key-event path: a release only decides
//! that capture stops; the enhancement, encoding and network stages run in a
//! background unit that owns a private copy of the captured buffer. An empty
//! capture (no device, nothing recorded) is dropped silently.

use crate::enhance::{
    enhance, lemma_enhanced_in_range, samples_in_range, spec_enhance, COEFF_MAX, MAX_SAMPLES,
};
use crate::keys::KeyEdge;
use crate::wav::{encode_wav, quantize, spec_quantize, spec_wav};
use vstd::prelude::*;

verus! {

/// The orchestrator's phase: waiting for a press, or recording until the
/// release. Processing of a finished recording runs in the background and
/// does not block the next press.
#[derive(Clone, Copy, PartialEq, Eq, Structural, Debug)]
pub enum Phase {
    Idle,
    Recording,
}

/// What the surrounding machinery must do after an edge: begin capture,
/// end capture and hand the buffer to processing, or nothing.
#[derive(Clone, Copy, PartialEq, Eq, Structural, Debug)]
pub enum CaptureAction {
    StartCapture,
    StopCapture { polish: bool },
    Ignore,
}

/// The top-level state machine driving capture from key edges.
#[derive(Clone, Copy, PartialEq, Eq, Structural, Debug)]
pub struct Orchestrator {
    pub phase: Phase,
}

/// One transition: a press while idle starts capture; a release while
/// recording stops it, carrying the polish flag; anything else is ignored.
pub open spec fn spec_on_edge(o: Orchestrator, e: KeyEdge) -> (Orchestrator, CaptureAction) {
    match (o.phase, e) {
        (Phase::Idle, KeyEdge::Pressed) => (
            Orchestrator { phase: Phase::Recording },
            CaptureAction::StartCapture,
        ),
        (Phase::Recording, KeyEdge::Released { polish }) => (
            Orchestrator { phase: Phase::Idle },
            CaptureAction::StopCapture { polish },
        ),
        _ => (o, CaptureAction::Ignore),
    }
}

/// A completed recording is processed only when it holds any samples.
pub open spec fn spec_should_process(sample_count: int) -> bool {
    sample_count != 0
}

impl Orchestrator {
    /// A fresh orchestrator, idle.
    pub fn new() -> (o: Self)
        ensures
            o.phase == Phase::Idle,
    {
        Orchestrator { phase: Phase::Idle }
    }

    /// Feeds one key edge and returns the capture action it demands.
    pub fn on_edge(&mut self, e: KeyEdge) -> (a: CaptureAction)
        ensures
            (*final(self), a) == spec_on_edge(*old(self), e),
    {
        match (self.phase, e) {
            (Phase::Idle, KeyEdge::Pressed) => {
                self.phase = Phase::Recording;
                CaptureAction::StartCapture
            },
            (Phase::Recording, KeyEdge::Released { polish }) => {
                self.phase = Phase::Idle;
                CaptureAction::StopCapture { polish }
            },
            _ => CaptureAction::Ignore,
        }
    }
}

/// Decides whether a completed recording is processed at all.
pub fn should_process(sample_count: usize) -> (b: bool)
    ensures
        b == spec_should_process(sample_count as int),
{
    sample_count != 0
}

/// An empty capture ends the session before any processing: a press
/// followed by a release starts and stops capture, and a buffer without
/// samples is never handed to the processing stages, so no request is sent
/// and the clipboard is never touched.
pub proof fn lemma_empty_capture_no_processing(polish: bool)
    ensures
        ({
            let idle = Orchestrator { phase: Phase::Idle };
            let pressed = spec_on_edge(idle, KeyEdge::Pressed);
            let released = spec_on_edge(pressed.0, KeyEdge::Released { polish });
            &&& pressed.1 == CaptureAction::StartCapture
            &&& released.1 == (CaptureAction::StopCapture { polish })
            &&& released.0.phase == Phase::Idle
            &&& !spec_should_process(0)
        }),
{
}

/// The upload a recording becomes: the enhanced signal, quantized to 16-bit
/// PCM, in a mono container at the capture rate.
pub open spec fn spec_upload(samples: Seq<i64>, coeff: i64, sample_rate: u32) -> Seq<u8> {
    spec_wav(spec_quantize(spec_enhance(samples, coeff)), sample_rate)
}

/// Runs the in-memory half of the background unit: enhances the captured
/// buffer with the given filter coefficient, quantizes it, and encodes the
/// container to upload.
pub fn prepare_upload(samples: &Vec<i64>, coeff: i64, sample_rate: u32) -> (r: Vec<u8>)
    requires
        samples_in_range(samples@),
        samples@.len() <= MAX_SAMPLES,
        0 <= coeff <= COEFF_MAX,
        2 * sample_rate <= u32::MAX,
    ensures
        r@ == spec_upload(samples@, coeff, sample_rate),
{
    let enhanced = enhance(samples, coeff);
    proof {
        lemma_enhanced_in_range(samples@, coeff);
    }
    let pcm = quantize(&enhanced);
    encode_wav(&pcm, sample_rate)
}

} // verus!
