use fnkey::keys::KeyEdge;
use fnkey::orchestrator::{should_process, CaptureAction, Orchestrator, Phase};

#[test]
fn press_starts_release_stops() {
    let mut o = Orchestrator::new();
    assert_eq!(o.phase, Phase::Idle);
    assert_eq!(o.on_edge(KeyEdge::Pressed), CaptureAction::StartCapture);
    assert_eq!(o.phase, Phase::Recording);
    assert_eq!(
        o.on_edge(KeyEdge::Released { polish: true }),
        CaptureAction::StopCapture { polish: true }
    );
    assert_eq!(o.phase, Phase::Idle);
}

#[test]
fn unexpected_edges_are_ignored() {
    let mut o = Orchestrator::new();
    assert_eq!(
        o.on_edge(KeyEdge::Released { polish: false }),
        CaptureAction::Ignore
    );
    assert_eq!(o.phase, Phase::Idle);
    o.on_edge(KeyEdge::Pressed);
    assert_eq!(o.on_edge(KeyEdge::Pressed), CaptureAction::Ignore);
    assert_eq!(o.phase, Phase::Recording);
}

#[test]
fn empty_capture_is_not_processed() {
    let mut o = Orchestrator::new();
    assert_eq!(o.on_edge(KeyEdge::Pressed), CaptureAction::StartCapture);
    let stop = o.on_edge(KeyEdge::Released { polish: false });
    assert_eq!(stop, CaptureAction::StopCapture { polish: false });
    // The capture came back empty: nothing is handed to processing, so no
    // request is sent and the clipboard stays untouched.
    assert!(!should_process(0));
}

#[test]
fn nonempty_capture_is_processed() {
    assert!(should_process(1));
    assert!(should_process(48000));
}
