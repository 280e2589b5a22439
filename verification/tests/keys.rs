use fnkey::keys::{
    hotkey_mask, polish_trigger, Hotkey, KeyEdge, KeyStateTracker, COMMAND_MASK, CONTROL_MASK,
    FN_MASK, OPTION_MASK, SHIFT_MASK,
};

#[test]
fn press_release_edges() {
    let mut t = KeyStateTracker::new();
    assert_eq!(t.on_snapshot(0, FN_MASK, CONTROL_MASK), None);
    assert_eq!(
        t.on_snapshot(FN_MASK, FN_MASK, CONTROL_MASK),
        Some(KeyEdge::Pressed)
    );
    assert_eq!(t.on_snapshot(FN_MASK, FN_MASK, CONTROL_MASK), None);
    assert_eq!(
        t.on_snapshot(0, FN_MASK, CONTROL_MASK),
        Some(KeyEdge::Released { polish: false })
    );
}

#[test]
fn edges_alternate_over_noisy_stream() {
    let snaps = vec![
        0u64, FN_MASK, FN_MASK, 0, 0, FN_MASK, 0, FN_MASK, FN_MASK, FN_MASK, 0,
    ];
    let mut t = KeyStateTracker::new();
    let mut edges = Vec::new();
    for s in snaps {
        if let Some(e) = t.on_snapshot(s, FN_MASK, CONTROL_MASK) {
            edges.push(e);
        }
    }
    assert_eq!(edges.len(), 6);
    for (i, e) in edges.iter().enumerate() {
        if i % 2 == 0 {
            assert_eq!(*e, KeyEdge::Pressed);
        } else {
            assert!(matches!(*e, KeyEdge::Released { .. }));
        }
    }
}

#[test]
fn polish_latches_mid_session() {
    let mut t = KeyStateTracker::new();
    assert_eq!(
        t.on_snapshot(FN_MASK, FN_MASK, CONTROL_MASK),
        Some(KeyEdge::Pressed)
    );
    assert_eq!(t.on_snapshot(FN_MASK | CONTROL_MASK, FN_MASK, CONTROL_MASK), None);
    // The latch holds even after the polish modifier is let go.
    assert_eq!(t.on_snapshot(FN_MASK, FN_MASK, CONTROL_MASK), None);
    assert_eq!(
        t.on_snapshot(0, FN_MASK, CONTROL_MASK),
        Some(KeyEdge::Released { polish: true })
    );
}

#[test]
fn polish_latches_on_press_snapshot() {
    let mut t = KeyStateTracker::new();
    assert_eq!(
        t.on_snapshot(FN_MASK | CONTROL_MASK, FN_MASK, CONTROL_MASK),
        Some(KeyEdge::Pressed)
    );
    assert_eq!(
        t.on_snapshot(0, FN_MASK, CONTROL_MASK),
        Some(KeyEdge::Released { polish: true })
    );
}

#[test]
fn polish_latch_resets_on_next_press() {
    let mut t = KeyStateTracker::new();
    t.on_snapshot(FN_MASK | CONTROL_MASK, FN_MASK, CONTROL_MASK);
    assert_eq!(
        t.on_snapshot(0, FN_MASK, CONTROL_MASK),
        Some(KeyEdge::Released { polish: true })
    );
    assert_eq!(
        t.on_snapshot(FN_MASK, FN_MASK, CONTROL_MASK),
        Some(KeyEdge::Pressed)
    );
    assert_eq!(
        t.on_snapshot(0, FN_MASK, CONTROL_MASK),
        Some(KeyEdge::Released { polish: false })
    );
}

#[test]
fn no_edge_without_level_change() {
    let mut t = KeyStateTracker::new();
    assert_eq!(t.on_snapshot(0, FN_MASK, CONTROL_MASK), None);
    assert_eq!(t.on_snapshot(CONTROL_MASK, FN_MASK, CONTROL_MASK), None);
    t.on_snapshot(FN_MASK, FN_MASK, CONTROL_MASK);
    assert_eq!(t.on_snapshot(FN_MASK | SHIFT_MASK, FN_MASK, CONTROL_MASK), None);
}

#[test]
fn hotkey_masks_match_flag_bits() {
    assert_eq!(hotkey_mask(Hotkey::FnKey), FN_MASK);
    assert_eq!(hotkey_mask(Hotkey::OptionKey), OPTION_MASK);
    assert_eq!(hotkey_mask(Hotkey::ControlKey), CONTROL_MASK);
    assert_eq!(hotkey_mask(Hotkey::ShiftKey), SHIFT_MASK);
    assert_eq!(hotkey_mask(Hotkey::CommandKey), COMMAND_MASK);
    assert_eq!(FN_MASK, 0x800000);
    assert_eq!(OPTION_MASK, 0x80000);
}

#[test]
fn polish_trigger_avoids_hotkey() {
    assert_eq!(polish_trigger(Hotkey::FnKey), Hotkey::ControlKey);
    assert_eq!(polish_trigger(Hotkey::OptionKey), Hotkey::ControlKey);
    assert_eq!(polish_trigger(Hotkey::ShiftKey), Hotkey::ControlKey);
    assert_eq!(polish_trigger(Hotkey::CommandKey), Hotkey::ControlKey);
    assert_eq!(polish_trigger(Hotkey::ControlKey), Hotkey::ShiftKey);
}
