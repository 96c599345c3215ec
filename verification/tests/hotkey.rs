use orcavoice::hotkey::{hotkey_edge, reset_hotkey_latch, HotkeyEdge, HotkeyLatch, ShortcutState};

#[test]
fn repeated_presses_emit_one_down_edge() {
    let mut latch = HotkeyLatch::new();
    assert_eq!(
        hotkey_edge(&mut latch, ShortcutState::Pressed),
        Some(HotkeyEdge::Down)
    );
    for _ in 0..20 {
        assert_eq!(hotkey_edge(&mut latch, ShortcutState::Pressed), None);
    }
}

#[test]
fn release_is_emitted_only_after_a_leading_press() {
    let mut latch = HotkeyLatch::new();
    assert_eq!(hotkey_edge(&mut latch, ShortcutState::Released), None);
    hotkey_edge(&mut latch, ShortcutState::Pressed);
    assert_eq!(
        hotkey_edge(&mut latch, ShortcutState::Released),
        Some(HotkeyEdge::Up)
    );
    assert_eq!(hotkey_edge(&mut latch, ShortcutState::Released), None);
}

#[test]
fn reregistration_drops_an_in_flight_pair() {
    let mut latch = HotkeyLatch::new();
    hotkey_edge(&mut latch, ShortcutState::Pressed);
    reset_hotkey_latch(&mut latch);
    assert_eq!(hotkey_edge(&mut latch, ShortcutState::Released), None);
    assert_eq!(
        hotkey_edge(&mut latch, ShortcutState::Pressed),
        Some(HotkeyEdge::Down)
    );
}

#[test]
fn toggle_mode_can_consume_only_down_edges() {
    let mut latch = HotkeyLatch::new();
    let states = [
        ShortcutState::Pressed,
        ShortcutState::Released,
        ShortcutState::Pressed,
        ShortcutState::Released,
    ];
    let down_count = states
        .into_iter()
        .filter_map(|state| hotkey_edge(&mut latch, state))
        .filter(|edge| *edge == HotkeyEdge::Down)
        .count();
    assert_eq!(down_count, 2);
}

#[test]
fn push_to_talk_mode_receives_paired_edges() {
    let mut latch = HotkeyLatch::new();
    let edges = [ShortcutState::Pressed, ShortcutState::Released]
        .into_iter()
        .filter_map(|state| hotkey_edge(&mut latch, state))
        .collect::<Vec<_>>();
    assert_eq!(edges, vec![HotkeyEdge::Down, HotkeyEdge::Up]);
}

#[test]
fn any_event_sequence_yields_alternating_edges() {
    let mut latch = HotkeyLatch::new();
    let states = [
        ShortcutState::Released,
        ShortcutState::Pressed,
        ShortcutState::Pressed,
        ShortcutState::Released,
        ShortcutState::Released,
        ShortcutState::Pressed,
        ShortcutState::Pressed,
    ];
    let edges: Vec<HotkeyEdge> =
        states.into_iter().filter_map(|s| hotkey_edge(&mut latch, s)).collect();
    assert_eq!(edges, vec![HotkeyEdge::Down, HotkeyEdge::Up, HotkeyEdge::Down]);
    assert!(latch.is_down());
}
