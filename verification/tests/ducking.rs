use orcavoice::ducking::{duck_audio, restore_audio, unduck_audio, AudioSession, DuckingState, SessionRepair};

fn session(process_id: u32, muted: bool, silent: bool) -> AudioSession {
    AudioSession { process_id, muted, silent }
}

#[test]
fn ducking_mutes_other_unmuted_processes_once() {
    let mut state = DuckingState::new();
    let sessions = [
        session(0, false, false),
        session(10, false, false),
        session(20, true, false),
        session(30, false, false),
        session(10, false, false),
    ];
    let mute = duck_audio(&mut state, &sessions, 30);
    assert_eq!(mute, vec![false, true, false, false, true]);
    assert_eq!(state.muted_process_ids(), vec![10]);
}

#[test]
fn unducking_restores_exactly_what_was_ducked() {
    let mut state = DuckingState::new();
    let before = [session(10, false, false), session(20, true, false), session(40, false, false)];
    duck_audio(&mut state, &before, 1);
    let after = [session(10, true, false), session(20, true, false), session(40, true, false)];
    assert_eq!(unduck_audio(&mut state, &after), vec![true, false, true]);
    assert!(state.muted_process_ids().is_empty());
    assert_eq!(unduck_audio(&mut state, &after), vec![false, false, false]);
}

#[test]
fn recovery_unmutes_everything_and_revives_silent_sessions() {
    let mut state = DuckingState::new();
    duck_audio(&mut state, &[session(5, false, false)], 1);
    let repairs = restore_audio(&mut state, &[session(5, true, false), session(6, false, true)]);
    assert_eq!(
        repairs,
        vec![
            SessionRepair { unmute: true, reset_volume: false },
            SessionRepair { unmute: false, reset_volume: true },
        ]
    );
    assert!(state.muted_process_ids().is_empty());
}
