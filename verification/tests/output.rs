use orcavoice::output::{check_paste_text, unicode_events, UnicodeEvent, INPUTS_PER_CHUNK};

#[test]
fn unicode_events_emit_down_and_up_for_surrogate_pairs() {
    let events = unicode_events("A🦀");
    let units = "A🦀".encode_utf16().collect::<Vec<_>>();
    assert_eq!(events.len(), units.len() * 2);
    for (pair, unit) in events.chunks_exact(2).zip(units) {
        assert_eq!(pair[0], UnicodeEvent { code_unit: unit, key_up: false });
        assert_eq!(pair[1], UnicodeEvent { code_unit: unit, key_up: true });
    }
}

#[test]
fn line_endings_are_normalized_to_carriage_return_events() {
    let events = unicode_events("a\r\nb\rc\nd");
    let pressed = events
        .iter()
        .filter(|event| !event.key_up)
        .map(|event| event.code_unit)
        .collect::<Vec<_>>();
    assert_eq!(pressed, "a\rb\rc\rd".encode_utf16().collect::<Vec<_>>());
}

#[test]
fn chunks_never_split_a_key_down_from_its_key_up() {
    let events = unicode_events(&"x".repeat(INPUTS_PER_CHUNK));
    for chunk in events.chunks(INPUTS_PER_CHUNK) {
        assert_eq!(chunk.len() % 2, 0);
        assert!(!chunk.first().unwrap().key_up);
        assert!(chunk.last().unwrap().key_up);
    }
}

#[test]
fn surrogate_pair_has_exact_code_units() {
    let events = unicode_events("🦀");
    let pressed: Vec<u16> = events.iter().filter(|e| !e.key_up).map(|e| e.code_unit).collect();
    assert_eq!(pressed, vec![0xD83E, 0xDD80]);
}

#[test]
fn carriage_return_before_crlf_types_two_returns() {
    let events = unicode_events("\r\r\n");
    let pressed: Vec<u16> = events.iter().filter(|e| !e.key_up).map(|e| e.code_unit).collect();
    assert_eq!(pressed, vec![13, 13]);
}

#[test]
fn blank_text_is_not_pasted() {
    assert!(check_paste_text("  \n").is_err());
    assert!(check_paste_text("").is_err());
    assert!(check_paste_text(" hi ").is_ok());
}

#[test]
fn partial_insertion_is_reported() {
    assert!(orcavoice::output::check_inserted(128, 128).is_ok());
    match orcavoice::output::check_inserted(100, 128) {
        Err(orcavoice::error::AppError::Output(m)) => assert_eq!(
            m,
            "Windows inserted 100 of 128 text-input events; the target may be elevated."
        ),
        _ => panic!("expected an output error"),
    }
    match orcavoice::output::check_inserted(0, 7) {
        Err(e) => assert!(e.message().contains("inserted 0 of 7")),
        Ok(()) => panic!("expected an error"),
    }
}
