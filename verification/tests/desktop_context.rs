use orcavoice::desktop_context::{
    normalize_selection, selection_range_count_acceptable, unavailable, validate_selection_size,
    DesktopContext, SelectionRead, MAX_SELECTION_CHARS,
};
use orcavoice::error::AppError;

const SELECTION_TOO_LONG: &str = "Selected text exceeds the 16,000-character limit.";

#[test]
fn selection_ranges_are_joined_and_outer_whitespace_is_trimmed() {
    let normalized = normalize_selection(vec!["  first".to_string(), "second  ".to_string()]);
    assert_eq!(normalized.unwrap().as_deref(), Some("first\nsecond"));
}

#[test]
fn empty_and_whitespace_only_selections_are_ignored() {
    assert_eq!(normalize_selection(vec![" \r\n ".to_string()]).unwrap(), None);
}

#[test]
fn selection_limit_counts_unicode_characters_not_bytes() {
    let allowed = "🦀".repeat(MAX_SELECTION_CHARS);
    assert!(validate_selection_size(&allowed).is_ok());
    assert!(validate_selection_size(&(allowed + "x")).is_err());
}

#[test]
fn oversized_selection_is_rejected_without_echoing_its_content() {
    let error = validate_selection_size(&"sensitive".repeat(2_001)).unwrap_err();
    assert_eq!(error.message(), format!("Output error: {SELECTION_TOO_LONG}"));
    assert!(!error.message().contains("sensitive"));
}

#[test]
fn empty_ranges_do_not_add_blank_lines() {
    let normalized =
        normalize_selection(vec!["a".to_string(), String::new(), "b".to_string()]).unwrap();
    assert_eq!(normalized.as_deref(), Some("a\nb"));
    assert_eq!(normalize_selection(Vec::new()).unwrap(), None);
}

#[test]
fn joined_selection_over_the_limit_is_refused() {
    let half = "x".repeat(8_000);
    assert!(normalize_selection(vec![half.clone(), half.clone()]).is_err());
    let exact = "x".repeat(7_999);
    let joined = normalize_selection(vec![exact.clone(), "y".repeat(8_000)]).unwrap().unwrap();
    assert_eq!(joined.chars().count(), MAX_SELECTION_CHARS);
}

#[test]
fn capture_without_a_foreground_window_fails() {
    match DesktopContext::capture_window(0, None) {
        Err(AppError::Output(m)) => {
            assert_eq!(m, "Cannot capture the target window for this recording.")
        }
        _ => panic!("expected an output error"),
    }
}

#[test]
fn unreadable_selection_falls_back_to_dictation() {
    let ctx = DesktopContext::capture_window(
        42,
        Some(unavailable("read the focused control", "E_FAIL")),
    )
    .unwrap();
    assert_eq!(ctx.target_window, 42);
    assert_eq!(ctx.selected_text, None);
    assert!(DesktopContext::capture_window(42, Some(SelectionRead::TooLong)).is_err());
    let ctx = DesktopContext::capture_window(7, Some(SelectionRead::Text(Some("hi".to_string()))))
        .unwrap();
    assert_eq!(ctx.selected_text.as_deref(), Some("hi"));
}

#[test]
fn restoring_fails_closed() {
    let ctx = DesktopContext::capture_window(9, None).unwrap();
    assert!(ctx.restore_outcome(true, true, false, true).is_ok());
    assert!(ctx.restore_outcome(true, false, true, true).is_ok());
    assert!(ctx.restore_outcome(false, true, true, true).is_err());
    assert!(ctx.restore_outcome(true, false, false, true).is_err());
    assert!(ctx.restore_outcome(true, true, true, false).is_err());
    assert!(DesktopContext::capture(true).unwrap().restore_target().is_ok());
}

#[test]
fn range_counts_are_bounded() {
    assert!(selection_range_count_acceptable(0));
    assert!(selection_range_count_acceptable(16_001));
    assert!(!selection_range_count_acceptable(16_002));
    assert!(!selection_range_count_acceptable(-1));
}
