use orcavoice::error::AppError;
use orcavoice::history::{record_entry, MAX_HISTORY};
use orcavoice::lifecycle::{autostart_change, feedback_tone, FeedbackTone};
use orcavoice::platform::platform_info;
use orcavoice::storage::{
    quarantine_name, quarantine_name_at, temp_path_for, FIRST_UTC_SECOND, LAST_UTC_SECOND,
};

#[test]
fn history_keeps_newest_first_and_bounded() {
    let mut history: Vec<u32> = (0..MAX_HISTORY as u32).collect();
    record_entry(&mut history, 999);
    assert_eq!(history.len(), MAX_HISTORY);
    assert_eq!(history[0], 999);
    assert_eq!(history[1], 0);
    assert_eq!(history[MAX_HISTORY - 1], MAX_HISTORY as u32 - 2);
    let mut short = vec![1, 2];
    record_entry(&mut short, 0);
    assert_eq!(short, vec![0, 1, 2]);
}

#[test]
fn storage_file_names() {
    assert_eq!(temp_path_for("data.json"), "data.json.tmp");
    assert_eq!(
        quarantine_name("history.json", "20260812-101500"),
        "history.json.corrupt-20260812-101500"
    );
}

#[test]
fn quarantine_names_carry_the_utc_time() {
    assert_eq!(
        quarantine_name_at("history.json", 0).as_deref(),
        Some("history.json.corrupt-19700101-000000")
    );
    assert_eq!(
        quarantine_name_at("settings.json", 1_786_529_700).as_deref(),
        Some("settings.json.corrupt-20260812-101500")
    );
    assert_eq!(quarantine_name_at("x", i64::MAX), None);
}

#[test]
fn quarantine_names_exist_across_the_calendar_range() {
    assert!(quarantine_name_at("x", LAST_UTC_SECOND).is_some());
    assert_eq!(quarantine_name_at("x", LAST_UTC_SECOND + 1), None);
    assert!(quarantine_name_at("x", FIRST_UTC_SECOND).is_some());
    assert_eq!(quarantine_name_at("x", FIRST_UTC_SECOND - 1), None);
    assert_eq!(
        quarantine_name_at("x", -1).as_deref(),
        Some("x.corrupt-19691231-235959")
    );
}

#[test]
fn platform_notes() {
    assert_eq!(platform_info("linux").notes.len(), 1);
    assert!(platform_info("macos").notes[0].contains("Accessibility"));
    let w = platform_info("windows");
    assert!(w.notes.is_empty() && w.clipboard_paste_supported && w.keyboard_fallback_supported);
    assert_eq!(w.os, "windows");
}

#[test]
fn lifecycle_decisions() {
    assert_eq!(feedback_tone("stop"), FeedbackTone::Stop);
    assert_eq!(feedback_tone("start"), FeedbackTone::Start);
    assert_eq!(feedback_tone("anything"), FeedbackTone::Start);
    assert_eq!(autostart_change(true, false, true), None);
    assert_eq!(autostart_change(false, true, true), None);
    assert_eq!(autostart_change(false, false, true), Some(true));
    assert_eq!(autostart_change(false, true, false), Some(false));
}

#[test]
fn error_messages_carry_their_label() {
    assert_eq!(AppError::Audio("x".into()).message(), "Audio error: x");
    assert_eq!(AppError::Config("x".into()).message(), "Configuration error: x");
    assert_eq!(AppError::Secret("x".into()).message(), "Secret error: x");
}
