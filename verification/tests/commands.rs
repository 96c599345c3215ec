use orcavoice::commands::{detect_open, open_application, LaunchOutcome};
use orcavoice::error::AppError;

#[test]
fn empty_text_returns_none() {
    assert_eq!(detect_open(""), None);
    assert_eq!(detect_open("   "), None);
}

#[test]
fn no_prefix_returns_none() {
    assert_eq!(detect_open("hello world"), None);
    assert_eq!(detect_open("write some code"), None);
}

#[test]
fn open_alone_returns_none() {
    assert_eq!(detect_open("open"), None);
    assert_eq!(detect_open("OPEN"), None);
    assert_eq!(detect_open("open "), None);
}

#[test]
fn open_prefix_extracts_app_name() {
    assert_eq!(detect_open("open chrome"), Some("chrome".to_string()));
    assert_eq!(
        detect_open("open visual studio code"),
        Some("visual studio code".to_string()),
    );
}

#[test]
fn launch_prefix_extracts_app_name() {
    assert_eq!(detect_open("launch firefox"), Some("firefox".to_string()));
}

#[test]
fn start_prefix_extracts_app_name() {
    assert_eq!(detect_open("start notepad"), Some("notepad".to_string()));
}

#[test]
fn case_insensitive_prefix() {
    assert_eq!(detect_open("OPEN CHROME"), Some("CHROME".to_string()));
    assert_eq!(detect_open("Launch Firefox"), Some("Firefox".to_string()));
}

#[test]
fn surrounding_whitespace_and_inner_spacing_are_trimmed() {
    assert_eq!(detect_open("  \topen   notepad  \n"), Some("notepad".to_string()));
    assert_eq!(detect_open("opener chrome"), None);
    assert_eq!(detect_open("please open chrome"), None);
}

#[test]
fn non_ascii_names_survive_case_folding() {
    assert_eq!(detect_open("Start Ärzte App"), Some("Ärzte App".to_string()));
}

#[test]
fn launch_success_is_ok() {
    assert!(open_application("notepad", LaunchOutcome::Exited(true)).is_ok());
}

#[test]
fn launch_failure_names_the_application() {
    match open_application("notepad", LaunchOutcome::Exited(false)) {
        Err(AppError::Output(m)) => assert_eq!(m, "Could not find or launch \"notepad\""),
        _ => panic!("expected an output error"),
    }
    match open_application("notepad", LaunchOutcome::SpawnFailed("not found".to_string())) {
        Err(AppError::Output(m)) => assert_eq!(m, "Cannot launch \"notepad\": not found"),
        _ => panic!("expected an output error"),
    }
}
