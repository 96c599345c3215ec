use orcavoice::settings::{DictationMode, SpeechProvider};
use orcavoice::stt::{
    enhancement_content, form_language, form_prompt, mode_system_prompt, opening_text,
    parse_transcript_text, polished_or_raw, provider_label, transcript_action,
    transcription_failed, TranscriptAction,
};
use orcavoice::error::AppError;

#[test]
fn raw_mode_has_no_system_prompt() {
    assert!(mode_system_prompt(DictationMode::Raw, "").is_none());
}

#[test]
fn grammar_mode_has_system_prompt() {
    assert!(mode_system_prompt(DictationMode::Grammar, "").is_some());
}

#[test]
fn custom_mode_without_instruction_has_no_prompt() {
    assert!(mode_system_prompt(DictationMode::Custom, "").is_none());
}

#[test]
fn custom_mode_with_instruction_has_prompt() {
    assert!(mode_system_prompt(DictationMode::Custom, "Make it formal").is_some());
}

#[test]
fn custom_instruction_is_trimmed_and_blank_acts_as_raw() {
    assert_eq!(
        mode_system_prompt(DictationMode::Custom, "  Make it formal \n").as_deref(),
        Some("Make it formal")
    );
    assert!(mode_system_prompt(DictationMode::Custom, " \t ").is_none());
    assert_eq!(
        mode_system_prompt(DictationMode::TranslateEnglish, "ignored").as_deref(),
        Some("Translate to English. Capture slang, nuance, and cultural context. Output only the translation \u{2014} no explanations.")
    );
}

#[test]
fn json_text_wins_and_is_trimmed() {
    assert_eq!(parse_transcript_text("{}", Some("  hello  ".to_string())).unwrap(), "hello");
}

#[test]
fn plain_body_is_unquoted() {
    assert_eq!(parse_transcript_text("  \"\"hi there\"  ", None).unwrap(), "hi there");
    assert_eq!(parse_transcript_text("\"x\"", Some("   ".to_string())).unwrap(), "x");
}

#[test]
fn empty_transcript_is_an_error() {
    match parse_transcript_text("  \"\"  ", None) {
        Err(AppError::Provider(m)) => {
            assert_eq!(m, "Transcription provider returned an empty transcript.")
        }
        _ => panic!("expected a provider error"),
    }
}

#[test]
fn language_auto_and_blank_are_omitted() {
    assert_eq!(form_language(" auto "), None);
    assert_eq!(form_language("  "), None);
    assert_eq!(form_language(" en ").as_deref(), Some("en"));
    assert_eq!(form_prompt("  names "), Some("names".to_string()));
    assert_eq!(form_prompt(""), None);
}

#[test]
fn failed_transcription_quotes_at_most_500_characters() {
    let body = "e".repeat(600);
    match transcription_failed(SpeechProvider::Groq, "401 Unauthorized", &body) {
        AppError::Provider(m) => {
            assert_eq!(m, format!("Groq transcription failed (401 Unauthorized): {}", "e".repeat(500)))
        }
        _ => panic!("expected a provider error"),
    }
    assert_eq!(provider_label(SpeechProvider::Groq), "Groq");
}

#[test]
fn polishing_falls_back_to_raw_text() {
    assert_eq!(polished_or_raw("raw", None), ("raw".to_string(), false));
    assert_eq!(polished_or_raw("raw", Some("  ".to_string())), ("raw".to_string(), false));
    assert_eq!(polished_or_raw("raw", Some("Done.".to_string())), ("Done.".to_string(), true));
    assert!(enhancement_content(None).is_err());
    assert!(enhancement_content(Some(" ".to_string())).is_err());
    assert_eq!(enhancement_content(Some("ok".to_string())).unwrap(), "ok");
}

#[test]
fn voice_command_text_names_the_app() {
    assert_eq!(opening_text("notepad"), "Opening notepad\u{2026}");
}

#[test]
fn commands_are_tried_before_polishing() {
    match transcript_action("open notepad", None) {
        TranscriptAction::Launch(name) => assert_eq!(name, "notepad"),
        other => panic!("expected a launch, got {other:?}"),
    }
    match transcript_action("open notepad", Some(true)) {
        TranscriptAction::Announce(text) => assert_eq!(text, "Opening notepad\u{2026}"),
        other => panic!("expected an announcement, got {other:?}"),
    }
    assert!(matches!(transcript_action("open notepad", Some(false)), TranscriptAction::Polish));
    assert!(matches!(transcript_action("dear team, hello", None), TranscriptAction::Polish));
}
