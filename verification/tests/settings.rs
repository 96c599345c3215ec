use orcavoice::settings::{
    default_bubble_outline, default_enhancement_model, default_outline_width, migrate_hotkey,
    resolve_loaded_settings, settings_need_rewrite, ActivationMode, AppSettings, DictationMode,
    SpeechProvider,
};

#[test]
fn defaults_match_the_documented_settings() {
    let s = AppSettings::default();
    assert_eq!(s.active_provider, SpeechProvider::Groq);
    assert_eq!(s.groq.model, "whisper-large-v3-turbo");
    assert_eq!(s.groq.endpoint, "https://api.groq.com/openai/v1/audio/transcriptions");
    assert_eq!(s.hotkey, "\\");
    assert_eq!(s.activation_mode, ActivationMode::Toggle);
    assert_eq!(s.mode, DictationMode::Raw);
    assert!(s.auto_paste);
    assert!(!s.retain_audio);
    assert!(s.start_on_login);
    assert_eq!(s.bubble_outline, default_bubble_outline());
    assert_eq!(default_outline_width(), 1);
    assert_eq!(default_enhancement_model(), "llama-4-scout-17b-16e-instruct");
    assert_eq!(SpeechProvider::Groq.key_name(), "groq");
}

#[test]
fn retired_hotkeys_are_replaced() {
    for old in ["CommandOrControl+Shift+Space", "/"] {
        let mut s = AppSettings::default();
        s.hotkey = old.to_string();
        migrate_hotkey(&mut s);
        assert_eq!(s.hotkey, "\\");
    }
    let mut s = AppSettings::default();
    s.hotkey = "F9".to_string();
    migrate_hotkey(&mut s);
    assert_eq!(s.hotkey, "F9");
}

#[test]
fn corrupt_settings_fall_back_to_defaults() {
    let (s, corrupt) = resolve_loaded_settings(None);
    assert!(corrupt);
    assert_eq!(s.hotkey, "\\");
    let mut p = AppSettings::default();
    p.hotkey = "/".to_string();
    p.custom_mode_instruction = "keep".to_string();
    let (s, corrupt) = resolve_loaded_settings(Some(p));
    assert!(!corrupt);
    assert_eq!(s.hotkey, "\\");
    assert_eq!(s.custom_mode_instruction, "keep");
    assert!(settings_need_rewrite("{\"a\":1}", "{\"a\":1,\"openai\":{}}"));
    assert!(!settings_need_rewrite("{}", "{}"));
}
