use orcavoice::error::AppError;
use orcavoice::secrets::{
    account, api_key_from_env, cleared_result, env_var, get_api_key, get_api_key_with_fallback,
    key_to_store, read_keyring, secret_status, secret_status_with_fallback, stored_result,
    KeyringRead, KeyringWrite,
};
use orcavoice::settings::SpeechProvider;

#[test]
fn environment_wins_then_keyring_then_file() {
    let g = SpeechProvider::Groq;
    assert_eq!(
        get_api_key_with_fallback(g, Some(" env ".to_string()), KeyringRead::ReadFailed("x".into()), "file")
            .unwrap(),
        "env"
    );
    assert_eq!(
        get_api_key_with_fallback(g, Some("  ".to_string()), KeyringRead::Password("ring".into()), "file")
            .unwrap(),
        "ring"
    );
    assert_eq!(
        get_api_key_with_fallback(g, None, KeyringRead::NoEntry, " file ").unwrap(),
        "file"
    );
    assert_eq!(
        get_api_key_with_fallback(g, None, KeyringRead::Password(" ".into()), " file ").unwrap(),
        "file"
    );
    match get_api_key_with_fallback(g, None, KeyringRead::NoEntry, " ") {
        Err(AppError::Secret(m)) => assert_eq!(m, "No API key found for Groq. Set it in Settings."),
        _ => panic!("expected a secret error"),
    }
    match get_api_key_with_fallback(g, None, KeyringRead::ReadFailed("locked".into()), "file") {
        Err(AppError::Secret(m)) => assert_eq!(m, "Cannot read OS keyring entry: locked"),
        _ => panic!("expected a secret error"),
    }
}

#[test]
fn key_without_file_fallback() {
    match get_api_key(SpeechProvider::Groq, None, KeyringRead::NoEntry) {
        Err(AppError::Secret(m)) => assert_eq!(
            m,
            "No API key found for Groq. Set it in Settings or provide GROQ_API_KEY."
        ),
        _ => panic!("expected a secret error"),
    }
    assert_eq!(
        get_api_key(SpeechProvider::Groq, None, KeyringRead::Password("k".into())).unwrap(),
        "k"
    );
}

#[test]
fn names_and_storage_decisions() {
    assert_eq!(env_var(SpeechProvider::Groq), "GROQ_API_KEY");
    assert_eq!(account(SpeechProvider::Groq), "groq-api-key");
    assert_eq!(api_key_from_env(Some(" k ".to_string())), Some("k".to_string()));
    assert_eq!(api_key_from_env(Some("\t".to_string())), None);
    assert_eq!(key_to_store("  gsk_1 "), Some("gsk_1".to_string()));
    assert_eq!(key_to_store("   "), None);
    assert!(stored_result(KeyringWrite::Done).is_ok());
    assert!(stored_result(KeyringWrite::Failed("x".into())).is_err());
    assert!(cleared_result(KeyringWrite::NoEntry).is_ok());
    assert!(cleared_result(KeyringWrite::Failed("x".into())).is_err());
    assert!(matches!(read_keyring(KeyringRead::OpenFailed("x".into())), Err(AppError::Secret(_))));
}

#[test]
fn status_reports_every_source() {
    let s = secret_status_with_fallback(None, KeyringRead::NoEntry, " key ");
    assert!(s.groq && !s.env_groq && !s.openai && !s.env_openai);
    let s = secret_status_with_fallback(Some("x".into()), KeyringRead::NoEntry, "");
    assert!(s.groq && s.env_groq);
    let s = secret_status_with_fallback(None, KeyringRead::ReadFailed("x".into()), "");
    assert!(!s.groq);
    let s = secret_status(None, KeyringRead::Password("p".into()));
    assert!(s.groq && !s.env_groq);
}

#[test]
fn storing_without_an_entry_reports_the_keyring_text() {
    match stored_result(KeyringWrite::NoEntry) {
        Err(e) => assert_eq!(
            e.message(),
            "Secret error: Cannot store API key in OS keyring: No matching entry found in secure storage"
        ),
        Ok(()) => panic!("a missing entry must not count as stored"),
    }
}
