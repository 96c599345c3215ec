//! Where the provider's API key comes from: the environment first, then the
//! OS keyring, then the settings file. Reading the environment and the
//! keyring is the platform's work; this module decides what the readings
//! amount to.
use vstd::prelude::*;
use crate::error::AppError;
use crate::settings::SpeechProvider;
use crate::text::{is_blank, is_blank_str, nonblank_trimmed, owned, trim};

verus! {

/// Which secrets are available, and whether they come from the environment.
/// Only Groq is supported, so the OpenAI fields are always false.
#[derive(Clone, Debug, PartialEq, Eq, Structural)]
pub struct SecretStatus {
    pub groq: bool,
    pub openai: bool,
    pub env_groq: bool,
    pub env_openai: bool,
}

/// What reading the provider's OS keyring entry produced.
pub enum KeyringRead {
    /// The entry could not be opened; the payload is the keyring's error.
    OpenFailed(String),
    /// The stored password.
    Password(String),
    /// There is no stored password.
    NoEntry,
    /// Reading failed; the payload is the keyring's error.
    ReadFailed(String),
}

/// What writing to (or deleting from) the keyring produced. `NoEntry` is the
/// keyring's "No matching entry found in secure storage" error.
pub enum KeyringWrite {
    OpenFailed(String),
    Done,
    NoEntry,
    Failed(String),
}

/// The environment variable that overrides the provider's key.
pub fn env_var(provider: SpeechProvider) -> (r: &'static str)
    ensures
        r@ == "GROQ_API_KEY"@,
{
    match provider {
        SpeechProvider::Groq => "GROQ_API_KEY",
    }
}

/// The keyring account under which the provider's key is stored.
pub fn account(provider: SpeechProvider) -> (r: String)
    ensures
        r@ == "groq-api-key"@,
{
    proof {
        reveal_strlit("groq");
        reveal_strlit("-api-key");
        reveal_strlit("groq-api-key");
    }
    let r = owned(provider.key_name()).concat("-api-key");
    assert(r@ =~= "groq-api-key"@);
    r
}

/// The key an environment variable's value supplies: the trimmed value,
/// when that is not empty.
pub open spec fn env_key(value: Option<String>) -> Option<Seq<char>> {
    match value {
        Some(v) => if is_blank(v@) {
            None
        } else {
            Some(trim(v@))
        },
        None => None,
    }
}

/// The key an environment variable supplies, as `env_key` describes it.
pub fn api_key_from_env(value: Option<String>) -> (r: Option<String>)
    ensures
        r is None <==> env_key(value) is None,
        r matches Some(k) ==> env_key(value) == Some(k@),
{
    match value {
        Some(v) => nonblank_trimmed(v.as_str()),
        None => None,
    }
}

/// The key the keyring holds: a stored non-blank password (untrimmed);
/// nothing for a blank one or a missing entry; an error when the keyring
/// could not be read.
pub open spec fn keyring_key(read: KeyringRead) -> Result<Option<Seq<char>>, Seq<char>> {
    match read {
        KeyringRead::OpenFailed(e) => Err("Cannot open OS keyring entry: "@ + e@),
        KeyringRead::Password(p) => if is_blank(p@) {
            Ok(None)
        } else {
            Ok(Some(p@))
        },
        KeyringRead::NoEntry => Ok(None),
        KeyringRead::ReadFailed(e) => Err("Cannot read OS keyring entry: "@ + e@),
    }
}

/// The key the keyring holds, as `keyring_key` describes it.
pub fn read_keyring(read: KeyringRead) -> (r: Result<Option<String>, AppError>)
    ensures
        match keyring_key(read) {
            Ok(None) => r matches Ok(None),
            Ok(Some(k)) => r matches Ok(Some(s)) && s@ == k,
            Err(m) => r matches Err(AppError::Secret(s)) && s@ == m,
        },
{
    match read {
        KeyringRead::OpenFailed(e) => Err(
            AppError::Secret(owned("Cannot open OS keyring entry: ").concat(e.as_str())),
        ),
        KeyringRead::Password(p) => {
            if is_blank_str(p.as_str()) {
                Ok(None)
            } else {
                Ok(Some(p))
            }
        },
        KeyringRead::NoEntry => Ok(None),
        KeyringRead::ReadFailed(e) => Err(
            AppError::Secret(owned("Cannot read OS keyring entry: ").concat(e.as_str())),
        ),
    }
}

/// The provider's key from the environment, else the keyring, with no other
/// fallback.
pub fn get_api_key(provider: SpeechProvider, env_value: Option<String>, keyring: KeyringRead) -> (r:
    Result<String, AppError>)
    ensures
        env_key(env_value) matches Some(e) ==> (r matches Ok(k) && k@ == e),
        env_key(env_value) is None ==> match keyring_key(
            keyring,
        ) {
            Ok(Some(k)) => r matches Ok(s) && s@ == k,
            Ok(None) => r matches Err(AppError::Secret(m)) && m@
                == "No API key found for Groq. Set it in Settings or provide GROQ_API_KEY."@,
            Err(m) => r matches Err(AppError::Secret(s)) && s@ == m,
        },
{
    if let Some(k) = api_key_from_env(env_value) {
        return Ok(k);
    }
    match read_keyring(keyring) {
        Ok(Some(k)) => Ok(k),
        Ok(None) => Err(
            AppError::Secret(
                owned("No API key found for Groq. Set it in Settings or provide GROQ_API_KEY."),
            ),
        ),
        Err(e) => Err(e),
    }
}

/// The provider's key: the environment's (trimmed) first, then the
/// keyring's, then the settings file's (trimmed). A failing keyring is an
/// error even when the file has a key.
pub fn get_api_key_with_fallback(
    provider: SpeechProvider,
    env_value: Option<String>,
    keyring: KeyringRead,
    file_key: &str,
) -> (r: Result<String, AppError>)
    ensures
        env_key(env_value) matches Some(e) ==> (r matches Ok(k) && k@ == e),
        env_key(env_value) is None ==> match keyring_key(
            keyring,
        ) {
            Ok(Some(k)) => r matches Ok(s) && s@ == k,
            Ok(None) => if is_blank(file_key@) {
                r matches Err(AppError::Secret(m)) && m@
                    == "No API key found for Groq. Set it in Settings."@
            } else {
                r matches Ok(s) && s@ == trim(file_key@)
            },
            Err(m) => r matches Err(AppError::Secret(s)) && s@ == m,
        },
{
    if let Some(k) = api_key_from_env(env_value) {
        return Ok(k);
    }
    match read_keyring(keyring) {
        Ok(Some(k)) => Ok(k),
        Ok(None) => match nonblank_trimmed(file_key) {
            Some(t) => Ok(t),
            None => Err(AppError::Secret(owned("No API key found for Groq. Set it in Settings."))),
        },
        Err(e) => Err(e),
    }
}

/// The key to store for a requested change: the trimmed key, or `None` when
/// it is blank and the stored key must be removed instead.
pub fn key_to_store(api_key: &str) -> (r: Option<String>)
    ensures
        r is None <==> is_blank(api_key@),
        r matches Some(k) ==> k@ == trim(api_key@),
{
    nonblank_trimmed(api_key)
}

/// The outcome of storing a key in the keyring.
pub fn stored_result(write: KeyringWrite) -> (r: Result<(), AppError>)
    ensures
        r is Ok <==> (write matches KeyringWrite::Done),
        write matches KeyringWrite::OpenFailed(e) ==> (r matches Err(AppError::Secret(m)) && m@
            == "Cannot open OS keyring entry: "@ + e@),
        write matches KeyringWrite::Failed(e) ==> (r matches Err(AppError::Secret(m)) && m@
            == "Cannot store API key in OS keyring: "@ + e@),
        write matches KeyringWrite::NoEntry ==> (r matches Err(AppError::Secret(m)) && m@
            == "Cannot store API key in OS keyring: No matching entry found in secure storage"@),
{
    match write {
        KeyringWrite::OpenFailed(e) => Err(
            AppError::Secret(owned("Cannot open OS keyring entry: ").concat(e.as_str())),
        ),
        KeyringWrite::Done => Ok(()),
        KeyringWrite::NoEntry => Err(
            AppError::Secret(
                owned("Cannot store API key in OS keyring: No matching entry found in secure storage"),
            ),
        ),
        KeyringWrite::Failed(e) => Err(
            AppError::Secret(owned("Cannot store API key in OS keyring: ").concat(e.as_str())),
        ),
    }
}

/// The outcome of removing a key from the keyring: a missing entry counts as
/// removed.
pub fn cleared_result(write: KeyringWrite) -> (r: Result<(), AppError>)
    ensures
        r is Ok <==> (write matches KeyringWrite::Done || write matches KeyringWrite::NoEntry),
        write matches KeyringWrite::OpenFailed(e) ==> (r matches Err(AppError::Secret(m)) && m@
            == "Cannot open OS keyring entry: "@ + e@),
        write matches KeyringWrite::Failed(e) ==> (r matches Err(AppError::Secret(m)) && m@
            == "Cannot remove API key from OS keyring: "@ + e@),
{
    match write {
        KeyringWrite::OpenFailed(e) => Err(
            AppError::Secret(owned("Cannot open OS keyring entry: ").concat(e.as_str())),
        ),
        KeyringWrite::Done => Ok(()),
        KeyringWrite::NoEntry => Ok(()),
        KeyringWrite::Failed(e) => Err(
            AppError::Secret(owned("Cannot remove API key from OS keyring: ").concat(e.as_str())),
        ),
    }
}

/// Whether the keyring supplies a key (a failing keyring supplies none).
pub open spec fn keyring_has_key(read: KeyringRead) -> bool {
    keyring_key(read) matches Ok(Some(_))
}

/// Which keys are available: from the environment, the keyring, or the
/// settings file's fallback key.
pub fn secret_status_with_fallback(
    env_value: Option<String>,
    keyring: KeyringRead,
    fallback_groq: &str,
) -> (r: SecretStatus)
    ensures
        r.env_groq == env_key(env_value) is Some,
        r.groq == (r.env_groq || keyring_has_key(keyring) || !is_blank(fallback_groq@)),
        !r.openai && !r.env_openai,
{
    let env_groq = match &env_value {
        Some(v) => !is_blank_str(v.as_str()),
        None => false,
    };
    let keyring_groq = match read_keyring(keyring) {
        Ok(Some(_)) => true,
        _ => false,
    };
    let file_groq = !is_blank_str(fallback_groq);
    SecretStatus { groq: env_groq || keyring_groq || file_groq, openai: false, env_groq, env_openai: false }
}

/// Which keys are available from the environment or the keyring.
pub fn secret_status(env_value: Option<String>, keyring: KeyringRead) -> (r: SecretStatus)
    ensures
        r.env_groq == env_key(env_value) is Some,
        r.groq == (r.env_groq || keyring_has_key(keyring)),
        !r.openai && !r.env_openai,
{
    let env_groq = match &env_value {
        Some(v) => !is_blank_str(v.as_str()),
        None => false,
    };
    let keyring_groq = match read_keyring(keyring) {
        Ok(Some(_)) => true,
        _ => false,
    };
    SecretStatus { groq: env_groq || keyring_groq, openai: false, env_groq, env_openai: false }
}

} // verus!
