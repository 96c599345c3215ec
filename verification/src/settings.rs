//! The application's settings: their defaults, and the repairs applied when
//! a settings file is loaded.
use vstd::prelude::*;
use crate::text::{owned, str_equal};

verus! {

/// The transcription provider. Groq is the only one.
#[derive(Clone, Copy, Debug, PartialEq, Eq, Structural)]
pub enum SpeechProvider {
    Groq,
}

impl SpeechProvider {
    /// The provider's name in keys and stored settings.
    pub fn key_name(self) -> (r: &'static str)
        ensures
            r@ == "groq"@,
    {
        match self {
            SpeechProvider::Groq => "groq",
        }
    }
}

impl Default for SpeechProvider {
    fn default() -> (r: Self)
        ensures
            r == SpeechProvider::Groq,
    {
        SpeechProvider::Groq
    }
}

/// Connection settings of a transcription provider.
#[derive(Clone, Debug)]
pub struct ProviderSettings {
    pub model: String,
    pub language: String,
    pub prompt: String,
    pub endpoint: String,
}

/// How a transcript is polished before it is output.
#[derive(Clone, Copy, Debug, PartialEq, Eq, Structural)]
pub enum DictationMode {
    Raw,
    Grammar,
    Email,
    TranslateEnglish,
    Custom,
}

/// How the trigger key controls recording.
#[derive(Clone, Copy, Debug, PartialEq, Eq, Structural)]
pub enum ActivationMode {
    Toggle,
    PushToTalk,
}

impl Default for ActivationMode {
    fn default() -> (r: Self)
        ensures
            r == ActivationMode::Toggle,
    {
        ActivationMode::Toggle
    }
}

/// Everything the user can configure.
#[derive(Clone, Debug)]
pub struct AppSettings {
    pub active_provider: SpeechProvider,
    pub groq: ProviderSettings,
    pub hotkey: String,
    pub activation_mode: ActivationMode,
    pub mode: DictationMode,
    pub custom_mode_instruction: String,
    pub auto_paste: bool,
    pub selection_actions_enabled: bool,
    pub retain_audio: bool,
    pub output_mode: String,
    pub bubble_outline: String,
    pub outline_width: u32,
    pub groq_api_key: String,
    pub enhancement_model: String,
    /// Empty means "whatever the system reports as the default input".
    pub input_device: String,
    /// Start with the operating system; on by default.
    pub start_on_login: bool,
}

/// The default trigger key.
pub open spec fn default_hotkey() -> Seq<char> {
    "\\"@
}

/// The settings used when there is no settings file or it is unreadable.
pub open spec fn is_default_settings(s: AppSettings) -> bool {
    &&& s.active_provider == SpeechProvider::Groq
    &&& s.groq.model@ == "whisper-large-v3-turbo"@
    &&& s.groq.language@ == "en"@
    &&& s.groq.prompt@ == Seq::<char>::empty()
    &&& s.groq.endpoint@ == "https://api.groq.com/openai/v1/audio/transcriptions"@
    &&& s.hotkey@ == default_hotkey()
    &&& s.activation_mode == ActivationMode::Toggle
    &&& s.mode == DictationMode::Raw
    &&& s.custom_mode_instruction@ == Seq::<char>::empty()
    &&& s.auto_paste
    &&& !s.selection_actions_enabled
    &&& !s.retain_audio
    &&& s.output_mode@ == "clipboard-paste"@
    &&& s.bubble_outline@ == "#ff4057"@
    &&& s.outline_width == 1
    &&& s.groq_api_key@ == Seq::<char>::empty()
    &&& s.enhancement_model@ == "llama-4-scout-17b-16e-instruct"@
    &&& s.input_device@ == Seq::<char>::empty()
    &&& s.start_on_login
}

impl Default for AppSettings {
    fn default() -> (r: Self)
        ensures
            is_default_settings(r),
    {
        AppSettings {
            active_provider: SpeechProvider::Groq,
            groq: ProviderSettings {
                model: owned("whisper-large-v3-turbo"),
                language: owned("en"),
                prompt: String::new(),
                endpoint: owned("https://api.groq.com/openai/v1/audio/transcriptions"),
            },
            hotkey: owned("\\"),
            activation_mode: ActivationMode::Toggle,
            mode: DictationMode::Raw,
            custom_mode_instruction: String::new(),
            auto_paste: true,
            selection_actions_enabled: false,
            retain_audio: false,
            output_mode: owned("clipboard-paste"),
            bubble_outline: default_bubble_outline(),
            outline_width: default_outline_width(),
            groq_api_key: String::new(),
            enhancement_model: default_enhancement_model(),
            input_device: String::new(),
            start_on_login: true,
        }
    }
}

/// The bubble outline colour used when a settings file names none.
pub fn default_bubble_outline() -> (r: String)
    ensures
        r@ == "#ff4057"@,
{
    owned("#ff4057")
}

/// The outline width used when a settings file names none.
pub fn default_outline_width() -> (r: u32)
    ensures
        r == 1,
{
    1
}

/// The polishing model used when a settings file names none.
pub fn default_enhancement_model() -> (r: String)
    ensures
        r@ == "llama-4-scout-17b-16e-instruct"@,
{
    owned("llama-4-scout-17b-16e-instruct")
}

/// Trigger keys of earlier versions that are replaced by the default.
pub open spec fn is_retired_hotkey(h: Seq<char>) -> bool {
    h == "CommandOrControl+Shift+Space"@ || h == "/"@
}

/// Replaces a retired trigger key with the default one; every other setting
/// is kept.
pub fn migrate_hotkey(settings: &mut AppSettings)
    ensures
        final(settings).hotkey@ == if is_retired_hotkey(old(settings).hotkey@) {
            default_hotkey()
        } else {
            old(settings).hotkey@
        },
        *final(settings) == (AppSettings { hotkey: final(settings).hotkey, ..*old(settings) }),
{
    if str_equal(settings.hotkey.as_str(), "CommandOrControl+Shift+Space") || str_equal(
        settings.hotkey.as_str(),
        "/",
    ) {
        settings.hotkey = owned("\\");
    }
}

/// The settings to use after reading a settings file: the parsed settings
/// with a retired trigger key replaced, or the defaults when the file could
/// not be parsed. The flag says the file was corrupt and must be set aside
/// and rewritten.
pub fn resolve_loaded_settings(parsed: Option<AppSettings>) -> (r: (AppSettings, bool))
    ensures
        parsed is None ==> r.1 && is_default_settings(r.0),
        parsed matches Some(p) ==> !r.1 && r.0 == (AppSettings {
            hotkey: r.0.hotkey,
            ..p
        }) && r.0.hotkey@ == if is_retired_hotkey(p.hotkey@) {
            default_hotkey()
        } else {
            p.hotkey@
        },
{
    match parsed {
        Some(p) => {
            let mut s = p;
            migrate_hotkey(&mut s);
            (s, false)
        },
        None => (AppSettings::default(), true),
    }
}

/// A loaded settings file is rewritten whenever it differs from the canonical
/// serialised form of the settings it holds, so retired keys are dropped.
pub fn settings_need_rewrite(canonical: &str, on_disk: &str) -> (r: bool)
    ensures
        r == (canonical@ != on_disk@),
{
    !str_equal(canonical, on_disk)
}

} // verus!
