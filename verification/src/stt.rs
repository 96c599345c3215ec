//! Transcription logic around the provider calls: which form fields are
//! sent, how a response body becomes a transcript, the system prompt of each
//! dictation mode, and how polishing falls back to the raw transcript.
use vstd::prelude::*;
use crate::commands::{detect_open, open_command};
use crate::error::AppError;
use crate::settings::{DictationMode, SpeechProvider};
use crate::text::{
    chars_of, is_blank, is_blank_str, nonblank_trimmed, owned, prefix_string, push_char,
    str_equal, string_of_range, trim, trim_bounds,
};

verus! {

/// The most characters of an error response quoted in an error message.
pub const ERROR_BODY_CHARS: usize = 500;

/// The provider's display name.
pub fn provider_label(provider: SpeechProvider) -> (r: &'static str)
    ensures
        r@ == "Groq"@,
{
    match provider {
        SpeechProvider::Groq => "Groq",
    }
}

pub open spec fn grammar_prompt() -> Seq<char> {
    "Fix grammar, punctuation, and capitalization. Remove filler words (um, uh, like, you know). Preserve meaning and tone. Output only the corrected text \u{2014} no explanations, no preamble."@
}

pub open spec fn email_prompt() -> Seq<char> {
    "Transform this transcript into a professional email with greeting and sign-off. Fix grammar and formatting. Keep it concise. Output only the email text."@
}

pub open spec fn translate_prompt() -> Seq<char> {
    "Translate to English. Capture slang, nuance, and cultural context. Output only the translation \u{2014} no explanations."@
}

/// The system prompt that polishes a transcript in `mode`: none for Raw, a
/// fixed prompt for Grammar, Email and Translate, and the trimmed custom
/// instruction for Custom (none when it is blank, which then acts as Raw).
pub open spec fn mode_prompt(mode: DictationMode, custom_instruction: Seq<char>) -> Option<
    Seq<char>,
> {
    match mode {
        DictationMode::Raw => None,
        DictationMode::Grammar => Some(grammar_prompt()),
        DictationMode::Email => Some(email_prompt()),
        DictationMode::TranslateEnglish => Some(translate_prompt()),
        DictationMode::Custom => if is_blank(custom_instruction) {
            None
        } else {
            Some(trim(custom_instruction))
        },
    }
}

/// Custom mode with a blank instruction behaves exactly as Raw: no system
/// prompt, so the transcript is output as it is and no model is asked.
pub proof fn lemma_blank_custom_is_raw(custom_instruction: Seq<char>, any: Seq<char>)
    requires
        is_blank(custom_instruction),
    ensures
        mode_prompt(DictationMode::Custom, custom_instruction) == mode_prompt(
            DictationMode::Raw,
            any,
        ),
        mode_prompt(DictationMode::Raw, any) is None,
{
}

/// Every mode other than Raw and Custom always polishes the transcript.
pub proof fn lemma_fixed_modes_always_polish(mode: DictationMode, custom_instruction: Seq<char>)
    requires
        mode != DictationMode::Raw,
        mode != DictationMode::Custom,
    ensures
        mode_prompt(mode, custom_instruction) is Some,
{
}

/// The three fixed modes ask for three different things: Email mode asks
/// for the transcript as a professional email, Grammar mode for grammar
/// fixes, Translate mode for an English translation, and no two of the
/// prompts are the same.
pub proof fn lemma_fixed_prompts_differ(custom_instruction: Seq<char>)
    ensures
        mode_prompt(DictationMode::Email, custom_instruction) != mode_prompt(
            DictationMode::Grammar,
            custom_instruction,
        ),
        mode_prompt(DictationMode::Email, custom_instruction) != mode_prompt(
            DictationMode::TranslateEnglish,
            custom_instruction,
        ),
        mode_prompt(DictationMode::Grammar, custom_instruction) != mode_prompt(
            DictationMode::TranslateEnglish,
            custom_instruction,
        ),
        mode_prompt(DictationMode::Email, custom_instruction) matches Some(p) && p.len() > 51
            && p.subrange(0, 51) == "Transform this transcript into a professional email"@,
        mode_prompt(DictationMode::Grammar, custom_instruction) matches Some(p) && p.len() > 11
            && p.subrange(0, 11) == "Fix grammar"@,
        mode_prompt(DictationMode::TranslateEnglish, custom_instruction) matches Some(p) && p.len()
            > 20 && p.subrange(0, 20) == "Translate to English"@,
{
    reveal_strlit("Fix grammar, punctuation, and capitalization. Remove filler words (um, uh, like, you know). Preserve meaning and tone. Output only the corrected text \u{2014} no explanations, no preamble.");
    reveal_strlit("Transform this transcript into a professional email with greeting and sign-off. Fix grammar and formatting. Keep it concise. Output only the email text.");
    reveal_strlit("Translate to English. Capture slang, nuance, and cultural context. Output only the translation \u{2014} no explanations.");
    reveal_strlit("Transform this transcript into a professional email");
    let e = mode_prompt(DictationMode::Email, custom_instruction)->0;
    let g = mode_prompt(DictationMode::Grammar, custom_instruction)->0;
    let t = mode_prompt(DictationMode::TranslateEnglish, custom_instruction)->0;
    assert(e[0] != g[0]);
    assert(e[5] != t[5]);
    assert(g[0] != t[0]);
    assert(e.subrange(0, 51) =~= "Transform this transcript into a professional email"@);
    reveal_strlit("Fix grammar");
    reveal_strlit("Translate to English");
    assert(g.subrange(0, 11) =~= "Fix grammar"@);
    assert(t.subrange(0, 20) =~= "Translate to English"@);
}

/// The system prompt for `mode`, as `mode_prompt` describes it.
pub fn mode_system_prompt(mode: DictationMode, custom_instruction: &str) -> (r: Option<String>)
    ensures
        r is None <==> mode_prompt(mode, custom_instruction@) is None,
        r matches Some(p) ==> mode_prompt(mode, custom_instruction@) == Some(p@),
{
    match mode {
        DictationMode::Raw => None,
        DictationMode::Grammar => Some(
            owned(
                "Fix grammar, punctuation, and capitalization. Remove filler words (um, uh, like, you know). Preserve meaning and tone. Output only the corrected text \u{2014} no explanations, no preamble.",
            ),
        ),
        DictationMode::Email => Some(
            owned(
                "Transform this transcript into a professional email with greeting and sign-off. Fix grammar and formatting. Keep it concise. Output only the email text.",
            ),
        ),
        DictationMode::TranslateEnglish => Some(
            owned(
                "Translate to English. Capture slang, nuance, and cultural context. Output only the translation \u{2014} no explanations.",
            ),
        ),
        DictationMode::Custom => nonblank_trimmed(custom_instruction),
    }
}

/// `s` without its leading double quotes.
pub open spec fn strip_quotes_start(s: Seq<char>) -> Seq<char>
    decreases s.len(),
{
    if s.len() > 0 && s[0] == '"' {
        strip_quotes_start(s.drop_first())
    } else {
        s
    }
}

/// `s` without its trailing double quotes.
pub open spec fn strip_quotes_end(s: Seq<char>) -> Seq<char>
    decreases s.len(),
{
    if s.len() > 0 && s.last() == '"' {
        strip_quotes_end(s.drop_last())
    } else {
        s
    }
}

/// `s` with double quotes removed from both ends (`trim_matches('"')`).
pub open spec fn strip_quotes(s: Seq<char>) -> Seq<char> {
    strip_quotes_end(strip_quotes_start(s))
}

/// The characters of an optional string.
pub open spec fn opt_view(s: Option<String>) -> Option<Seq<char>> {
    match s {
        Some(t) => Some(t@),
        None => None,
    }
}

/// The transcript in a response: the JSON `text` field, trimmed, when it is
/// present and not blank; otherwise the whole body, trimmed and stripped of
/// surrounding quotes; an error when that is empty too.
pub open spec fn transcript_of(body: Seq<char>, json_text: Option<Seq<char>>) -> Option<Seq<char>> {
    if json_text matches Some(t) && !is_blank(t) {
        Some(trim(json_text->0))
    } else if strip_quotes(trim(body)).len() > 0 {
        Some(strip_quotes(trim(body)))
    } else {
        None
    }
}

fn strip_quote_bounds(v: &[char], from: usize, to: usize) -> (r: (usize, usize))
    requires
        from <= to <= v@.len(),
    ensures
        from <= r.0 <= r.1 <= to,
        v@.subrange(r.0 as int, r.1 as int) == strip_quotes(v@.subrange(from as int, to as int)),
{
    let mut lo = from;
    let ghost whole = v@.subrange(from as int, to as int);
    assert(whole.subrange(0, whole.len() as int) == whole);
    while lo < to && v[lo] == '"'
        invariant
            from <= lo <= to <= v@.len(),
            whole == v@.subrange(from as int, to as int),
            strip_quotes_start(whole) == strip_quotes_start(v@.subrange(lo as int, to as int)),
        decreases to - lo,
    {
        assert(v@.subrange(lo as int, to as int).drop_first() == v@.subrange(lo + 1, to as int));
        lo = lo + 1;
    }
    let ghost start = v@.subrange(lo as int, to as int);
    let mut hi = to;
    while hi > lo && v[hi - 1] == '"'
        invariant
            from <= lo <= hi <= to <= v@.len(),
            start == v@.subrange(lo as int, to as int),
            strip_quotes_end(start) == strip_quotes_end(v@.subrange(lo as int, hi as int)),
        decreases hi - lo,
    {
        assert(v@.subrange(lo as int, hi as int).drop_last() == v@.subrange(lo as int, hi - 1));
        hi = hi - 1;
    }
    (lo, hi)
}

/// The transcript in a response body, given the `text` field that parsing
/// the body as JSON produced (`None` when it is not such JSON or has no
/// text), as `transcript_of` describes it.
pub fn parse_transcript_text(body: &str, json_text: Option<String>) -> (r: Result<String, AppError>)
    ensures
        match transcript_of(body@, opt_view(json_text)) {
            Some(t) => r matches Ok(s) && s@ == t,
            None => r matches Err(AppError::Provider(m)) && m@
                == "Transcription provider returned an empty transcript."@,
        },
{
    if let Some(t) = &json_text {
        if let Some(trimmed) = nonblank_trimmed(t.as_str()) {
            return Ok(trimmed);
        }
    }
    let v = chars_of(body);
    let (lo, hi) = trim_bounds(v.as_slice());
    let (qlo, qhi) = strip_quote_bounds(v.as_slice(), lo, hi);
    if qlo == qhi {
        return Err(AppError::Provider(owned("Transcription provider returned an empty transcript.")));
    }
    Ok(string_of_range(v.as_slice(), qlo, qhi))
}

/// The language field of a transcription request: the trimmed language,
/// unless it is blank or "auto" (detect the language).
pub fn form_language(language: &str) -> (r: Option<String>)
    ensures
        r is None <==> (is_blank(language@) || trim(language@) == "auto"@),
        r matches Some(l) ==> l@ == trim(language@),
{
    match nonblank_trimmed(language) {
        Some(t) => {
            if str_equal(t.as_str(), "auto") {
                None
            } else {
                Some(t)
            }
        },
        None => None,
    }
}

/// The vocabulary prompt of a transcription request: the trimmed prompt,
/// unless it is blank.
pub fn form_prompt(prompt: &str) -> (r: Option<String>)
    ensures
        r is None <==> is_blank(prompt@),
        r matches Some(p) ==> p@ == trim(prompt@),
{
    nonblank_trimmed(prompt)
}

/// `body` cut to its first `ERROR_BODY_CHARS` characters.
pub open spec fn quoted_body(body: Seq<char>) -> Seq<char> {
    if body.len() <= ERROR_BODY_CHARS {
        body
    } else {
        body.take(ERROR_BODY_CHARS as int)
    }
}

/// The error for a transcription request the provider refused, quoting the
/// HTTP status and the start of the response.
pub fn transcription_failed(provider: SpeechProvider, status: &str, body: &str) -> (r: AppError)
    ensures
        r matches AppError::Provider(m) && m@ == "Groq"@ + " transcription failed ("@ + status@
            + "): "@ + quoted_body(body@),
{
    let head = prefix_string(body, ERROR_BODY_CHARS);
    AppError::Provider(
        owned(provider_label(provider)).concat(" transcription failed (").concat(status).concat(
            "): ",
        ).concat(head.as_str()),
    )
}

/// The error for a polishing request the provider refused.
pub fn enhancement_failed(status: &str, body: &str) -> (r: AppError)
    ensures
        r matches AppError::Provider(m) && m@ == "Groq LLM enhancement failed ("@ + status@ + "): "@
            + quoted_body(body@),
{
    let head = prefix_string(body, ERROR_BODY_CHARS);
    AppError::Provider(
        owned("Groq LLM enhancement failed (").concat(status).concat("): ").concat(head.as_str()),
    )
}

/// The error for a polishing request that took longer than five seconds.
pub fn enhancement_timed_out() -> (r: AppError)
    ensures
        r matches AppError::Provider(m) && m@ == "LLM enhancement timed out after 5 seconds"@,
{
    AppError::Provider(owned("LLM enhancement timed out after 5 seconds"))
}

/// The polished text in a chat completion: the first choice's content when
/// it is present and not blank.
pub fn enhancement_content(content: Option<String>) -> (r: Result<String, AppError>)
    ensures
        content matches Some(c) && !is_blank(c@) ==> (r matches Ok(s) && s@ == content->0@),
        r is Ok <==> (content matches Some(c) && !is_blank(c@)),
        r matches Err(e) ==> (e matches AppError::Provider(m) && m@
            == "Groq LLM returned an empty response"@),
{
    match content {
        Some(c) => {
            if is_blank_str(c.as_str()) {
                Err(AppError::Provider(owned("Groq LLM returned an empty response")))
            } else {
                Ok(c)
            }
        },
        None => Err(AppError::Provider(owned("Groq LLM returned an empty response"))),
    }
}

/// What a dictation outputs after polishing: the polished text when polishing
/// produced non-blank text (and is then marked enhanced), otherwise the raw
/// transcript. A failed or skipped polish never fails the dictation.
pub fn polished_or_raw(raw_text: &str, polished: Option<String>) -> (r: (String, bool))
    ensures
        polished matches Some(p) && !is_blank(p@) ==> r.0@ == polished->0@ && r.1,
        !(polished matches Some(p) && !is_blank(p@)) ==> r.0@ == raw_text@ && !r.1,
{
    match polished {
        Some(p) => {
            if is_blank_str(p.as_str()) {
                (owned(raw_text), false)
            } else {
                (p, true)
            }
        },
        None => (owned(raw_text), false),
    }
}

/// The text shown when a voice command opened an application.
pub fn opening_text(app_name: &str) -> (r: String)
    ensures
        r@ == "Opening "@ + app_name@ + seq!['\u{2026}'],
{
    let mut s = owned("Opening ").concat(app_name);
    push_char(&mut s, '\u{2026}');
    s
}

/// What to do next with a transcript.
#[derive(Debug)]
pub enum TranscriptAction {
    /// Launch the named application.
    Launch(String),
    /// The launch went through: show this text instead of the transcript.
    Announce(String),
    /// Polish the transcript in the dictation mode (or keep it raw).
    Polish,
}

/// The order in which a transcript is handled: a voice command is tried
/// before any polishing, and polishing is the fallback when there is no
/// command or its launch failed. `launched` is `None` before a launch was
/// tried, else whether it succeeded.
pub fn transcript_action(raw_text: &str, launched: Option<bool>) -> (r: TranscriptAction)
    ensures
        launched is None && open_command(raw_text@) is None ==> r is Polish,
        launched is None ==> (open_command(raw_text@) matches Some(name) ==> (r matches TranscriptAction::Launch(
            a,
        ) && a@ == name)),
        launched == Some(true) ==> (open_command(raw_text@) matches Some(name) ==> (r matches TranscriptAction::Announce(
            t,
        ) && t@ == "Opening "@ + name + seq!['\u{2026}'])),
        launched == Some(true) && open_command(raw_text@) is None ==> r is Polish,
        launched == Some(false) ==> r is Polish,
{
    match detect_open(raw_text) {
        None => TranscriptAction::Polish,
        Some(name) => match launched {
            None => TranscriptAction::Launch(name),
            Some(true) => TranscriptAction::Announce(opening_text(name.as_str())),
            Some(false) => TranscriptAction::Polish,
        },
    }
}

} // verus!
