//! Voice commands: recognising "open/launch/start <app>" in a transcript, and
//! turning the outcome of launching that application into a result.
use vstd::prelude::*;
use crate::error::AppError;
use crate::text::{ascii_lower, ascii_lower_char, chars_of, owned, string_of, trim, trimmed_chars};

verus! {

/// The spoken prefixes that introduce an application name, in the order they
/// are tried.
pub open spec fn open_prefix(k: int) -> Seq<char> {
    if k == 0 {
        seq!['o', 'p', 'e', 'n', ' ']
    } else if k == 1 {
        seq!['l', 'a', 'u', 'n', 'c', 'h', ' ']
    } else {
        seq!['s', 't', 'a', 'r', 't', ' ']
    }
}

/// `t` begins with `p`, ignoring ASCII case (`p` is lower case).
pub open spec fn starts_with_ci(t: Seq<char>, p: Seq<char>) -> bool {
    &&& t.len() >= p.len()
    &&& forall|i: int| 0 <= i < p.len() ==> ascii_lower(#[trigger] t[i]) == p[i]
}

/// The application named after prefix `p` in the trimmed text `t`, when `t`
/// starts with `p` and something other than whitespace follows it.
pub open spec fn app_after(t: Seq<char>, p: Seq<char>) -> Option<Seq<char>> {
    if starts_with_ci(t, p) && trim(t.skip(p.len() as int)).len() > 0 {
        Some(trim(t.skip(p.len() as int)))
    } else {
        None
    }
}

/// The application that `raw` asks to open: the text after the first of
/// "open ", "launch ", "start " (any ASCII case) that begins the trimmed
/// transcript and is followed by a non-blank name.
pub open spec fn open_command(raw: Seq<char>) -> Option<Seq<char>> {
    let t = trim(raw);
    if t.len() == 0 {
        None
    } else if app_after(t, open_prefix(0)) is Some {
        app_after(t, open_prefix(0))
    } else if app_after(t, open_prefix(1)) is Some {
        app_after(t, open_prefix(1))
    } else {
        app_after(t, open_prefix(2))
    }
}

fn prefix_chars(k: usize) -> (p: Vec<char>)
    requires
        k < 3,
    ensures
        p@ == open_prefix(k as int),
{
    let p = if k == 0 {
        vec!['o', 'p', 'e', 'n', ' ']
    } else if k == 1 {
        vec!['l', 'a', 'u', 'n', 'c', 'h', ' ']
    } else {
        vec!['s', 't', 'a', 'r', 't', ' ']
    };
    assert(p@ == open_prefix(k as int));
    p
}

fn starts_with_ci_exec(t: &[char], p: &[char]) -> (r: bool)
    ensures
        r == starts_with_ci(t@, p@),
{
    if t.len() < p.len() {
        return false;
    }
    let mut i: usize = 0;
    while i < p.len()
        invariant
            i <= p@.len() <= t@.len(),
            forall|j: int| 0 <= j < i ==> ascii_lower(#[trigger] t@[j]) == p@[j],
        decreases p@.len() - i,
    {
        if ascii_lower_char(t[i]) != p[i] {
            return false;
        }
        i = i + 1;
    }
    true
}

fn app_after_exec(t: &[char], k: usize) -> (r: Option<String>)
    requires
        k < 3,
    ensures
        r matches Some(s) ==> app_after(t@, open_prefix(k as int)) == Some(s@),
        r is None ==> app_after(t@, open_prefix(k as int)) is None,
{
    let p = prefix_chars(k);
    if !starts_with_ci_exec(t, p.as_slice()) {
        return None;
    }
    let mut rest: Vec<char> = Vec::new();
    let mut i = p.len();
    while i < t.len()
        invariant
            p@.len() <= i <= t@.len(),
            rest@ == t@.subrange(p@.len() as int, i as int),
        decreases t@.len() - i,
    {
        rest.push(t[i]);
        assert(t@.subrange(p@.len() as int, i + 1) == t@.subrange(p@.len() as int, i as int).push(t@[i as int]));
        i = i + 1;
    }
    assert(rest@ == t@.skip(p@.len() as int));
    let name = trimmed_chars(rest.as_slice());
    if name.len() == 0 {
        None
    } else {
        Some(string_of(name.as_slice()))
    }
}

/// Checks whether `raw_text` begins with "open", "launch", or "start"
/// (case-insensitive). Returns the remainder as the application name, or
/// `None` when the text does not start with one of these prefixes or the
/// prefix is followed by nothing.
pub fn detect_open(raw_text: &str) -> (r: Option<String>)
    ensures
        r matches Some(s) ==> open_command(raw_text@) == Some(s@),
        r is None ==> open_command(raw_text@) is None,
{
    let all = chars_of(raw_text);
    let t = trimmed_chars(all.as_slice());
    if t.len() == 0 {
        return None;
    }
    let mut k: usize = 0;
    while k < 3
        invariant
            k <= 3,
            t@ == trim(raw_text@),
            t@.len() > 0,
            forall|j: int| 0 <= j < k ==> app_after(t@, open_prefix(j)) is None,
        decreases 3 - k,
    {
        let found = app_after_exec(t.as_slice(), k);
        if found.is_some() {
            return found;
        }
        k = k + 1;
    }
    assert(app_after(t@, open_prefix(0)) is None);
    assert(app_after(t@, open_prefix(1)) is None);
    assert(app_after(t@, open_prefix(2)) is None);
    None
}

/// How an attempt to start an application ended, as the operating system
/// reported it.
pub enum LaunchOutcome {
    /// The launcher could not be run at all; the payload is the OS error text.
    SpawnFailed(String),
    /// The launcher ran and exited, successfully or not.
    Exited(bool),
}

/// The message for an application the launcher could not start.
pub open spec fn launch_error_text(app_name: Seq<char>, error: Seq<char>) -> Seq<char> {
    "Cannot launch \""@ + app_name + "\": "@ + error
}

/// The message for an application the launcher did not find.
pub open spec fn not_found_text(app_name: Seq<char>) -> Seq<char> {
    "Could not find or launch \""@ + app_name + "\""@
}

/// Turns the outcome of launching `app_name` into the result the caller sees:
/// `Ok` exactly when the launcher ran and reported success, otherwise an
/// output error naming the application, so the caller can fall back to
/// pasting the transcript.
pub fn open_application(app_name: &str, outcome: LaunchOutcome) -> (r: Result<(), AppError>)
    ensures
        r is Ok <==> outcome == LaunchOutcome::Exited(true),
        outcome matches LaunchOutcome::SpawnFailed(e) ==> (r matches Err(AppError::Output(m))
            && m@ == launch_error_text(app_name@, e@)),
        outcome == LaunchOutcome::Exited(false) ==> (r matches Err(AppError::Output(m))
            && m@ == not_found_text(app_name@)),
{
    match outcome {
        LaunchOutcome::SpawnFailed(e) => {
            let m = owned("Cannot launch \"").concat(app_name).concat("\": ").concat(e.as_str());
            Err(AppError::Output(m))
        },
        LaunchOutcome::Exited(success) => {
            if success {
                Ok(())
            } else {
                let m = owned("Could not find or launch \"").concat(app_name).concat("\"");
                Err(AppError::Output(m))
            }
        },
    }
}

} // verus!
