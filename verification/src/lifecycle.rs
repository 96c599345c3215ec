//! Small decisions of the application's lifecycle: which feedback sound a
//! request names, and whether start-on-login must be changed.
use vstd::prelude::*;
use crate::text::str_equal;

verus! {

/// The two feedback sounds.
#[derive(Clone, Copy, Debug, PartialEq, Eq, Structural)]
pub enum FeedbackTone {
    Start,
    Stop,
}

/// The tone a request names: "stop" is the stop tone, anything else the
/// start tone.
pub fn feedback_tone(kind: &str) -> (r: FeedbackTone)
    ensures
        r == if kind@ == "stop"@ {
            FeedbackTone::Stop
        } else {
            FeedbackTone::Start
        },
{
    if str_equal(kind, "stop") {
        FeedbackTone::Stop
    } else {
        FeedbackTone::Start
    }
}

/// Whether start-on-login must be switched, and to what: never in a debug
/// build (which would register a development executable), never when it is
/// already as wanted, otherwise to `wanted`.
pub fn autostart_change(debug_build: bool, currently_enabled: bool, wanted: bool) -> (r: Option<bool>)
    ensures
        r == if debug_build || currently_enabled == wanted {
            None
        } else {
            Some(wanted)
        },
{
    if debug_build || currently_enabled == wanted {
        None
    } else {
        Some(wanted)
    }
}

} // verus!
