//! What the current platform supports for text output.
use vstd::prelude::*;
use crate::text::{owned, str_equal};

verus! {

#[derive(Clone, Debug)]
pub struct PlatformInfo {
    pub os: String,
    pub clipboard_paste_supported: bool,
    pub keyboard_fallback_supported: bool,
    pub notes: Vec<String>,
}

pub open spec fn linux_note() -> Seq<char> {
    "Wayland may restrict global hotkeys and synthetic input. Clipboard output remains the safest path."@
}

pub open spec fn macos_note() -> Seq<char> {
    "macOS may require Accessibility/Input Monitoring permission for paste simulation."@
}

/// The platform description for operating system `os` (as Rust names it):
/// both output paths are supported; Linux and macOS carry a caveat.
pub fn platform_info(os: &str) -> (r: PlatformInfo)
    ensures
        r.os@ == os@,
        r.clipboard_paste_supported,
        r.keyboard_fallback_supported,
        os@ == "linux"@ ==> r.notes@.len() == 1 && r.notes@[0]@ == linux_note(),
        os@ == "macos"@ ==> r.notes@.len() == 1 && r.notes@[0]@ == macos_note(),
        os@ != "linux"@ && os@ != "macos"@ ==> r.notes@.len() == 0,
{
    proof {
        reveal_strlit("linux");
        reveal_strlit("macos");
        assert("linux"@[0] != "macos"@[0]);
    }
    let mut notes: Vec<String> = Vec::new();
    if str_equal(os, "linux") {
        notes.push(
            owned(
                "Wayland may restrict global hotkeys and synthetic input. Clipboard output remains the safest path.",
            ),
        );
    } else if str_equal(os, "macos") {
        notes.push(owned("macOS may require Accessibility/Input Monitoring permission for paste simulation."));
    }
    PlatformInfo {
        os: owned(os),
        clipboard_paste_supported: true,
        keyboard_fallback_supported: true,
        notes,
    }
}

} // verus!
