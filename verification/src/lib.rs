use vstd::prelude::*;

pub mod audio;
pub mod commands;
pub mod desktop_context;
pub mod ducking;
pub mod error;
pub mod history;
pub mod lifecycle;
pub mod hotkey;
pub mod output;
pub mod overlay;
pub mod platform;
pub mod rounding;
pub mod secrets;
pub mod settings;
pub mod storage;
pub mod stt;
pub mod text;

verus! {

} // verus!
