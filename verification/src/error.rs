//! The application's error type.
use vstd::prelude::*;
use crate::text::owned;

verus! {

/// Every failure the application reports, each with a human-readable detail.
#[derive(Debug)]
pub enum AppError {
    Audio(String),
    Config(String),
    History(String),
    Hotkey(String),
    Network(String),
    Output(String),
    Provider(String),
    Secret(String),
}

impl AppError {
    /// The label that introduces the detail when the error is shown.
    pub open spec fn spec_label(&self) -> Seq<char> {
        match self {
            AppError::Audio(_) => "Audio error: "@,
            AppError::Config(_) => "Configuration error: "@,
            AppError::History(_) => "History error: "@,
            AppError::Hotkey(_) => "Hotkey error: "@,
            AppError::Network(_) => "Network error: "@,
            AppError::Output(_) => "Output error: "@,
            AppError::Provider(_) => "Provider error: "@,
            AppError::Secret(_) => "Secret error: "@,
        }
    }

    /// The detail carried by the error.
    pub open spec fn spec_detail(&self) -> Seq<char> {
        match self {
            AppError::Audio(m) => m@,
            AppError::Config(m) => m@,
            AppError::History(m) => m@,
            AppError::Hotkey(m) => m@,
            AppError::Network(m) => m@,
            AppError::Output(m) => m@,
            AppError::Provider(m) => m@,
            AppError::Secret(m) => m@,
        }
    }

    /// The text shown to the user: the label, then the detail.
    pub fn message(&self) -> (r: String)
        ensures
            r@ == self.spec_label() + self.spec_detail(),
    {
        match self {
            AppError::Audio(m) => owned("Audio error: ").concat(m.as_str()),
            AppError::Config(m) => owned("Configuration error: ").concat(m.as_str()),
            AppError::History(m) => owned("History error: ").concat(m.as_str()),
            AppError::Hotkey(m) => owned("Hotkey error: ").concat(m.as_str()),
            AppError::Network(m) => owned("Network error: ").concat(m.as_str()),
            AppError::Output(m) => owned("Output error: ").concat(m.as_str()),
            AppError::Provider(m) => owned("Provider error: ").concat(m.as_str()),
            AppError::Secret(m) => owned("Secret error: ").concat(m.as_str()),
        }
    }
}

} // verus!
