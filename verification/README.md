# orcavoice

The decision logic of the OrcaVoice dictation overlay, verified with Verus.

- `src/` is the library: voice-command detection, selection capture limits,
  the Unicode key events that type a transcript, the hotkey edge latch, audio
  ducking decisions, down-mixing, resampling (with binary64 round-to-nearest
  modelled exactly in integers, `src/rounding.rs`), the silence gate, WAV
  encoding of a capture, overlay placement, API-key precedence, settings
  defaults and repairs, transcript parsing and the polishing fallback. Laws
  that relate several calls are public `proof fn`s next to the functions they
  speak of.
- Its functions are verified against their contracts, except the three that
  call outside code, whose contracts are trusted: `text::push_char` (std's
  `String::push`), `storage::format_utc` (chrono's timestamp formatting) and
  the WAV writer in `audio` (hound). Each states in its doc comment what it
  claims of the code it calls.
- `tests/` runs the library on concrete values.
- `app/` is the desktop shell around the library: Tauri commands and window
  handling, microphone capture (cpal), HTTP calls to Groq (reqwest), the OS
  keyring, Windows UI Automation, Core Audio and `SendInput`, and the
  floating-point telemetry. It hands the library plain values and acts on the
  decisions it returns.

There is no provider benchmark: Groq is the only speech provider, so there
is nothing to compare it with.
