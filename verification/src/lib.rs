//! The control logic of a polyphonic synthesizer tuned to Raag Bhairav.
//!
//! Keys, MIDI messages and two clocks turn into [`command::AudioCommand`]s; the
//! [`engine::Engine`] gives notes their voices, keeps the switches and cuts recordings
//! into chunks; [`ui::UiState`] is what the screen shows of it. Audio samples pass
//! through as [`single::Single`] bit patterns: the arithmetic on them belongs to the
//! program around this library.

pub mod clock;
pub mod command;
pub mod computed;
pub mod controls;
pub mod decimal;
pub mod delay;
pub mod engine;
pub mod midi;
pub mod pool;
pub mod recorder;
pub mod rounding;
pub mod single;
pub mod spectrum;
pub mod tuning;
pub mod ui;
pub mod voice;
