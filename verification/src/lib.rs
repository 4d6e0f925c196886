//! Local, real-time dictation.

pub mod audio;
pub mod cleaner;
pub mod commands;
pub mod config;
pub mod corrector;
pub mod diarize;
pub mod events;
pub mod fnkey;
pub mod gate;
pub mod hotkey;
pub mod injector;
pub mod json;
pub mod meeting_detect;
pub mod pipeline;
pub mod queue;
pub mod server;
pub mod session;
pub mod settings;
pub mod sidecar;
pub mod text;
pub mod tray;
