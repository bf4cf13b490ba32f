//! The desktop front end's engine: a slot-array ring buffer, substring
//! filters, ADB discovery decisions and the streaming engine's state.

pub mod buffer;
pub mod filter;
pub mod adb;
pub mod engine;
pub mod settings;
