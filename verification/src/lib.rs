//! Verified core of a terminal Android logcat viewer: threadtime parsing,
//! bounded log storage, filtering, text layout and selection geometry.

pub mod parser;
pub mod text;
pub mod stream;
pub mod buffer;
pub mod desktop;
pub mod filter;
pub mod ui;
pub mod cli;
pub mod settings;
pub mod panel;
pub mod engine;
pub mod controls;
