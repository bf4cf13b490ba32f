//! Terminal-independent view logic: wrapping, formatting, find, selection,
//! text input, localisation and colours.

pub mod display;
pub mod find;
pub mod find_bar;
pub mod format;
pub mod log_list;
pub mod pointer;
pub mod i18n;
pub mod selection;
pub mod settings_panel;
pub mod text_input;
pub mod theme;
