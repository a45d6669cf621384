//! Persistence rules: settings and download history.

pub mod history;
pub mod settings;
