//! Rules behind the application's commands.

pub mod files;
pub mod parse;
pub mod settings;
pub mod tasks;
