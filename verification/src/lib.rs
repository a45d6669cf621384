//! ClipSave core library: link extraction, URL cleaning, platform page
//! analysis, filename and path rules, the download task state machine and
//! queue, and the MP4 remuxer.

pub mod text;
pub mod web;
pub mod page;
pub mod error;
pub mod models;
pub mod logger;

pub mod download;
pub mod commands;
pub mod parser;
pub mod storage;
