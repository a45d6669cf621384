//! Downloading: filename and path rules, the task queue, retry and
//! transfer decisions, and the MP4 remuxer that joins separate video and
//! audio streams.

pub mod downloader;
pub mod file_organizer;
pub mod muxer;
pub mod transfer;
pub mod filename_sanitizer;
pub mod task_queue;
