//! Parsing: link extraction from share text, URL cleaning, and the
//! platform page analysers.

pub mod common;
pub mod douyin;
pub mod fetcher;
pub mod link_extractor;
pub mod page_meta;
pub mod registry;
pub mod url_normalizer;
pub mod xiaohongshu;
