use clipsave::download::filename_sanitizer::{
    collision_candidate, collision_fallback, sanitize, CollisionSearch, MAX_FILENAME_BYTES,
};
use std::path::Path;
use tempfile::{Builder, NamedTempFile, TempDir};

/// Create an empty file named `prefix` + `suffix` in `dir`; it lives as
/// long as the returned handle.
fn touch(dir: &Path, prefix: &str, suffix: &str) -> NamedTempFile {
    Builder::new().prefix(prefix).suffix(suffix).rand_bytes(0).tempfile_in(dir).unwrap()
}

/// Find a free name in `dir` the way the application does: the name, then
/// the alternatives the search proposes, then the fallback.
fn resolve_collision(dir: &Path, filename: &str) -> String {
    if !dir.join(filename).exists() {
        return filename.to_string();
    }
    let mut search = CollisionSearch::new(filename);
    loop {
        match search.on_taken() {
            Some(candidate) => {
                if !dir.join(&candidate).exists() {
                    return candidate;
                }
            }
            None => return collision_fallback(filename, "fallback-id"),
        }
    }
}

#[test]
fn test_sanitize_basic() {
    assert_eq!(sanitize("hello world", Some("mp4")), "hello world.mp4");
}

#[test]
fn test_sanitize_invalid_chars() {
    assert_eq!(sanitize("file<name>:test", Some("jpg")), "file_name__test.jpg");
}

#[test]
fn test_sanitize_control_chars() {
    assert_eq!(sanitize("file\x00name\x1f", Some("png")), "file_name_.png");
}

#[test]
fn test_sanitize_trailing_dots_and_spaces() {
    assert_eq!(sanitize("filename...", Some("mp4")), "filename.mp4");
}

#[test]
fn test_sanitize_empty_input() {
    assert_eq!(sanitize("", Some("mp4")), "untitled.mp4");
}

#[test]
fn test_sanitize_whitespace_only() {
    assert_eq!(sanitize("   ", Some("jpg")), "untitled.jpg");
}

#[test]
fn test_sanitize_all_invalid_chars() {
    let result = sanitize("<>:\"/\\|?*", Some("txt"));
    assert!(result.contains("_"));
    assert!(result.ends_with(".txt"));
}

#[test]
fn test_sanitize_no_extension() {
    assert_eq!(sanitize("filename", None), "filename");
}

#[test]
fn test_sanitize_truncation() {
    let long_name = "a".repeat(200);
    let result = sanitize(&long_name, Some("mp4"));
    assert!(result.len() <= MAX_FILENAME_BYTES);
    assert!(result.ends_with(".mp4"));
}

#[test]
fn test_sanitize_idempotence() {
    let inputs = vec!["hello world", "file<name>test", "trailing...", "  spaces  ", "normal_file", "中文文件名"];
    for input in inputs {
        let first = sanitize(input, Some("mp4"));
        let stem = first.strip_suffix(".mp4").unwrap_or(&first);
        let second = sanitize(stem, Some("mp4"));
        assert_eq!(first, second, "Not idempotent for input: {}", input);
    }
}

#[test]
fn test_sanitize_chinese_characters() {
    assert_eq!(sanitize("抖音视频标题", Some("mp4")), "抖音视频标题.mp4");
}

#[test]
fn test_resolve_collision_no_conflict() {
    let dir = TempDir::new().unwrap();
    assert_eq!(resolve_collision(dir.path(), "test.mp4"), "test.mp4");
}

#[test]
fn test_resolve_collision_with_conflict() {
    let dir = TempDir::new().unwrap();
    let _a = touch(dir.path(), "test", ".mp4");
    assert_eq!(resolve_collision(dir.path(), "test.mp4"), "test-1.mp4");
}

#[test]
fn test_resolve_collision_multiple() {
    let dir = TempDir::new().unwrap();
    let _a = touch(dir.path(), "test", ".mp4");
    let _b = touch(dir.path(), "test-1", ".mp4");
    let _c = touch(dir.path(), "test-2", ".mp4");
    assert_eq!(resolve_collision(dir.path(), "test.mp4"), "test-3.mp4");
}

#[test]
fn test_filename_length_bound() {
    let long_input = "这是一个非常长的中文标题".repeat(20);
    let result = sanitize(&long_input, Some("mp4"));
    assert!(result.as_bytes().len() <= MAX_FILENAME_BYTES);
}

#[test]
fn test_truncation_keeps_whole_characters() {
    let long_input = "这是一个非常长的中文标题".repeat(20);
    let result = sanitize(&long_input, Some("mp4"));
    assert!(result.ends_with(".mp4"));
    let stem = result.strip_suffix(".mp4").unwrap();
    assert!(long_input.starts_with(stem));
    assert_eq!(stem.len(), 174);
}

#[test]
fn test_sanitize_leading_whitespace_trimmed() {
    assert_eq!(sanitize("  name", Some("mp4")), "name.mp4");
    assert_eq!(sanitize("...", Some("mp4")), "untitled.mp4");
    assert_eq!(sanitize("a", Some("")), "a");
}

#[test]
fn test_collision_candidates() {
    assert_eq!(collision_candidate("test.mp4", 12), "test-12.mp4");
    assert_eq!(collision_candidate("archive.tar.gz", 1), "archive.tar-1.gz");
    assert_eq!(collision_candidate("README", 2), "README-2");
    assert_eq!(collision_candidate(".hidden", 3), ".hidden-3");
    assert_eq!(collision_candidate("", 1), "untitled-1");
    assert_eq!(collision_fallback("clip.mp4", "abc"), "clip_abc");
}

#[test]
fn test_collision_search_gives_up_after_limit() {
    let mut search = CollisionSearch::new("x.mp4");
    let mut last = String::new();
    for _ in 0..10000 {
        last = search.on_taken().unwrap();
    }
    assert_eq!(last, "x-10000.mp4");
    assert!(search.on_taken().is_none());
}
