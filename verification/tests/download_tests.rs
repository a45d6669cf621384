use clipsave::commands::tasks::{
    directory_failure, download_outcome, generate_filename, guess_extension, guess_media_type, platform_from_str,
    DownloadOutcome,
};
use clipsave::download::downloader::{
    is_dash_merge_url, is_transient_error, parse_dash_merge, referer_for, split_str, DownloadConfig, DownloadRetry,
    RetryDecision,
};
use clipsave::download::file_organizer::{
    join_path, organize_path, organize_path_on, validate_path_within, validate_resolved_path,
};
use clipsave::error::AppError;
use clipsave::logger::redact_url;
use clipsave::models::{DownloadTask, MediaType, Platform, TaskStatus};

#[test]
fn test_organize_path_basic() {
    let result = organize_path("/downloads", Platform::Douyin, Some("author_name"), "video title", "mp4");
    assert!(result.is_ok());
    let path = result.unwrap();
    assert!(path.contains("douyin"));
    assert!(path.contains("author_name"));
    assert!(path.contains("video title.mp4"));
}

#[test]
fn test_organize_path_no_author() {
    let result = organize_path("/downloads", Platform::Xiaohongshu, None, "note title", "jpg");
    assert!(result.is_ok());
    assert!(result.unwrap().contains("unknown"));
}

#[test]
fn test_validate_path_traversal_rejected() {
    assert!(validate_path_within("/downloads", "/downloads/../etc/passwd").is_err());
}

#[test]
fn test_validate_path_within_base() {
    assert!(validate_path_within("/downloads", "/downloads/douyin/author/2024-01-01/video.mp4").is_ok());
}

#[test]
fn test_validate_path_outside_base() {
    assert!(validate_path_within("/downloads", "/other/path/file.mp4").is_err());
}

#[test]
fn test_path_components_compare_whole_names() {
    assert!(validate_path_within("/downloads", "/downloadsX/a.mp4").is_err());
    assert!(validate_path_within("/downloads/", "/downloads//a/./b.mp4").is_ok());
    assert!(validate_path_within("dl", "./dl/a").is_err());
    match validate_path_within("/d", "/d/..x") {
        Err(AppError::PermissionDenied { message }) => assert_eq!(message, "Path traversal detected: contains '..'"),
        other => panic!("unexpected {:?}", other),
    }
}

#[test]
fn test_organize_path_on_date() {
    let p = organize_path_on("/dl", Platform::Douyin, Some("a/b"), "t", "mp4", "2024-01-02").unwrap();
    assert_eq!(p, "/dl/douyin/a_b/2024-01-02/t.mp4");
    assert_eq!(join_path("", "x"), "x");
    assert_eq!(join_path("/a/", "x"), "/a/x");
    assert_eq!(join_path("/a", "/x"), "/x");
}

#[test]
fn test_download_config_defaults() {
    let c = DownloadConfig::default();
    assert_eq!(c.max_retries, 3);
    assert_eq!(c.initial_backoff_ms, 1000);
    assert_eq!(c.max_backoff_ms, 30000);
    assert_eq!(c.timeout_secs, 120);
    assert!(c.url.is_empty() && c.save_path.is_empty());
}

#[test]
fn test_download_retry_backoff() {
    let c = DownloadConfig::default();
    let mut r = DownloadRetry::new(&c);
    let net = AppError::NetworkError { message: "x".into() };
    let mut waits = Vec::new();
    loop {
        match r.on_failure(&net, c.max_retries, c.max_backoff_ms) {
            RetryDecision::RetryAfter(ms) => waits.push(ms),
            RetryDecision::GiveUp => break,
        }
    }
    assert_eq!(waits, vec![1000, 2000, 4000]);
    let mut r = DownloadRetry::new(&c);
    assert!(matches!(r.on_failure(&AppError::PermissionDenied { message: "x".into() }, 3, 30000), RetryDecision::GiveUp));
    assert!(is_transient_error(&AppError::TimeoutError { message: "t".into() }));
    assert!(!is_transient_error(&AppError::InvalidInput { message: "t".into() }));
}

#[test]
fn test_backoff_is_capped() {
    let mut r = DownloadRetry { retries: 0, backoff_ms: 20000 };
    let net = AppError::NetworkError { message: "x".into() };
    assert!(matches!(r.on_failure(&net, 5, 30000), RetryDecision::RetryAfter(20000)));
    assert_eq!(r.backoff_ms, 30000);
}

#[test]
fn test_dash_merge_parsing() {
    assert!(is_dash_merge_url("DASH_MERGE||a||b"));
    assert!(!is_dash_merge_url("https://a.com"));
    let (v, a) = parse_dash_merge("DASH_MERGE||v||a").unwrap();
    assert_eq!((v.as_str(), a.as_str()), ("v", "a"));
    match parse_dash_merge("DASH_MERGE||only") {
        Err(AppError::InvalidInput { message }) => assert_eq!(message, "Invalid DASH_MERGE URL format"),
        other => panic!("unexpected {:?}", other),
    }
    assert_eq!(split_str("a||||b", "||"), vec!["a", "", "b"]);
    assert_eq!(split_str("", "||"), vec![""]);
}

#[test]
fn test_referers() {
    assert_eq!(referer_for("https://sns-img.xhscdn.com/a.jpg"), Some("https://www.xiaohongshu.com/"));
    assert_eq!(referer_for("https://v1.douyinvod.com/a"), Some("https://www.douyin.com/"));
    assert_eq!(referer_for("https://example.com/a"), None);
}

#[test]
fn test_redact_url_with_params() {
    let redacted = redact_url("https://example.com/path?token=secret&id=123");
    assert!(redacted.contains("token=[REDACTED]"));
    assert!(redacted.contains("id=[REDACTED]"));
    assert!(!redacted.contains("secret"));
    assert!(!redacted.contains("123"));
}

#[test]
fn test_redact_url_without_params() {
    assert_eq!(redact_url("https://example.com/path"), "https://example.com/path");
}

#[test]
fn test_redact_invalid_url() {
    assert_eq!(redact_url("not a url"), "[INVALID_URL]");
}

#[test]
fn test_guessing_types_and_extensions() {
    assert_eq!(guess_media_type("DASH_MERGE||a||b"), MediaType::Video);
    assert_eq!(guess_media_type("https://a.com/x.gif"), MediaType::Gif);
    assert_eq!(guess_media_type("https://sns-img.xhscdn.com/abc"), MediaType::Image);
    assert_eq!(guess_media_type("https://a.com/file"), MediaType::Unknown);
    assert_eq!(guess_extension("https://a.com/x.png?y", &MediaType::Video), "png");
    assert_eq!(guess_extension("https://a.com/x", &MediaType::Gif), "gif");
    assert_eq!(guess_extension("https://a.com/x", &MediaType::Unknown), "bin");
    assert_eq!(guess_extension("https://a.com/?mime_type=video_mp4", &MediaType::Image), "mp4");
    assert_eq!(platform_from_str("xiaohongshu"), Platform::Xiaohongshu);
    assert_eq!(platform_from_str("youtube"), Platform::Douyin);
}

#[test]
fn test_generate_filename() {
    let mut task = DownloadTask::with_identity(
        "0123456789abcdef".to_string(),
        "https://a.com/v.mp4".to_string(),
        Platform::Douyin,
        MediaType::Video,
        0,
    );
    task.title = Some("  My: clip/名字  ".to_string());
    let (folder, file) = generate_filename(&task);
    assert_eq!(folder, "My_ clip_名字");
    assert_eq!(file, "My_ clip_名字_01234567.mp4");
    task.title = None;
    let (folder, file) = generate_filename(&task);
    assert_eq!(folder, "未知标题");
    assert_eq!(file, "未知标题_01234567.mp4");
    task.title = Some("???".to_string());
    assert_eq!(generate_filename(&task).0, "___");
}

#[test]
fn test_download_outcome_completed() {
    let (status, outcome) = download_outcome("t1", &Ok("/d/a.mp4".to_string()));
    assert_eq!(status, TaskStatus::Completed);
    match outcome {
        DownloadOutcome::Completed(ev) => {
            assert_eq!(ev.id, "t1");
            assert_eq!(ev.save_path, "/d/a.mp4");
        }
        other => panic!("unexpected {:?}", other),
    }
}

#[test]
fn test_download_outcome_failed() {
    let err = AppError::NetworkError { message: "boom".to_string() };
    let (status, outcome) = download_outcome("t2", &Err(err));
    assert_eq!(status, TaskStatus::Failed);
    match outcome {
        DownloadOutcome::Failed(ev) => {
            assert_eq!(ev.id, "t2");
            assert_eq!(ev.error_code, "DownloadFailed");
            assert_eq!(ev.error_message, "下载失败: Network error: boom");
        }
        other => panic!("unexpected {:?}", other),
    }
    let ev = directory_failure("t3", "denied");
    assert_eq!(ev.error_code, "DiskFullOrIoError");
    assert_eq!(ev.error_message, "无法创建下载目录: denied");
}

#[test]
fn test_validate_resolved_path_refuses_link_escape() {
    // A path under the download directory whose link leads outside it.
    match validate_resolved_path("/downloads/link/file.mp4", "/downloads", "/etc/file.mp4") {
        Err(AppError::PermissionDenied { message }) => {
            assert_eq!(message, "Path is outside the allowed download directory")
        }
        other => panic!("unexpected {:?}", other),
    }
    assert!(validate_resolved_path("/downloads/a/file.mp4", "/downloads", "/downloads/a/file.mp4").is_ok());
    match validate_resolved_path("/downloads/../x", "/downloads", "/x") {
        Err(AppError::PermissionDenied { message }) => assert_eq!(message, "Path traversal detected: contains '..'"),
        other => panic!("unexpected {:?}", other),
    }
}

#[test]
fn test_organize_path_date_shape() {
    let path = organize_path("/downloads", Platform::Douyin, None, "title", "mp4").unwrap();
    let parts: Vec<&str> = path.split('/').collect();
    let date = parts[parts.len() - 2];
    assert!(date.len() >= 10);
    assert!(date.chars().all(|c| c.is_ascii_digit() || c == '-' || c == '+'));
}
