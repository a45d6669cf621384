use clipsave::error::{database_failure, http_failure, io_failure, AppError};
use clipsave::models::{AppSettings, DownloadTask, MediaType, Platform, TaskStatus};

#[test]
fn test_valid_transitions_from_waiting() {
    let status = TaskStatus::Waiting;
    assert!(status.can_transition_to(&TaskStatus::Parsing).is_ok());
    assert!(status.can_transition_to(&TaskStatus::Cancelled).is_ok());
    assert!(status.can_transition_to(&TaskStatus::Downloading).is_err());
    assert!(status.can_transition_to(&TaskStatus::Completed).is_err());
}

#[test]
fn test_valid_transitions_from_parsing() {
    let status = TaskStatus::Parsing;
    assert!(status.can_transition_to(&TaskStatus::Downloading).is_ok());
    assert!(status.can_transition_to(&TaskStatus::Failed).is_ok());
    assert!(status.can_transition_to(&TaskStatus::Cancelled).is_ok());
    assert!(status.can_transition_to(&TaskStatus::Paused).is_err());
    assert!(status.can_transition_to(&TaskStatus::Completed).is_err());
}

#[test]
fn test_valid_transitions_from_downloading() {
    let status = TaskStatus::Downloading;
    assert!(status.can_transition_to(&TaskStatus::Paused).is_ok());
    assert!(status.can_transition_to(&TaskStatus::Completed).is_ok());
    assert!(status.can_transition_to(&TaskStatus::Failed).is_ok());
    assert!(status.can_transition_to(&TaskStatus::Cancelled).is_ok());
    assert!(status.can_transition_to(&TaskStatus::Waiting).is_err());
}

#[test]
fn test_valid_transitions_from_paused() {
    let status = TaskStatus::Paused;
    assert!(status.can_transition_to(&TaskStatus::Downloading).is_ok());
    assert!(status.can_transition_to(&TaskStatus::Cancelled).is_ok());
    assert!(status.can_transition_to(&TaskStatus::Completed).is_err());
}

#[test]
fn test_valid_transitions_from_failed() {
    let status = TaskStatus::Failed;
    assert!(status.can_transition_to(&TaskStatus::Waiting).is_ok());
    assert!(status.can_transition_to(&TaskStatus::Cancelled).is_ok());
    assert!(status.can_transition_to(&TaskStatus::Downloading).is_err());
}

#[test]
fn test_terminal_states_reject_all_transitions() {
    for terminal in [TaskStatus::Completed, TaskStatus::Cancelled] {
        assert!(terminal.can_transition_to(&TaskStatus::Waiting).is_err());
        assert!(terminal.can_transition_to(&TaskStatus::Parsing).is_err());
        assert!(terminal.can_transition_to(&TaskStatus::Downloading).is_err());
        assert!(terminal.can_transition_to(&TaskStatus::Paused).is_err());
        assert!(terminal.can_transition_to(&TaskStatus::Failed).is_err());
        assert!(terminal.can_transition_to(&TaskStatus::Completed).is_err());
        assert!(terminal.can_transition_to(&TaskStatus::Cancelled).is_err());
        assert!(terminal.is_terminal());
    }
}

#[test]
fn test_download_task_creation() {
    let task = DownloadTask::new("https://example.com".to_string(), Platform::Douyin, MediaType::Video);
    assert_eq!(task.status, TaskStatus::Waiting);
    assert_eq!(task.progress_hundredths, 0);
    assert!(!task.id.is_empty());
}

#[test]
fn test_default_settings() {
    let settings = AppSettings::default();
    assert_eq!(settings.max_concurrency, 3);
    assert_eq!(settings.language, "zh-CN");
    assert_eq!(settings.theme, "system");
    assert!(!settings.auto_clipboard);
    assert!(settings.keep_history);
}

#[test]
fn test_invalid_transition_error_names_both_states() {
    let err = TaskStatus::Waiting.can_transition_to(&TaskStatus::Completed).unwrap_err();
    match err {
        AppError::InvalidTransition { message, from, to } => {
            assert_eq!(message, "Cannot transition from Waiting to Completed");
            assert_eq!(from, "waiting");
            assert_eq!(to, "completed");
        }
        other => panic!("unexpected error {:?}", other),
    }
}

#[test]
fn test_task_ids_are_hyphenated_uuids() {
    let task = DownloadTask::new("https://example.com/a.mp4".to_string(), Platform::Xiaohongshu, MediaType::Image);
    assert_eq!(task.id.len(), 36);
    for (i, c) in task.id.chars().enumerate() {
        if i == 8 || i == 13 || i == 18 || i == 23 {
            assert_eq!(c, '-');
        } else {
            assert!(c.is_ascii_hexdigit() && !c.is_ascii_uppercase());
        }
    }
    let other = DownloadTask::new("https://example.com/a.mp4".to_string(), Platform::Xiaohongshu, MediaType::Image);
    assert_ne!(task.id, other.id);
    assert_eq!(task.created_at, task.updated_at);
}

#[test]
fn test_status_names() {
    assert_eq!(TaskStatus::Downloading.as_str(), "downloading");
    assert_eq!(TaskStatus::Cancelled.debug_name(), "Cancelled");
    assert_eq!(Platform::Xiaohongshu.as_str(), "xiaohongshu");
}

#[test]
fn test_error_serialization() {
    let err = AppError::ParseFailed { message: "test".to_string(), platform_hint: Some("douyin".to_string()) };
    assert_eq!(err.code(), "ParseFailed");
    assert_eq!(err.to_display_string(), "Parse failed: test");
    match err {
        AppError::ParseFailed { platform_hint, .. } => assert_eq!(platform_hint.as_deref(), Some("douyin")),
        _ => unreachable!(),
    }
}

#[test]
fn test_all_variants_serialize() {
    let variants: Vec<AppError> = vec![
        AppError::ParseFailed { message: "m".into(), platform_hint: None },
        AppError::UnsupportedPlatform { message: "m".into() },
        AppError::RestrictedContent { message: "m".into() },
        AppError::ContentNotFound { message: "m".into() },
        AppError::NetworkError { message: "m".into() },
        AppError::TimeoutError { message: "m".into() },
        AppError::PermissionDenied { message: "m".into() },
        AppError::DiskFullOrIoError { message: "m".into() },
        AppError::InvalidInput { message: "m".into() },
        AppError::TooManyRedirects { message: "m".into() },
        AppError::UnsafeRedirect { message: "m".into() },
        AppError::InvalidTransition { message: "m".into(), from: "a".into(), to: "b".into() },
    ];
    for variant in variants {
        assert!(!variant.code().is_empty());
        assert!(!variant.to_display_string().is_empty());
    }
}

#[test]
fn test_error_display_texts() {
    let e = AppError::InvalidTransition { message: "no".into(), from: "A".into(), to: "B".into() };
    assert_eq!(e.to_display_string(), "Invalid transition from A to B: no");
    assert_eq!(AppError::TimeoutError { message: "x".into() }.to_display_string(), "Timeout: x");
    assert_eq!(AppError::DiskFullOrIoError { message: "x".into() }.to_display_string(), "I/O error: x");
}

#[test]
fn test_http_failure_mapping() {
    assert!(matches!(http_failure(true, true, true, "x"), AppError::TimeoutError { .. }));
    match http_failure(false, true, false, "x") {
        AppError::NetworkError { message } => assert_eq!(message, "Connection failed"),
        _ => panic!(),
    }
    assert!(matches!(http_failure(false, false, true, "x"), AppError::TooManyRedirects { .. }));
    match http_failure(false, false, false, "boom") {
        AppError::NetworkError { message } => assert_eq!(message, "HTTP error: boom"),
        _ => panic!(),
    }
    match database_failure("locked") {
        AppError::DiskFullOrIoError { message } => assert_eq!(message, "Database error: locked"),
        _ => panic!(),
    }
    match io_failure("full") {
        AppError::DiskFullOrIoError { message } => assert_eq!(message, "I/O error: full"),
        _ => panic!(),
    }
}
