use clipsave::error::AppError;
use clipsave::parser::fetcher::{FetchAction, FetchEvent, PageFetch};

#[test]
fn test_fetch_status_decisions() {
    let mut f = PageFetch::new();
    assert!(matches!(f.on_event(FetchEvent::Status(200)), FetchAction::ReadBody));
    match f.on_event(FetchEvent::Status(403)) {
        FetchAction::Fail(AppError::RestrictedContent { message }) => {
            assert_eq!(message, "Access denied (HTTP 403). Content may require login or is restricted.")
        }
        other => panic!("unexpected {:?}", other),
    }
    match f.on_event(FetchEvent::Status(404)) {
        FetchAction::Fail(AppError::ContentNotFound { message }) => assert_eq!(message, "The requested content was not found (404)"),
        other => panic!("unexpected {:?}", other),
    }
    assert!(matches!(f.on_event(FetchEvent::Status(451)), FetchAction::Fail(AppError::RestrictedContent { .. })));
    assert!(matches!(f.on_event(FetchEvent::Status(429)), FetchAction::Fail(AppError::RestrictedContent { .. })));
    match f.on_event(FetchEvent::Status(302)) {
        FetchAction::Fail(AppError::NetworkError { message }) => assert_eq!(message, "Unexpected HTTP status: 302"),
        other => panic!("unexpected {:?}", other),
    }
}

#[test]
fn test_fetch_retries_with_doubling_backoff() {
    let mut f = PageFetch::new();
    match f.on_event(FetchEvent::Status(503)) {
        FetchAction::RetryAfter(ms) => assert_eq!(ms, 1000),
        other => panic!("unexpected {:?}", other),
    }
    match f.on_event(FetchEvent::Timeout) {
        FetchAction::RetryAfter(ms) => assert_eq!(ms, 2000),
        other => panic!("unexpected {:?}", other),
    }
    match f.on_event(FetchEvent::Status(500)) {
        FetchAction::Fail(AppError::NetworkError { message }) => assert_eq!(message, "Server error after 2 retries: HTTP 500"),
        other => panic!("unexpected {:?}", other),
    }
    assert_eq!(f.retries, 2);
}

#[test]
fn test_fetch_gives_up_on_timeouts_and_failures() {
    let mut f = PageFetch::new();
    assert!(matches!(f.on_event(FetchEvent::Failed("x".into())), FetchAction::RetryAfter(1000)));
    assert!(matches!(f.on_event(FetchEvent::Failed("x".into())), FetchAction::RetryAfter(2000)));
    match f.on_event(FetchEvent::Timeout) {
        FetchAction::Fail(AppError::TimeoutError { message }) => assert_eq!(message, "Request timed out after 2 retries"),
        other => panic!("unexpected {:?}", other),
    }
    match f.on_event(FetchEvent::Failed("reset".into())) {
        FetchAction::Fail(AppError::NetworkError { message }) => assert_eq!(message, "Network error after 2 retries: reset"),
        other => panic!("unexpected {:?}", other),
    }
}
