use clipsave::download::transfer::{
    expected_total, parse_u64, range_header, response_mode, status_line, ProgressMeter, WriteMode,
};
use clipsave::error::AppError;

#[test]
fn test_status_line_display() {
    assert_eq!(status_line(404), "404 Not Found");
    assert_eq!(status_line(206), "206 Partial Content");
    assert_eq!(status_line(299), "299 <unknown status code>");
}

#[test]
fn test_response_mode_refuses_failures() {
    match response_mode(404, 0) {
        Err(AppError::NetworkError { message }) => assert_eq!(message, "HTTP 404 Not Found - 服务器拒绝请求"),
        other => panic!("unexpected {:?}", other),
    }
    match response_mode(302, 10) {
        Err(AppError::NetworkError { message }) => assert_eq!(message, "HTTP 302 Found - 服务器拒绝请求"),
        other => panic!("unexpected {:?}", other),
    }
}

#[test]
fn test_response_mode_resume_or_restart() {
    assert_eq!(response_mode(206, 10).unwrap(), WriteMode::Append);
    assert_eq!(response_mode(206, 0).unwrap(), WriteMode::Create);
    assert_eq!(response_mode(200, 10).unwrap(), WriteMode::Create);
    assert_eq!(response_mode(200, 0).unwrap(), WriteMode::Create);
}

#[test]
fn test_range_header() {
    assert_eq!(range_header(0), None);
    assert_eq!(range_header(1234).as_deref(), Some("bytes=1234-"));
}

#[test]
fn test_parse_u64_like_std() {
    assert_eq!(parse_u64("+42"), Some(42));
    assert_eq!(parse_u64("0007"), Some(7));
    assert_eq!(parse_u64("18446744073709551615"), Some(u64::MAX));
    assert_eq!(parse_u64("18446744073709551616"), None);
    assert_eq!(parse_u64(""), None);
    assert_eq!(parse_u64("+"), None);
    assert_eq!(parse_u64("-1"), None);
    assert_eq!(parse_u64(" 1"), None);
    for s in ["1", "+9", "123456789", "99999999999999999999", "1a", "++1"] {
        assert_eq!(parse_u64(s), s.parse::<u64>().ok());
    }
}

#[test]
fn test_expected_total() {
    assert_eq!(expected_total(Some(100), 50), Some(150));
    assert_eq!(expected_total(None, 50), None);
}

#[test]
fn test_progress_meter_paces_reports_and_measures_speed() {
    let mut m = ProgressMeter::new(100, 0);
    assert!(m.on_chunk(50, 10, 10).is_none());
    let r = m.on_chunk(1000, 300_000_000, 300_000_000).unwrap();
    assert_eq!(r.downloaded, 1150);
    assert_eq!(r.speed, 1050);
    assert!(m.on_chunk(5, 400_000_000, 400_000_000).is_none());
    let r = m.on_chunk(10, 7_000_000_000, 7_000_000_000).unwrap();
    assert_eq!(r.downloaded, 1165);
    assert_eq!(r.speed, 10);
    let r = m.on_chunk(2000, 8_000_000_000, 9_500_000_000).unwrap();
    assert_eq!(r.downloaded, 3165);
    assert_eq!(r.speed, 1005);
    assert_eq!(m.samples.len(), 2);
}
