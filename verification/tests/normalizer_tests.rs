use clipsave::error::AppError;
use clipsave::parser::common::NormalizedUrl;
use clipsave::parser::registry::{choose_parser, xhs_status_error};
use clipsave::parser::url_normalizer::{
    finish_redirects, is_short_link_host, is_tracking_param_key, is_whitelisted_host, next_redirect,
    normalize_start, strip_query, NormalizeStep, RedirectAction, RedirectChain, RedirectStep, MAX_REDIRECTS,
};
use clipsave::models::Platform;

fn normalize_local(url: &str) -> Result<NormalizedUrl, AppError> {
    match normalize_start(url)? {
        NormalizeStep::Done(n) => Ok(n),
        NormalizeStep::ResolveRedirects(u) => panic!("unexpected redirect resolution for {}", u),
    }
}

#[test]
fn test_normalize_strips_tracking_params() {
    let url = "https://www.douyin.com/video/123?utm_source=share&utm_medium=social&vid=123";
    let result = normalize_local(url).unwrap();
    assert!(!result.canonical.contains("utm_source"));
    assert!(!result.canonical.contains("utm_medium"));
    assert!(result.canonical.contains("vid=123"));
}

#[test]
fn test_normalize_preserves_required_params() {
    let url = "https://www.xiaohongshu.com/explore/abc123?xsec_token=test123";
    let result = normalize_local(url).unwrap();
    assert!(result.canonical.contains("xsec_token=test123"));
}

#[test]
fn test_normalize_rejects_non_http_scheme() {
    assert!(normalize_start("ftp://example.com/file").is_err());
}

#[test]
fn test_normalize_handles_percent_encoding() {
    let result = normalize_local("https://www.douyin.com/video/123%20test").unwrap();
    assert!(result.canonical.contains("douyin.com"));
}

#[test]
fn test_normalize_idempotence_no_redirect() {
    let url = "https://www.douyin.com/video/123?utm_source=share&vid=456";
    let first = normalize_local(url).unwrap();
    let second = normalize_local(&first.canonical).unwrap();
    assert_eq!(first.canonical, second.canonical);
}

#[test]
fn test_is_short_link_host() {
    assert!(is_short_link_host("v.douyin.com"));
    assert!(is_short_link_host("xhslink.com"));
    assert!(!is_short_link_host("www.douyin.com"));
    assert!(!is_short_link_host("www.xiaohongshu.com"));
}

#[test]
fn test_tracking_params_list() {
    assert!(is_tracking_param_key("utm_source"));
    assert!(is_tracking_param_key("share_token"));
    assert!(is_tracking_param_key("xhsshare"));
    assert!(!is_tracking_param_key("xsec_token"));
}

#[test]
fn test_normalize_fields_and_errors() {
    let n = normalize_local("  https://www.douyin.com/video/9?timestamp=1  ").unwrap();
    assert_eq!(n.original, "  https://www.douyin.com/video/9?timestamp=1  ");
    assert_eq!(n.canonical, "https://www.douyin.com/video/9");
    assert_eq!(n.host, "www.douyin.com");
    assert_eq!(n.path, "/video/9");
    match normalize_start("https://x.com/%FF?utm_source=1") {
        Err(AppError::InvalidInput { message }) => assert_eq!(message, "URL contains invalid UTF-8 after decoding"),
        other => panic!("unexpected {:?}", other),
    }
    // A canonical URL is kept as it is, escapes included.
    assert_eq!(normalize_local("https://x.com/%FF").unwrap().canonical, "https://x.com/%FF");
    match normalize_start("not a url") {
        Err(AppError::InvalidInput { message }) => assert!(message.starts_with("Invalid URL: ")),
        other => panic!("unexpected {:?}", other),
    }
    match normalize_start("ftp://example.com/file") {
        Err(AppError::UnsafeRedirect { message }) => assert_eq!(message, "Unsupported scheme: ftp"),
        other => panic!("unexpected {:?}", other),
    }
}

#[test]
fn test_short_links_go_to_redirect_resolution() {
    match normalize_start("https://v.douyin.com/abc/?share_id=1&x=2").unwrap() {
        NormalizeStep::ResolveRedirects(u) => assert_eq!(u, "https://v.douyin.com/abc/?x=2"),
        NormalizeStep::Done(_) => panic!("short link was not resolved"),
    }
}

#[test]
fn test_strip_query_keeps_order_and_bare_keys() {
    let pairs = vec![
        ("a".to_string(), "1".to_string()),
        ("utm_term".to_string(), "x".to_string()),
        ("flag".to_string(), String::new()),
    ];
    assert_eq!(strip_query(&pairs).as_deref(), Some("a=1&flag"));
    assert_eq!(strip_query(&vec![("utm_source".to_string(), "s".to_string())]), None);
}

#[test]
fn test_whitelisted_hosts() {
    assert!(is_whitelisted_host("douyin.com"));
    assert!(is_whitelisted_host("cdn.v.douyin.com"));
    assert!(!is_whitelisted_host("evil-douyin.com"));
    assert!(!is_whitelisted_host("example.com"));
}

#[test]
fn test_next_redirect_decisions() {
    match next_redirect("https://v.douyin.com/a", false, None).unwrap() {
        RedirectStep::Finished(u) => assert_eq!(u, "https://v.douyin.com/a"),
        _ => panic!(),
    }
    match next_redirect("https://v.douyin.com/a", true, Some("/video/1")).unwrap() {
        RedirectStep::Follow(u) => assert_eq!(u, "https://v.douyin.com/video/1"),
        _ => panic!(),
    }
    match next_redirect("https://v.douyin.com/a", true, Some("https://www.douyin.com/video/2")).unwrap() {
        RedirectStep::Follow(u) => assert_eq!(u, "https://www.douyin.com/video/2"),
        _ => panic!(),
    }
    match next_redirect("https://v.douyin.com/a", true, None) {
        Err(AppError::NetworkError { message }) => assert_eq!(message, "Redirect without Location header"),
        _ => panic!(),
    }
    match next_redirect("https://v.douyin.com/a", true, Some("javascript:alert(1)")) {
        Err(AppError::UnsafeRedirect { message }) => assert_eq!(message, "Redirect to non-HTTP(S) scheme: javascript"),
        other => panic!("unexpected {:?}", other),
    }
    match next_redirect("not a url", true, Some("/x")) {
        Err(AppError::InvalidInput { message }) => assert_eq!(message, "Invalid base URL for relative redirect"),
        _ => panic!(),
    }
}

#[test]
fn test_redirect_chain_limits_hops() {
    let mut chain = RedirectChain::new("https://v.douyin.com/a");
    assert!(matches!(chain.start(), RedirectAction::Request(_)));
    let mut requests = 0;
    loop {
        match chain.on_reply(true, Some("/next")) {
            RedirectAction::Request(_) => requests += 1,
            RedirectAction::Fail(AppError::TooManyRedirects { message }) => {
                assert_eq!(message, "Redirect chain exceeded 5 hops");
                break;
            }
            other => panic!("unexpected {:?}", other),
        }
    }
    assert_eq!(requests, MAX_REDIRECTS - 1);
    assert_eq!(chain.hops, MAX_REDIRECTS);
}

#[test]
fn test_redirect_chain_finishes_and_strips() {
    let mut chain = RedirectChain::new("https://v.douyin.com/a");
    match chain.on_reply(true, Some("https://www.douyin.com/video/7?share_token=z&k=v")) {
        RedirectAction::Request(u) => assert_eq!(u, "https://www.douyin.com/video/7?share_token=z&k=v"),
        other => panic!("unexpected {:?}", other),
    }
    match chain.on_reply(false, None) {
        RedirectAction::Done(u) => assert_eq!(u, "https://www.douyin.com/video/7?k=v"),
        other => panic!("unexpected {:?}", other),
    }
    assert_eq!(finish_redirects("https://a.com/?utm_source=x").unwrap(), "https://a.com/");
}

#[test]
fn test_choose_parser() {
    let mk = |u: &str, h: &str| NormalizedUrl { original: u.into(), canonical: u.into(), host: h.into(), path: "/".into() };
    assert_eq!(choose_parser(&mk("https://www.douyin.com/video/1", "www.douyin.com")).unwrap(), Platform::Douyin);
    assert_eq!(choose_parser(&mk("https://xhslink.com/a/1", "xhslink.com")).unwrap(), Platform::Xiaohongshu);
    match choose_parser(&mk("https://example.com/", "example.com")) {
        Err(AppError::UnsupportedPlatform { message }) => assert_eq!(message, "No parser available for: example.com"),
        other => panic!("unexpected {:?}", other),
    }
}

#[test]
fn test_xhs_status_errors() {
    assert!(matches!(xhs_status_error(404), Some(AppError::ContentNotFound { .. })));
    assert!(matches!(xhs_status_error(403), Some(AppError::RestrictedContent { .. })));
    assert!(xhs_status_error(200).is_none());
    assert!(xhs_status_error(500).is_none());
}

#[test]
fn test_normalize_idempotent_on_escaped_percent() {
    let first = normalize_local("https://www.douyin.com/a%2541?utm_source=x&vid=1").unwrap();
    assert_eq!(first.canonical, "https://www.douyin.com/a%41?vid=1");
    let second = normalize_local(&first.canonical).unwrap();
    assert_eq!(second.canonical, first.canonical);
    let third = normalize_local(&second.canonical).unwrap();
    assert_eq!(third.canonical, first.canonical);
}

#[test]
fn test_normalize_keeps_canonical_url() {
    let url = "https://www.douyin.com/a%2541";
    let first = normalize_local(url).unwrap();
    assert_eq!(first.canonical, url);
    assert_eq!(first.original, url);
    assert_eq!(normalize_local(&first.canonical).unwrap().canonical, url);
    let padded = normalize_local("  https://www.douyin.com/video/1  ").unwrap();
    assert_eq!(padded.canonical, "https://www.douyin.com/video/1");
    assert_eq!(padded.original, "  https://www.douyin.com/video/1  ");
}
