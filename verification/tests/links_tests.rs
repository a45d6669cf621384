use clipsave::parser::link_extractor::{extract_urls, MAX_BATCH_SIZE};

#[test]
fn test_extract_from_douyin_share_text() {
    let text = "复制这条链接，打开抖音看看…… https://v.douyin.com/iRNBho5m/ 7@5.com";
    let urls = extract_urls(text);
    assert_eq!(urls.len(), 1);
    assert!(urls[0].contains("v.douyin.com"));
}

#[test]
fn test_extract_from_xiaohongshu_share_text() {
    let text = "小红书笔记分享 https://xhslink.com/a/abc123 快来看看";
    let urls = extract_urls(text);
    assert_eq!(urls.len(), 1);
    assert!(urls[0].contains("xhslink.com"));
}

#[test]
fn test_extract_multiple_urls() {
    let text = "Link 1: https://v.douyin.com/abc and link 2: https://xhslink.com/def";
    assert_eq!(extract_urls(text).len(), 2);
}

#[test]
fn test_extract_no_urls() {
    assert!(extract_urls("This is just plain text without any links").is_empty());
}

#[test]
fn test_extract_long_url() {
    let text = "Check this: https://www.xiaohongshu.com/explore/abc123def456";
    let urls = extract_urls(text);
    assert_eq!(urls.len(), 1);
    assert!(urls[0].contains("xiaohongshu.com/explore"));
}

#[test]
fn test_batch_limit_enforcement() {
    let mut text = String::new();
    for i in 0..25 {
        text.push_str(&format!("https://example.com/{} ", i));
    }
    assert_eq!(extract_urls(&text).len(), MAX_BATCH_SIZE);
}

#[test]
fn test_empty_input() {
    assert!(extract_urls("").is_empty());
    assert!(extract_urls("   ").is_empty());
}

#[test]
fn test_preserves_order() {
    let urls = extract_urls("https://first.com https://second.com https://third.com");
    assert_eq!(urls.len(), 3);
    assert!(urls[0].contains("first"));
    assert!(urls[1].contains("second"));
    assert!(urls[2].contains("third"));
}

#[test]
fn test_handles_chinese_punctuation() {
    let urls = extract_urls("看看这个视频https://v.douyin.com/test123，很有趣！");
    assert_eq!(urls.len(), 1);
    assert!(urls[0].contains("v.douyin.com/test123"));
}

#[test]
fn test_trailing_punctuation_trimmed() {
    let urls = extract_urls("see https://a.com/x/). and http://b.com/y, done");
    assert_eq!(urls, vec!["https://a.com/x".to_string(), "http://b.com/y".to_string()]);
}
