use clipsave::error::AppError;
use clipsave::models::{MediaType, Platform};
use clipsave::parser::common::NormalizedUrl;
use clipsave::parser::xiaohongshu::{
    extract_canonical_url, extract_cdn_urls_from_page, extract_from_initial_state, extract_from_json_ld,
    extract_from_og_tags, is_truly_restricted, XiaohongshuParser,
};

#[test]
fn test_can_handle_xhs_urls() {
    let parser = XiaohongshuParser::new();
    assert!(parser.can_handle("https://www.xiaohongshu.com/explore/abc123"));
    assert!(parser.can_handle("https://xiaohongshu.com/discovery/item/abc123"));
    assert!(parser.can_handle("https://xhslink.com/a/abc123"));
    assert!(parser.can_handle("http://xhslink.com/o/8BsnjP0zJKx"));
    assert!(!parser.can_handle("https://www.douyin.com/video/123"));
}

#[test]
fn xiaohongshu_test_is_truly_restricted() {
    assert!(!is_truly_restricted("请登录 xhscdn.com/image.jpg"));
    assert!(is_truly_restricted("该笔记已被删除 no media here"));
    assert!(!is_truly_restricted("Normal content with xhscdn.com images"));
}

#[test]
fn test_extract_from_initial_state() {
    let html = r#"
        <script>window.__INITIAL_STATE__={"note":{"imageList":["https://sns-img-bd.xhscdn.com/abc123.jpg","https://sns-img-bd.xhscdn.com/def456.jpg"]}}</script>
        "#;
    let items = extract_from_initial_state(html);
    assert_eq!(items.len(), 2);
    assert!(items.iter().all(|i| i.media_type == MediaType::Image));
}

#[test]
fn test_extract_from_og_tags() {
    let html = r#"
        <html><head>
            <meta property="og:title" content="Beautiful Photos" />
            <meta property="og:image" content="https://sns-img-bd.xhscdn.com/img1.jpg" />
            <meta property="og:image" content="https://sns-img-bd.xhscdn.com/img2.jpg" />
        </head><body></body></html>
        "#;
    let items = extract_from_og_tags(html);
    assert_eq!(items.len(), 2);
}

#[test]
fn test_extract_cdn_urls() {
    let html = r#"something "https://sns-img-bd.xhscdn.com/photo1.jpg?imageView" and "https://sns-img-bd.xhscdn.com/photo2.jpg" end"#;
    let items = extract_cdn_urls_from_page(html);
    assert_eq!(items.len(), 2);
}

#[test]
fn test_skip_css_js_resources() {
    let html = r#""https://fe-static.xhscdn.com/style.css" "https://fe-static.xhscdn.com/app.js" "https://sns-img-bd.xhscdn.com/real_image.jpg""#;
    let items = extract_cdn_urls_from_page(html);
    assert_eq!(items.len(), 1);
    assert!(items[0].url.contains("real_image"));
}

#[test]
fn test_initial_state_skips_thumbnails_and_duplicates() {
    let html = r#"["https://sns-img-qc.xhscdn.com/a.jpg?x=1","https://sns-img-qc.xhscdn.com/a.jpg?x=2","https://sns-img-qc.xhscdn.com/w/80/t.jpg","https://ci.xiaohongshu.com/b.gif","https://sns-video-bd.xhscdn.com/v.mp4"]"#;
    let items = extract_from_initial_state(html);
    assert_eq!(items.len(), 3);
    assert_eq!(items[0].url, "https://sns-img-qc.xhscdn.com/a.jpg?x=1");
    assert_eq!(items[0].filename_hint.as_deref(), Some("image_1"));
    assert_eq!(items[1].media_type, MediaType::Gif);
    assert_eq!(items[1].filename_hint.as_deref(), Some("image_2"));
    assert_eq!(items[2].media_type, MediaType::Video);
    assert_eq!(items[2].filename_hint.as_deref(), Some("video_3"));
    assert_eq!(items[2].mime_type.as_deref(), Some("video/mp4"));
}

#[test]
fn test_cdn_media_numbering_and_types() {
    let html = r#""https://sns-video-hw.xhscdn.com/stream/1.mp4" "https://sns-img-hw.xhscdn.com/p.webp""#;
    let items = extract_cdn_urls_from_page(html);
    assert_eq!(items.len(), 2);
    assert_eq!(items[0].media_type, MediaType::Video);
    assert_eq!(items[0].filename_hint.as_deref(), Some("media_1"));
    assert_eq!(items[1].mime_type.as_deref(), Some("image/jpeg"));
    assert_eq!(items[1].filename_hint.as_deref(), Some("media_2"));
}

#[test]
fn test_json_ld_images_and_video() {
    let html = r#"<script type="application/ld+json">{"image":["https://a.com/1.jpg",5,"https://a.com/3.jpg"],"contentUrl":"https://a.com/v.mp4"}</script>"#;
    let items = extract_from_json_ld(html);
    assert_eq!(items.len(), 3);
    assert_eq!(items[0].filename_hint.as_deref(), Some("image_1"));
    assert_eq!(items[1].filename_hint.as_deref(), Some("image_3"));
    assert_eq!(items[2].media_type, MediaType::Video);
}

#[test]
fn test_canonical_url_sources() {
    let link = r#"<link rel="canonical" href="https://www.xiaohongshu.com/explore/abc">"#;
    assert_eq!(extract_canonical_url(link).as_deref(), Some("https://www.xiaohongshu.com/explore/abc"));
    let og = r#"<meta property="og:url" content="https://www.xiaohongshu.com/discovery/item/q1">"#;
    assert_eq!(extract_canonical_url(og).as_deref(), Some("https://www.xiaohongshu.com/discovery/item/q1"));
    let text = r#"<p>see https://xiaohongshu.com/explore/Zz9?x=1</p>"#;
    assert_eq!(extract_canonical_url(text).as_deref(), Some("https://xiaohongshu.com/explore/Zz9"));
    assert_eq!(extract_canonical_url("<p>none</p>"), None);
}

#[test]
fn test_xhs_resolve_from_html() {
    let parser = XiaohongshuParser::new();
    let url = NormalizedUrl {
        original: "http://xhslink.com/o/1".to_string(),
        canonical: "http://xhslink.com/o/1".to_string(),
        host: "xhslink.com".to_string(),
        path: "/o/1".to_string(),
    };
    let html = r#"<html><head><link rel="canonical" href="https://www.xiaohongshu.com/explore/n1"><title>笔记 - 小红书</title><meta property="og:image" content="https://sns-img-bd.xhscdn.com/i.jpg"></head></html>"#;
    let media = parser.resolve_from_html(&url, html).unwrap();
    assert_eq!(media.platform, Platform::Xiaohongshu);
    assert_eq!(media.canonical_url, "https://www.xiaohongshu.com/explore/n1");
    assert_eq!(media.title.as_deref(), Some("笔记"));
    assert_eq!(media.media_items.len(), 1);
    match parser.resolve_from_html(&url, "该笔记已被删除") {
        Err(AppError::RestrictedContent { .. }) => {}
        other => panic!("unexpected {:?}", other),
    }
    match parser.resolve_from_html(&url, "<p>nothing</p>") {
        Err(AppError::ParseFailed { platform_hint, .. }) => assert_eq!(platform_hint.as_deref(), Some("xiaohongshu")),
        other => panic!("unexpected {:?}", other),
    }
}
