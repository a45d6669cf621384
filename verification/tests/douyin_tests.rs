use clipsave::models::{MediaType, Platform};
use clipsave::parser::common::NormalizedUrl;
use clipsave::parser::douyin::{
    bitrate_to_quality_label, classify_stream, extract_author_from_render_data, extract_content_path,
    extract_from_json_ld, extract_from_og_tags, extract_from_render_data, extract_param_u32,
    extract_render_data_content, extract_title_from_render_data, extract_vod_urls_from_page, is_truly_restricted, DouyinParser, StreamType,
};
use clipsave::download::downloader::parse_dash_merge;
use clipsave::error::AppError;

#[test]
fn test_can_handle_douyin_urls() {
    let parser = DouyinParser::new();
    assert!(parser.can_handle("https://www.douyin.com/video/123456"));
    assert!(parser.can_handle("https://v.douyin.com/iRNBho5m/"));
    assert!(parser.can_handle("https://www.douyin.com/jingxuan?modal_id=123"));
    assert!(!parser.can_handle("https://www.xiaohongshu.com/explore/123"));
}

#[test]
fn test_classify_stream_video_only() {
    let url = "https://v26-web.douyinvod.com/hash/exp/video/tos/cn/tos-cn-ve-15/abc/media-video-avc1/?br=1278&mime_type=video_mp4";
    assert_eq!(classify_stream(url), StreamType::VideoOnly);
}

#[test]
fn test_classify_stream_audio_only() {
    let url = "https://v26-web.douyinvod.com/hash/exp/video/tos/cn/tos-cn-ve-15/abc/media-audio-und-mp4a/?br=57&mime_type=video_mp4";
    assert_eq!(classify_stream(url), StreamType::AudioOnly);
}

#[test]
fn test_classify_stream_muxed() {
    let url = "https://v26-web.douyinvod.com/hash/exp/video/tos/cn/tos-cn-vd-0026/abc/?br=1218&mime_type=video_mp4";
    assert_eq!(classify_stream(url), StreamType::Muxed);
}

#[test]
fn test_classify_stream_muxed_with_media_video() {
    let url = "https://v26-web.douyinvod.com/hash/exp/video/tos/cn/tos-cn-vd-0026/abc/media-video-avc1/?br=1218&mime_type=video_mp4";
    assert_eq!(classify_stream(url), StreamType::Muxed);
}

#[test]
fn test_extract_param_u32() {
    let url = "https://example.com/video?a=6383&br=1278&bt=1278&qs=15";
    assert_eq!(extract_param_u32(url, "br"), Some(1278));
    assert_eq!(extract_param_u32(url, "qs"), Some(15));
    assert_eq!(extract_param_u32(url, "missing"), None);
}

#[test]
fn test_bitrate_to_quality_label() {
    assert_eq!(bitrate_to_quality_label(5000), "1080p高清");
    assert_eq!(bitrate_to_quality_label(2500), "720p高清");
    assert_eq!(bitrate_to_quality_label(1300), "480p标清");
    assert_eq!(bitrate_to_quality_label(700), "360p流畅");
}

#[test]
fn test_extract_content_path() {
    let url1 = "https://v11-weba.douyinvod.com/hash1/exp/video/tos/cn/tos-cn-ve-15/abc123/media-video-avc1/?br=1278";
    let url2 = "https://v26-web.douyinvod.com/hash2/exp/video/tos/cn/tos-cn-ve-15/abc123/media-video-avc1/?br=1278";
    assert_eq!(extract_content_path(url1), extract_content_path(url2));
}

#[test]
fn test_extract_content_path_different_content() {
    let url1 = "https://v26-web.douyinvod.com/h/e/video/tos/cn/tos-cn-ve-15/video_a/media-video-avc1/?br=1278";
    let url2 = "https://v26-web.douyinvod.com/h/e/video/tos/cn/tos-cn-ve-15/video_b/media-audio-und-mp4a/?br=57";
    assert_ne!(extract_content_path(url1), extract_content_path(url2));
}

#[test]
fn douyin_test_is_truly_restricted() {
    assert!(!is_truly_restricted("Normal page with douyinvod.com video"));
    assert!(is_truly_restricted("作品已被删除 no video here"));
    assert!(!is_truly_restricted("作品已被删除 but douyinvod.com exists"));
}

#[test]
fn test_dash_merge_url_format() {
    let video = "https://cdn.douyinvod.com/video";
    let audio = "https://cdn.douyinvod.com/audio";
    let combined = format!("DASH_MERGE||{}||{}", video, audio);
    assert!(combined.starts_with("DASH_MERGE||"));
    let parts: Vec<&str> = combined.split("||").collect();
    assert_eq!(parts.len(), 3);
    assert_eq!(parts[0], "DASH_MERGE");
    assert_eq!(parts[1], video);
    assert_eq!(parts[2], audio);
    let (v, a) = parse_dash_merge(&combined).unwrap();
    assert_eq!(v, video);
    assert_eq!(a, audio);
}

#[test]
fn test_param_edge_cases() {
    assert_eq!(extract_param_u32("https://x.com/?br=99999999999", "br"), None);
    assert_eq!(extract_param_u32("https://x.com/?br=4294967295", "br"), Some(4294967295));
    assert_eq!(extract_param_u32("https://x.com/?xbr=5&br=7", "br"), Some(7));
    assert_eq!(extract_param_u32("https://x.com/?br=&br=8", "br"), Some(8));
    assert_eq!(extract_param_u32("https://x.com/?br=١٢&br=8", "br"), None);
    assert_eq!(extract_param_u32("br=5", "br"), None);
}

#[test]
fn test_quality_label_low_bitrates() {
    assert_eq!(bitrate_to_quality_label(599), "599kbps");
    assert_eq!(bitrate_to_quality_label(1), "1kbps");
    assert_eq!(bitrate_to_quality_label(0), "默认");
    assert_eq!(bitrate_to_quality_label(4000), "1080p高清");
}

#[test]
fn test_content_path_without_tos() {
    assert_eq!(extract_content_path("https://a.douyinvod.com/x/y?z=1"), "/x/y");
    assert_eq!(extract_content_path("https://a.douyinvod.com/x/douyinvod.com/q"), "/x/");
    assert_eq!(extract_content_path("https://example.com/x"), "");
    assert_eq!(extract_content_path("https://a.com/tos/a/b?c"), "/tos/a/b");
}

fn render_page(data: &str) -> String {
    format!("<html><script id=\"RENDER_DATA\" type=\"application/json\">{}</script></html>", data)
}

#[test]
fn test_render_data_content() {
    let html = render_page("%7B%22a%22%3A1%7D");
    assert_eq!(extract_render_data_content(&html), "%7B%22a%22%3A1%7D");
    assert_eq!(extract_render_data_content("<script id=\"RENDER_DATA\">abc</script>"), "abc");
    assert_eq!(extract_render_data_content("<script id=\"RENDER_DATA\">abc"), "");
    assert_eq!(extract_render_data_content("nothing"), "");
}

#[test]
fn test_render_data_pairs_best_audio() {
    let v_low = "https://v1.douyinvod.com/h/e/video/tos/cn/tos-cn-ve-15/aaa/media-video-avc1/?br=800&mime_type=video_mp4";
    let v_high = "https://v1.douyinvod.com/h/e/video/tos/cn/tos-cn-ve-15/bbb/media-video-avc1/?br=2100&mime_type=video_mp4";
    let v_mirror = "https://v9.douyinvod.com/h2/e/video/tos/cn/tos-cn-ve-15/bbb/media-video-avc1/?br=2100&mime_type=video_mp4";
    let a1 = "https://v1.douyinvod.com/h/e/video/tos/cn/tos-cn-ve-15/ccc/media-audio-und-mp4a/?br=57&mime_type=video_mp4";
    let a2 = "https://v1.douyinvod.com/h/e/video/tos/cn/tos-cn-ve-15/ddd/media-audio-und-mp4a/?br=57&mime_type=video_mp4";
    let json = format!("{{\"a\":\"{}\",\"b\":\"{}\",\"c\":\"{}\",\"d\":\"{}\",\"e\":\"{}\"}}", v_low, v_high, v_mirror, a1, a2);
    let encoded = json.replace('"', "%22");
    let items = extract_from_render_data(&render_page(&encoded));
    assert_eq!(items.len(), 2);
    assert_eq!(items[0].url, format!("DASH_MERGE||{}||{}", v_high, a2));
    assert_eq!(items[0].bitrate, Some(2100));
    assert_eq!(items[0].quality_label.as_deref(), Some("720p高清 (视频+音频需合并)"));
    assert_eq!(items[0].filename_hint.as_deref(), Some("720p高清"));
    assert_eq!(items[1].bitrate, Some(800));
    assert_eq!(items[1].media_type, MediaType::Video);
}

#[test]
fn test_render_data_prefers_muxed_and_caps_at_four() {
    let mut parts = Vec::new();
    for (i, br) in [100u32, 5000, 700, 1500, 2500].iter().enumerate() {
        parts.push(format!(
            "\"k{}\":\"https://v1.douyinvod.com/h/e/video/tos/cn/tos-cn-vd-0026/m{}/?br={}&mime_type=video_mp4\"",
            i, i, br
        ));
    }
    parts.push("\"v\":\"https://v1.douyinvod.com/h/e/video/tos/cn/tos-cn-ve-15/z/media-video-avc1/?br=9000&mime_type=video_mp4\"".to_string());
    let json = format!("{{{}}}", parts.join(","));
    let items = extract_from_render_data(&render_page(&json));
    assert_eq!(items.len(), 4);
    let brs: Vec<Option<u32>> = items.iter().map(|i| i.bitrate).collect();
    assert_eq!(brs, vec![Some(5000), Some(2500), Some(1500), Some(700)]);
    assert_eq!(items[0].filename_hint.as_deref(), Some("1080p高清_muxed"));
    assert_eq!(items[0].quality_label.as_deref(), Some("1080p高清 (含音频)"));
}

#[test]
fn test_render_data_video_without_audio() {
    let v = "https://v1.douyinvod.com/h/e/video/tos/cn/tos-cn-ve-15/aaa/media-video-avc1/?br=650&mime_type=video_mp4";
    let items = extract_from_render_data(&render_page(&format!("{{\"a\":\"{}\"}}", v)));
    assert_eq!(items.len(), 1);
    assert_eq!(items[0].url, v);
    assert_eq!(items[0].quality_label.as_deref(), Some("360p流畅 (仅视频)"));
}

#[test]
fn test_render_data_invalid_utf8_gives_nothing() {
    assert!(extract_from_render_data(&render_page("%FF%FE")).is_empty());
    assert!(extract_from_render_data("<p>no data</p>").is_empty());
}

#[test]
fn test_title_and_author_from_render_data() {
    let data = "{\"desc\":\"ok\",\"x\":1,\"desc\" : \"A\\u0026B\\nC\",\"nickname\":\"小明\"}";
    let html = render_page(&data.replace('"', "%22"));
    assert_eq!(extract_title_from_render_data(&html).as_deref(), Some("A&B C"));
    assert_eq!(extract_author_from_render_data(&html).as_deref(), Some("小明"));
    let null_nick = render_page(&"{\"nickname\":\"null\"}".replace('"', "%22"));
    assert_eq!(extract_author_from_render_data(&null_nick), None);
    assert_eq!(extract_title_from_render_data(&null_nick), None);
}

#[test]
fn test_og_and_json_ld_fallbacks() {
    let html = "<html><head><meta property=\"og:video\" content=\"https://a.com/v.mp4\"><meta property=\"og:video:url\" content=\"https://a.com/v.mp4\"></head></html>";
    let items = extract_from_og_tags(html);
    assert_eq!(items.len(), 1);
    assert_eq!(items[0].mime_type.as_deref(), Some("video/mp4"));
    let ld = "<html><head><script type=\"application/ld+json\">{\"name\":\"x\"}</script><script type=\"application/ld+json\">{\"contentUrl\":\"https://a.com/c.mp4\",\"encodingFormat\":\"video/mp4\"}</script></head></html>";
    let items = extract_from_json_ld(ld);
    assert_eq!(items.len(), 1);
    assert_eq!(items[0].url, "https://a.com/c.mp4");
    assert_eq!(items[0].mime_type.as_deref(), Some("video/mp4"));
}

fn normalized(url: &str) -> NormalizedUrl {
    NormalizedUrl { original: url.to_string(), canonical: url.to_string(), host: "www.douyin.com".to_string(), path: "/video/1".to_string() }
}

#[test]
fn test_resolve_from_html_outcomes() {
    let parser = DouyinParser::new();
    let url = normalized("https://www.douyin.com/video/1");
    match parser.resolve_from_html(&url, "作品已被删除") {
        Err(AppError::RestrictedContent { message }) => assert_eq!(message, "This Douyin content requires login or is private"),
        other => panic!("unexpected {:?}", other),
    }
    match parser.resolve_from_html(&url, "<html></html>") {
        Err(AppError::ParseFailed { platform_hint, .. }) => assert_eq!(platform_hint.as_deref(), Some("douyin")),
        other => panic!("unexpected {:?}", other),
    }
    let html = "<html><head><title>My clip - 抖音</title><meta property=\"og:image\" content=\"https://a.com/c.jpg\"><meta name=\"author\" content=\"me\"><meta property=\"og:video\" content=\"https://a.com/v.mp4\"></head></html>";
    let media = parser.resolve_from_html(&url, html).unwrap();
    assert_eq!(media.platform, Platform::Douyin);
    assert_eq!(media.title.as_deref(), Some("My clip"));
    assert_eq!(media.author.as_deref(), Some("me"));
    assert_eq!(media.cover.as_deref(), Some("https://a.com/c.jpg"));
    assert_eq!(media.media_items.len(), 1);
    assert_eq!(media.created_at, None);
}

#[test]
fn test_vod_fallback_scan_first_match() {
    let html = r#"<a href="https://a.douyinvod.com/x/video">a</a><a href="https://v26.douyinvod.com/abc/tos-cn-vd-0026/video?br=2500&qs=0">b</a>"#;
    let items = extract_vod_urls_from_page(html);
    assert_eq!(items.len(), 1);
    assert_eq!(items[0].url, "https://v26.douyinvod.com/abc/tos-cn-vd-0026/video?br=2500&qs=0");
    assert_eq!(items[0].media_type, MediaType::Video);
    assert_eq!(items[0].bitrate, Some(2500));
    assert_eq!(items[0].quality_label.as_deref(), Some("720p高清"));
    assert_eq!(items[0].filename_hint.as_deref(), Some("720p高清"));
    assert_eq!(items[0].mime_type.as_deref(), Some("video/mp4"));
}

#[test]
fn test_vod_fallback_scan_stops_at_whitespace() {
    let items = extract_vod_urls_from_page("see http://x.douyinvod.com/tos-cn-vd/a.mp4 now");
    assert_eq!(items.len(), 1);
    assert_eq!(items[0].url, "http://x.douyinvod.com/tos-cn-vd/a.mp4");
    assert_eq!(items[0].bitrate, None);
    assert_eq!(items[0].quality_label, None);
    assert_eq!(items[0].filename_hint, None);
}

#[test]
fn test_vod_fallback_scan_needs_path_after_host() {
    assert!(extract_vod_urls_from_page("https://tos-cn-vd.example.com/douyinvod.com/x").is_empty());
    assert!(extract_vod_urls_from_page("no links here").is_empty());
}
