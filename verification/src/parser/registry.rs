//! The platform parsers and how a URL finds its parser.

use vstd::prelude::*;
use crate::error::AppError;
use crate::models::Platform;
use crate::parser::common::NormalizedUrl;
use crate::parser::douyin::{spec_douyin_can_handle, DouyinParser};
use crate::parser::xiaohongshu::{spec_xhs_can_handle, XiaohongshuParser};
use crate::text::concat_str;

verus! {

/// The platform whose parser handles a canonical URL, in priority order
/// (Douyin, then Xiaohongshu).
pub open spec fn spec_parser_for(canonical: Seq<char>) -> Option<Platform> {
    if spec_douyin_can_handle(canonical) {
        Some(Platform::Douyin)
    } else if spec_xhs_can_handle(canonical) {
        Some(Platform::Xiaohongshu)
    } else {
        None
    }
}

/// Select the parser for a normalized URL: the first registered parser
/// that handles its canonical form, or an unsupported-platform error that
/// names the host.
pub fn choose_parser(url: &NormalizedUrl) -> (r: Result<Platform, AppError>)
    ensures
        match spec_parser_for(url.canonical@) {
            Some(p) => r == Ok::<Platform, AppError>(p),
            None => r matches Err(AppError::UnsupportedPlatform { message })
                && message@ == "No parser available for: "@ + url.host@,
        },
{
    let douyin = DouyinParser::new();
    if douyin.can_handle(url.canonical.as_str()) {
        return Ok(Platform::Douyin);
    }
    let xhs = XiaohongshuParser::new();
    if xhs.can_handle(url.canonical.as_str()) {
        return Ok(Platform::Xiaohongshu);
    }
    Err(AppError::UnsupportedPlatform { message: concat_str("No parser available for: ", url.host.as_str()) })
}

/// What a Xiaohongshu page request's status means: 404 is a missing note,
/// 401 and 403 restricted content; any other status gives the page.
pub fn xhs_status_error(code: u16) -> (r: Option<AppError>)
    ensures
        code == 404 ==> (r matches Some(AppError::ContentNotFound { message }) && message@ == "笔记不存在或已被删除"@),
        (code == 401 || code == 403) ==> (r matches Some(AppError::RestrictedContent { message })
            && message@ == "内容需要登录或不可公开访问"@),
        code != 404 && code != 401 && code != 403 ==> r is None,
{
    if code == 404 {
        Some(AppError::ContentNotFound { message: "笔记不存在或已被删除".to_owned() })
    } else if code == 401 || code == 403 {
        Some(AppError::RestrictedContent { message: "内容需要登录或不可公开访问".to_owned() })
    } else {
        None
    }
}

} // verus!
