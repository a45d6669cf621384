//! Xiaohongshu (小红书) page analysis.
//!
//! Handles xiaohongshu.com, www.xiaohongshu.com and xhslink.com (paths
//! `/explore/{id}`, `/discovery/item/{id}`, short links `/o/`, `/a/`).
//! Media is read from publicly served pages only: Open Graph tags, the
//! embedded `__INITIAL_STATE__` data, JSON-LD, and CDN URLs in the page.

use vstd::prelude::*;
use crate::error::AppError;
use crate::models::{media_item_view, media_items_view, MediaItem, MediaItemView, MediaType, Platform, ResolvedMedia};
use crate::page::{chars_seq, html_attr_values, json_array_field, json_array_member, json_string_field, json_string_member, opt_chars_seq, select_attr_values};
use crate::parser::common::NormalizedUrl;
use crate::parser::page_meta::{all_og_images, ld_json_texts, og_content, page_author, page_title, spec_all_og_images, spec_ld_json_texts, spec_og_content, spec_page_author, spec_page_title};
use crate::text::{
    before_char, before_char_end, chars_of, concat_str, contains_in, contains_lit, contains_seq, decimal_chars,
    is_whitespace, is_ws, matches_at, occurs_at, str_contains, str_eq, string_of_range, u64_to_decimal,
};
use crate::web::{opt_chars, parse_url, url_parse};

verus! {

/// Xiaohongshu platform parser.
pub struct XiaohongshuParser;

/// The hosts that Xiaohongshu pages live on.
pub open spec fn is_xhs_host_spec(h: Seq<char>) -> bool {
    h == "xiaohongshu.com"@ || h == "www.xiaohongshu.com"@ || h == "xhslink.com"@
}

/// `url` parses and its host is a Xiaohongshu host.
pub open spec fn spec_xhs_can_handle(url: Seq<char>) -> bool {
    match url_parse(url) {
        Ok(v) => match v.2 {
            Some(h) => is_xhs_host_spec(h),
            None => false,
        },
        Err(_) => false,
    }
}

impl XiaohongshuParser {
    pub fn new() -> Self {
        XiaohongshuParser
    }

    /// Whether `host` is one of the Xiaohongshu hosts.
    pub fn is_xhs_host(host: &str) -> (r: bool)
        ensures
            r == is_xhs_host_spec(host@),
    {
        str_eq(host, "xiaohongshu.com") || str_eq(host, "www.xiaohongshu.com") || str_eq(host, "xhslink.com")
    }

    /// Whether this parser handles `url`: it parses and its host is a
    /// Xiaohongshu host.
    pub fn can_handle(&self, url: &str) -> (r: bool)
        ensures
            r == spec_xhs_can_handle(url@),
    {
        match parse_url(url) {
            Ok(parts) => match &parts.host {
                Some(h) => Self::is_xhs_host(h.as_str()),
                None => false,
            },
            Err(_) => false,
        }
    }
}

/// The page says the note is gone, and carries no media data.
pub open spec fn spec_is_truly_restricted(html: Seq<char>) -> bool {
    let deleted = contains_seq(html, "该笔记已被删除"@) || contains_seq(html, "笔记不存在"@)
        || contains_seq(html, "内容已不存在"@);
    let has_media = contains_seq(html, "xhscdn.com"@) || contains_seq(html, "sns-img"@)
        || contains_seq(html, "og:image"@) || contains_seq(html, "imageList"@)
        || contains_seq(html, "image_list"@);
    deleted && !has_media
}

/// Whether the page is truly restricted (not just showing a login prompt
/// over public content): it says the note was deleted and carries no media
/// data.
pub fn is_truly_restricted(html: &str) -> (r: bool)
    ensures
        r == spec_is_truly_restricted(html@),
{
    let h = chars_of(html);
    let s = h.as_slice();
    let deleted = contains_lit(s, "该笔记已被删除") || contains_lit(s, "笔记不存在") || contains_lit(s, "内容已不存在");
    let has_media = contains_lit(s, "xhscdn.com") || contains_lit(s, "sns-img") || contains_lit(s, "og:image")
        || contains_lit(s, "imageList") || contains_lit(s, "image_list");
    deleted && !has_media
}

/// Where `https://` or `http://` stands at `p`: the position after it.
pub open spec fn scheme_end(s: Seq<char>, p: int) -> int {
    if occurs_at(s, "https://"@, p) {
        p + 8
    } else if occurs_at(s, "http://"@, p) {
        p + 7
    } else {
        -1
    }
}

fn scheme_end_exec(s: &[char], p: usize) -> (r: Option<usize>)
    requires
        p <= s@.len(),
    ensures
        match r {
            Some(q) => scheme_end(s@, p as int) == q as int && p + 7 <= q <= s@.len(),
            None => scheme_end(s@, p as int) == -1,
        },
{
    proof {
        reveal_strlit("https://");
        reveal_strlit("http://");
    }
    let n = s.len();
    let https = chars_of("https://");
    let http = chars_of("http://");
    if matches_at(s, https.as_slice(), p) {
        Some(p + 8)
    } else if matches_at(s, http.as_slice(), p) {
        Some(p + 7)
    } else {
        None
    }
}

/// A character of the class `[^"'\s\\)>]`.
pub open spec fn is_tail_char(c: char) -> bool {
    c != '"' && c != '\'' && !is_ws(c) && c != '\\' && c != ')' && c != '>'
}

/// A character of the class `[^"'\s\\]`.
pub open spec fn is_cdn_char(c: char) -> bool {
    c != '"' && c != '\'' && !is_ws(c) && c != '\\'
}

/// An ASCII letter or digit.
pub open spec fn is_ascii_alnum(c: char) -> bool {
    ('a' <= c && c <= 'z') || ('A' <= c && c <= 'Z') || ('0' <= c && c <= '9')
}

/// The end of the run of `[^"'\s\\)>]` characters that starts at `j`.
pub open spec fn tail_run_end(s: Seq<char>, j: int) -> int
    decreases s.len() - j,
{
    if j < 0 || j >= s.len() || !is_tail_char(s[j]) {
        j
    } else {
        tail_run_end(s, j + 1)
    }
}

/// The end of the run of `[^"'\s\\]` characters that starts at `j`.
pub open spec fn cdn_run_end(s: Seq<char>, j: int) -> int
    decreases s.len() - j,
{
    if j < 0 || j >= s.len() || !is_cdn_char(s[j]) {
        j
    } else {
        cdn_run_end(s, j + 1)
    }
}

/// The end of the run of ASCII letters and digits that starts at `j`.
pub open spec fn alnum_run_end(s: Seq<char>, j: int) -> int
    decreases s.len() - j,
{
    if j < 0 || j >= s.len() || !is_ascii_alnum(s[j]) {
        j
    } else {
        alnum_run_end(s, j + 1)
    }
}

/// The end of the run of characters other than `"` that starts at `j`.
pub open spec fn nonquote_run_end(s: Seq<char>, j: int) -> int
    decreases s.len() - j,
{
    if j < 0 || j >= s.len() || s[j] == '"' {
        j
    } else {
        nonquote_run_end(s, j + 1)
    }
}

fn is_tail_char_exec(c: char) -> (r: bool)
    ensures
        r == is_tail_char(c),
{
    c != '"' && c != '\'' && !is_whitespace(c) && c != '\\' && c != ')' && c != '>'
}

fn is_cdn_char_exec(c: char) -> (r: bool)
    ensures
        r == is_cdn_char(c),
{
    c != '"' && c != '\'' && !is_whitespace(c) && c != '\\'
}

fn tail_end(s: &[char], j: usize) -> (r: usize)
    requires
        j <= s@.len(),
    ensures
        r == tail_run_end(s@, j as int),
        j <= r <= s@.len(),
{
    let mut k = j;
    while k < s.len() && is_tail_char_exec(s[k])
        invariant
            j <= k <= s@.len(),
            tail_run_end(s@, j as int) == tail_run_end(s@, k as int),
        decreases s@.len() - k,
    {
        k += 1;
    }
    k
}

fn cdn_end(s: &[char], j: usize) -> (r: usize)
    requires
        j <= s@.len(),
    ensures
        r == cdn_run_end(s@, j as int),
        j <= r <= s@.len(),
{
    let mut k = j;
    while k < s.len() && is_cdn_char_exec(s[k])
        invariant
            j <= k <= s@.len(),
            cdn_run_end(s@, j as int) == cdn_run_end(s@, k as int),
        decreases s@.len() - k,
    {
        k += 1;
    }
    k
}

fn alnum_end(s: &[char], j: usize) -> (r: usize)
    requires
        j <= s@.len(),
    ensures
        r == alnum_run_end(s@, j as int),
        j <= r <= s@.len(),
{
    let mut k = j;
    while k < s.len() && (('a' <= s[k] && s[k] <= 'z') || ('A' <= s[k] && s[k] <= 'Z') || ('0' <= s[k] && s[k] <= '9'))
        invariant
            j <= k <= s@.len(),
            alnum_run_end(s@, j as int) == alnum_run_end(s@, k as int),
        decreases s@.len() - k,
    {
        k += 1;
    }
    k
}

fn nonquote_end(s: &[char], j: usize) -> (r: usize)
    requires
        j <= s@.len(),
    ensures
        r == nonquote_run_end(s@, j as int),
        j <= r <= s@.len(),
{
    let mut k = j;
    while k < s.len() && s[k] != '"'
        invariant
            j <= k <= s@.len(),
            nonquote_run_end(s@, j as int) == nonquote_run_end(s@, k as int),
        decreases s@.len() - k,
    {
        k += 1;
    }
    k
}

/// `lit` stands at `k` and a `[^"'\s\\)>]` character follows it.
pub open spec fn tail_ok(s: Seq<char>, k: int, lit: Seq<char>) -> bool {
    occurs_at(s, lit, k) && k + lit.len() < s.len() && is_tail_char(s[k + lit.len()])
}

/// The largest `k` in `[lo, hi]` with `tail_ok`, or -1: where a greedy
/// `[^"]*` before `lit` stops.
pub open spec fn last_tail_at(s: Seq<char>, lo: int, hi: int, lit: Seq<char>) -> int
    decreases hi - lo,
{
    if hi < lo {
        -1
    } else if tail_ok(s, hi, lit) {
        hi
    } else if hi == lo {
        -1
    } else {
        last_tail_at(s, lo, hi - 1, lit)
    }
}

fn tail_ok_exec(s: &[char], k: usize, lit: &[char]) -> (r: bool)
    requires
        k <= s@.len(),
    ensures
        r == tail_ok(s@, k as int, lit@),
{
    let n = s.len();
    if !matches_at(s, lit, k) {
        return false;
    }
    let j = k + lit.len();
    j < s.len() && is_tail_char_exec(s[j])
}

fn last_tail(s: &[char], lo: usize, hi: usize, lit: &[char]) -> (r: Option<usize>)
    requires
        lo <= hi <= s@.len(),
    ensures
        match r {
            Some(k) => last_tail_at(s@, lo as int, hi as int, lit@) == k as int && lo <= k <= hi
                && tail_ok(s@, k as int, lit@),
            None => last_tail_at(s@, lo as int, hi as int, lit@) == -1,
        },
{
    let mut k = hi;
    loop
        invariant
            lo <= k <= hi <= s@.len(),
            last_tail_at(s@, lo as int, hi as int, lit@) == last_tail_at(s@, lo as int, k as int, lit@),
        decreases k - lo,
    {
        if tail_ok_exec(s, k, lit) {
            return Some(k);
        }
        if k == lo {
            return None;
        }
        k -= 1;
    }
}

/// Where an image URL starting at `p` ends: the pattern
/// `https?://(?:sns-img[^"]*\.xhscdn\.com|ci\.xiaohongshu\.com)/[^"'\s\\)>]+`.
pub open spec fn img_match_end(s: Seq<char>, p: int) -> Option<int> {
    let q = scheme_end(s, p);
    if q < 0 {
        None
    } else {
        let k = if occurs_at(s, "sns-img"@, q) {
            last_tail_at(s, q + 7, nonquote_run_end(s, q + 7), ".xhscdn.com/"@)
        } else {
            -1
        };
        if k >= 0 {
            Some(tail_run_end(s, k + 12))
        } else if tail_ok(s, q, "ci.xiaohongshu.com/"@) {
            Some(tail_run_end(s, q + 19))
        } else {
            None
        }
    }
}

/// Where a video URL starting at `p` ends: the pattern
/// `https?://(?:sns-video[^"]*\.xhscdn\.com|sns-video[^"]*\.xhscdn\.net)[^"'\s\\)>]+`.
pub open spec fn video_match_end(s: Seq<char>, p: int) -> Option<int> {
    let q = scheme_end(s, p);
    if q < 0 || !occurs_at(s, "sns-video"@, q) {
        None
    } else {
        let x = q + 9;
        let r = nonquote_run_end(s, x);
        let k1 = last_tail_at(s, x, r, ".xhscdn.com"@);
        let k2 = last_tail_at(s, x, r, ".xhscdn.net"@);
        if k1 >= 0 {
            Some(tail_run_end(s, k1 + 11))
        } else if k2 >= 0 {
            Some(tail_run_end(s, k2 + 11))
        } else {
            None
        }
    }
}

/// Where a CDN URL starting at `p` ends: the pattern
/// `https?://[^"'\s\\]*xhscdn\.[^"'\s\\]*`.
pub open spec fn cdn_match_end(s: Seq<char>, p: int) -> Option<int> {
    let q = scheme_end(s, p);
    if q < 0 {
        None
    } else {
        let e = cdn_run_end(s, q);
        if contains_seq(s.subrange(q, e), "xhscdn."@) { Some(e) } else { None }
    }
}

/// Where a note URL starting at `p` ends: the pattern
/// `https?://(?:www\.)?xiaohongshu\.com/(?:explore|discovery/item)/[a-zA-Z0-9]+`.
pub open spec fn note_match_end(s: Seq<char>, p: int) -> Option<int> {
    let q = scheme_end(s, p);
    if q < 0 {
        None
    } else {
        let q2 = if occurs_at(s, "www."@, q) { q + 4 } else { q };
        if occurs_at(s, "xiaohongshu.com/"@, q2) {
            let q3 = q2 + 16;
            let q4 = if occurs_at(s, "explore/"@, q3) {
                q3 + 8
            } else if occurs_at(s, "discovery/item/"@, q3) {
                q3 + 15
            } else {
                -1
            };
            if 0 <= q4 < s.len() && is_ascii_alnum(s[q4]) { Some(alnum_run_end(s, q4)) } else { None }
        } else {
            None
        }
    }
}

/// The kinds of URL pattern the page scans use.
#[derive(Debug, Clone, Copy, PartialEq, Eq, Structural)]
pub enum UrlPattern {
    Image,
    Video,
    Cdn,
    Note,
}

/// Where a match of `pat` starting at `p` ends.
pub open spec fn pattern_match_end(s: Seq<char>, pat: UrlPattern, p: int) -> Option<int> {
    match pat {
        UrlPattern::Image => img_match_end(s, p),
        UrlPattern::Video => video_match_end(s, p),
        UrlPattern::Cdn => cdn_match_end(s, p),
        UrlPattern::Note => note_match_end(s, p),
    }
}

/// The matches of `pat` in `s`, left to right from `p`, without overlap.
pub open spec fn scan_pattern(s: Seq<char>, pat: UrlPattern, p: int) -> Seq<Seq<char>>
    decreases s.len() - p,
{
    if p < 0 || p >= s.len() {
        Seq::empty()
    } else {
        match pattern_match_end(s, pat, p) {
            Some(e) => if p + 7 <= e <= s.len() {
                seq![s.subrange(p, e)] + scan_pattern(s, pat, e)
            } else {
                Seq::empty()
            },
            None => scan_pattern(s, pat, p + 1),
        }
    }
}

fn img_end(s: &[char], p: usize) -> (r: Option<usize>)
    requires
        p < s@.len(),
    ensures
        match r {
            Some(e) => img_match_end(s@, p as int) == Some(e as int) && p + 7 <= e <= s@.len(),
            None => img_match_end(s@, p as int) is None,
        },
{
    proof {
        reveal_strlit(".xhscdn.com/");
        reveal_strlit("sns-img");
        reveal_strlit("ci.xiaohongshu.com/");
    }
    let n = s.len();
    let q = match scheme_end_exec(s, p) {
        Some(q) => q,
        None => return None,
    };
    let sns = chars_of("sns-img");
    let dom = chars_of(".xhscdn.com/");
    let ci = chars_of("ci.xiaohongshu.com/");
    if matches_at(s, sns.as_slice(), q) {
        let x = q + 7;
        let r = nonquote_end(s, x);
        match last_tail(s, x, r, dom.as_slice()) {
            Some(k) => {
                let e = tail_end(s, k + 12);
                return Some(e);
            },
            None => {},
        }
    }
    if tail_ok_exec(s, q, ci.as_slice()) {
        let e = tail_end(s, q + 19);
        Some(e)
    } else {
        None
    }
}

fn video_end(s: &[char], p: usize) -> (r: Option<usize>)
    requires
        p < s@.len(),
    ensures
        match r {
            Some(e) => video_match_end(s@, p as int) == Some(e as int) && p + 7 <= e <= s@.len(),
            None => video_match_end(s@, p as int) is None,
        },
{
    proof {
        reveal_strlit("sns-video");
        reveal_strlit(".xhscdn.com");
        reveal_strlit(".xhscdn.net");
    }
    let n = s.len();
    let q = match scheme_end_exec(s, p) {
        Some(q) => q,
        None => return None,
    };
    let sns = chars_of("sns-video");
    if !matches_at(s, sns.as_slice(), q) {
        return None;
    }
    let com = chars_of(".xhscdn.com");
    let net = chars_of(".xhscdn.net");
    let x = q + 9;
    let r = nonquote_end(s, x);
    match last_tail(s, x, r, com.as_slice()) {
        Some(k) => {
            let e = tail_end(s, k + 11);
            return Some(e);
        },
        None => {},
    }
    match last_tail(s, x, r, net.as_slice()) {
        Some(k) => {
            let e = tail_end(s, k + 11);
            Some(e)
        },
        None => None,
    }
}

fn cdn_match(s: &[char], p: usize) -> (r: Option<usize>)
    requires
        p < s@.len(),
    ensures
        match r {
            Some(e) => cdn_match_end(s@, p as int) == Some(e as int) && p + 7 <= e <= s@.len(),
            None => cdn_match_end(s@, p as int) is None,
        },
{
    let q = match scheme_end_exec(s, p) {
        Some(q) => q,
        None => return None,
    };
    let e = cdn_end(s, q);
    let dom = chars_of("xhscdn.");
    if contains_in(s, dom.as_slice(), q, e) {
        Some(e)
    } else {
        None
    }
}

fn note_end(s: &[char], p: usize) -> (r: Option<usize>)
    requires
        p < s@.len(),
    ensures
        match r {
            Some(e) => note_match_end(s@, p as int) == Some(e as int) && p + 7 <= e <= s@.len(),
            None => note_match_end(s@, p as int) is None,
        },
{
    proof {
        reveal_strlit("www.");
        reveal_strlit("xiaohongshu.com/");
        reveal_strlit("explore/");
        reveal_strlit("discovery/item/");
    }
    let n = s.len();
    let q = match scheme_end_exec(s, p) {
        Some(q) => q,
        None => return None,
    };
    let www = chars_of("www.");
    let host = chars_of("xiaohongshu.com/");
    let explore = chars_of("explore/");
    let discovery = chars_of("discovery/item/");
    let q2 = if matches_at(s, www.as_slice(), q) { q + 4 } else { q };
    if !matches_at(s, host.as_slice(), q2) {
        return None;
    }
    let q3 = q2 + 16;
    let q4 = if matches_at(s, explore.as_slice(), q3) {
        q3 + 8
    } else if matches_at(s, discovery.as_slice(), q3) {
        q3 + 15
    } else {
        return None;
    };
    if q4 < n && (('a' <= s[q4] && s[q4] <= 'z') || ('A' <= s[q4] && s[q4] <= 'Z') || ('0' <= s[q4] && s[q4] <= '9')) {
        Some(alnum_end(s, q4))
    } else {
        None
    }
}

fn pattern_end(s: &[char], pat: UrlPattern, p: usize) -> (r: Option<usize>)
    requires
        p < s@.len(),
    ensures
        match r {
            Some(e) => pattern_match_end(s@, pat, p as int) == Some(e as int) && p + 7 <= e <= s@.len(),
            None => pattern_match_end(s@, pat, p as int) is None,
        },
{
    match pat {
        UrlPattern::Image => img_end(s, p),
        UrlPattern::Video => video_end(s, p),
        UrlPattern::Cdn => cdn_match(s, p),
        UrlPattern::Note => note_end(s, p),
    }
}

/// The matches of `pat` in `text`, in order.
pub fn find_pattern_all(text: &[char], pat: UrlPattern) -> (r: Vec<String>)
    ensures
        chars_seq(r@) == scan_pattern(text@, pat, 0),
{
    let n = text.len();
    let mut out: Vec<String> = Vec::new();
    let mut p: usize = 0;
    assert(chars_seq(out@) + scan_pattern(text@, pat, 0) =~= scan_pattern(text@, pat, 0));
    while p < n
        invariant
            p <= n == text@.len(),
            chars_seq(out@) + scan_pattern(text@, pat, p as int) == scan_pattern(text@, pat, 0),
        decreases n - p,
    {
        match pattern_end(text, pat, p) {
            Some(e) => {
                let u = string_of_range(text, p, e);
                let ghost before = out@;
                out.push(u);
                assert(chars_seq(out@) =~= chars_seq(before).push(u@));
                assert(chars_seq(out@) + scan_pattern(text@, pat, e as int)
                    =~= chars_seq(before) + (seq![u@] + scan_pattern(text@, pat, e as int)));
                p = e;
            },
            None => {
                p += 1;
            },
        }
    }
    assert(chars_seq(out@) + Seq::<Seq<char>>::empty() =~= chars_seq(out@));
    out
}

/// The first match of `pat` in `text`, left to right from `p`.
pub open spec fn first_pattern(s: Seq<char>, pat: UrlPattern, p: int) -> Option<Seq<char>>
    decreases s.len() - p,
{
    if p < 0 || p >= s.len() {
        None
    } else {
        match pattern_match_end(s, pat, p) {
            Some(e) => Some(s.subrange(p, e)),
            None => first_pattern(s, pat, p + 1),
        }
    }
}

/// The first match of `pat` in `text`.
pub fn find_pattern(text: &[char], pat: UrlPattern) -> (r: Option<String>)
    ensures
        opt_chars(r) == first_pattern(text@, pat, 0),
{
    let n = text.len();
    let mut p: usize = 0;
    while p < n
        invariant
            p <= n == text@.len(),
            first_pattern(text@, pat, 0) == first_pattern(text@, pat, p as int),
        decreases n - p,
    {
        match pattern_end(text, pat, p) {
            Some(e) => {
                return Some(string_of_range(text, p, e));
            },
            None => {
                p += 1;
            },
        }
    }
    None
}

/// The URLs seen so far (without their query) and the items found so far.
pub type ScanState = (Seq<Seq<char>>, Seq<MediaItemView>);

/// `prefix` followed by the decimal number `n`.
pub open spec fn numbered(prefix: Seq<char>, n: nat) -> Seq<char> {
    prefix + decimal_chars(n)
}

/// An image URL that is a thumbnail or an avatar.
pub open spec fn is_thumbnail(u: Seq<char>) -> bool {
    contains_seq(u, "/w/80"@) || contains_seq(u, "/w/40"@) || contains_seq(u, "avatar"@)
}

/// The media type of an image URL.
pub open spec fn image_url_type(u: Seq<char>) -> MediaType {
    if contains_seq(u, ".gif"@) || contains_seq(u, "format/gif"@) {
        MediaType::Gif
    } else if contains_seq(u, "video"@) || contains_seq(u, ".mp4"@) {
        MediaType::Video
    } else {
        MediaType::Image
    }
}

/// One image URL of the page data: skipped when it is a thumbnail or was
/// seen already, else numbered as the next item.
pub open spec fn image_step(st: ScanState, u: Seq<char>) -> ScanState {
    let base = before_char(u, '?');
    if is_thumbnail(u) || st.0.contains(base) {
        st
    } else {
        (st.0.push(base), st.1.push((image_url_type(u), u, Some(numbered("image_"@, st.1.len() + 1)),
            Some("image/jpeg"@), None, None, None)))
    }
}

/// One video URL of the page data: skipped when it was seen already, else
/// numbered as the next item.
pub open spec fn video_step(st: ScanState, u: Seq<char>) -> ScanState {
    let base = before_char(u, '?');
    if st.0.contains(base) {
        st
    } else {
        (st.0.push(base), st.1.push((MediaType::Video, u, Some(numbered("video_"@, st.1.len() + 1)),
            Some("video/mp4"@), None, None, None)))
    }
}

/// The type of a CDN URL.
pub open spec fn cdn_url_is_video(u: Seq<char>) -> bool {
    contains_seq(u, "video"@) || contains_seq(u, ".mp4"@)
}

/// A CDN URL of a style sheet, script or font.
pub open spec fn is_static_resource(u: Seq<char>) -> bool {
    contains_seq(u, ".css"@) || contains_seq(u, ".js"@) || contains_seq(u, "font"@) || contains_seq(u, "woff"@)
}

/// One CDN URL: skipped when it is a static resource or was seen already,
/// else numbered as the next item.
pub open spec fn cdn_step(st: ScanState, u: Seq<char>) -> ScanState {
    let base = before_char(u, '?');
    if is_static_resource(u) || st.0.contains(base) {
        st
    } else {
        let video = cdn_url_is_video(u);
        (st.0.push(base), st.1.push((if video { MediaType::Video } else { MediaType::Image }, u,
            Some(numbered("media_"@, st.1.len() + 1)),
            Some(if video { "video/mp4"@ } else { "image/jpeg"@ }), None, None, None)))
    }
}

/// The step that a URL pattern's matches take.
pub open spec fn scan_step(pat: UrlPattern, st: ScanState, u: Seq<char>) -> ScanState {
    match pat {
        UrlPattern::Image => image_step(st, u),
        UrlPattern::Video => video_step(st, u),
        _ => cdn_step(st, u),
    }
}

/// The state after the steps for `urls`, in order.
pub open spec fn fold_steps(pat: UrlPattern, st: ScanState, urls: Seq<Seq<char>>) -> ScanState
    decreases urls.len(),
{
    if urls.len() == 0 {
        st
    } else {
        scan_step(pat, fold_steps(pat, st, urls.drop_last()), urls.last())
    }
}

/// The media of the page's embedded data: image URLs, then video URLs, each
/// URL (without its query) once.
pub open spec fn spec_initial_state_items(html: Seq<char>) -> Seq<MediaItemView> {
    let st = fold_steps(UrlPattern::Image, (Seq::empty(), Seq::empty()), scan_pattern(html, UrlPattern::Image, 0));
    fold_steps(UrlPattern::Video, st, scan_pattern(html, UrlPattern::Video, 0)).1
}

/// The CDN media of the page: `xhscdn.` URLs other than static resources,
/// each URL (without its query) once.
pub open spec fn spec_cdn_items(html: Seq<char>) -> Seq<MediaItemView> {
    fold_steps(UrlPattern::Cdn, (Seq::empty(), Seq::empty()), scan_pattern(html, UrlPattern::Cdn, 0)).1
}

/// A scan state in which each item's URL, without its query, is recorded
/// at the item's place among the seen URLs, and no two seen URLs are equal.
pub open spec fn scan_state_wf(st: ScanState) -> bool {
    &&& st.0.len() == st.1.len()
    &&& forall|k: int| 0 <= k < st.1.len() ==> #[trigger] st.0[k] == before_char(st.1[k].1, '?')
    &&& forall|a: int, b: int| 0 <= a < b < st.0.len() ==> #[trigger] st.0[a] != #[trigger] st.0[b]
}

proof fn lemma_push_wf(st: ScanState, base: Seq<char>, item: MediaItemView)
    requires
        scan_state_wf(st),
        !st.0.contains(base),
        base == before_char(item.1, '?'),
    ensures
        scan_state_wf((st.0.push(base), st.1.push(item))),
{
    let n = (st.0.push(base), st.1.push(item));
    assert forall|k: int| 0 <= k < n.1.len() implies #[trigger] n.0[k] == before_char(n.1[k].1, '?') by {
        if k < st.1.len() {
            assert(n.0[k] == st.0[k] && n.1[k] == st.1[k]);
        }
    }
    assert forall|a: int, b: int| 0 <= a < b < n.0.len() implies #[trigger] n.0[a] != #[trigger] n.0[b] by {
        assert(n.0[a] == st.0[a]);
        if b == st.0.len() {
            if n.0[a] == n.0[b] {
                assert(st.0.contains(base));
            }
        } else {
            assert(n.0[b] == st.0[b]);
        }
    }
}

proof fn lemma_step_wf(pat: UrlPattern, st: ScanState, u: Seq<char>)
    requires
        scan_state_wf(st),
    ensures
        scan_state_wf(scan_step(pat, st, u)),
{
    let base = before_char(u, '?');
    if !st.0.contains(base) {
        match pat {
            UrlPattern::Image => {
                if !is_thumbnail(u) {
                    lemma_push_wf(st, base, (image_url_type(u), u, Some(numbered("image_"@, st.1.len() + 1)),
                        Some("image/jpeg"@), None, None, None));
                }
            },
            UrlPattern::Video => {
                lemma_push_wf(st, base, (MediaType::Video, u, Some(numbered("video_"@, st.1.len() + 1)),
                    Some("video/mp4"@), None, None, None));
            },
            _ => {
                if !is_static_resource(u) {
                    let video = cdn_url_is_video(u);
                    lemma_push_wf(st, base, (if video { MediaType::Video } else { MediaType::Image }, u,
                        Some(numbered("media_"@, st.1.len() + 1)),
                        Some(if video { "video/mp4"@ } else { "image/jpeg"@ }), None, None, None));
                }
            },
        }
    }
}

proof fn lemma_fold_wf(pat: UrlPattern, st: ScanState, urls: Seq<Seq<char>>)
    requires
        scan_state_wf(st),
    ensures
        scan_state_wf(fold_steps(pat, st, urls)),
    decreases urls.len(),
{
    if urls.len() > 0 {
        lemma_fold_wf(pat, st, urls.drop_last());
        lemma_step_wf(pat, fold_steps(pat, st, urls.drop_last()), urls.last());
    }
}

/// The media of a page's embedded data name each URL once: no two items
/// have the same URL once the query (from the first `?`) is removed.
pub proof fn initial_state_items_distinct(html: Seq<char>)
    ensures
        forall|i: int, j: int| 0 <= i < j < spec_initial_state_items(html).len() ==>
            before_char(#[trigger] spec_initial_state_items(html)[i].1, '?')
                != before_char(#[trigger] spec_initial_state_items(html)[j].1, '?'),
{
    let e: ScanState = (Seq::empty(), Seq::empty());
    lemma_fold_wf(UrlPattern::Image, e, scan_pattern(html, UrlPattern::Image, 0));
    let st = fold_steps(UrlPattern::Image, e, scan_pattern(html, UrlPattern::Image, 0));
    lemma_fold_wf(UrlPattern::Video, st, scan_pattern(html, UrlPattern::Video, 0));
    let fin = fold_steps(UrlPattern::Video, st, scan_pattern(html, UrlPattern::Video, 0));
    assert forall|i: int, j: int| 0 <= i < j < fin.1.len() implies
        before_char(#[trigger] fin.1[i].1, '?') != before_char(#[trigger] fin.1[j].1, '?') by {
        assert(fin.0[i] == before_char(fin.1[i].1, '?'));
        assert(fin.0[j] == before_char(fin.1[j].1, '?'));
        assert(fin.0[i] != fin.0[j]);
    }
}

/// The CDN media of a page name each URL once: no two items have the same
/// URL once the query (from the first `?`) is removed.
pub proof fn cdn_items_distinct(html: Seq<char>)
    ensures
        forall|i: int, j: int| 0 <= i < j < spec_cdn_items(html).len() ==>
            before_char(#[trigger] spec_cdn_items(html)[i].1, '?')
                != before_char(#[trigger] spec_cdn_items(html)[j].1, '?'),
{
    let e: ScanState = (Seq::empty(), Seq::empty());
    lemma_fold_wf(UrlPattern::Cdn, e, scan_pattern(html, UrlPattern::Cdn, 0));
    let fin = fold_steps(UrlPattern::Cdn, e, scan_pattern(html, UrlPattern::Cdn, 0));
    assert forall|i: int, j: int| 0 <= i < j < fin.1.len() implies
        before_char(#[trigger] fin.1[i].1, '?') != before_char(#[trigger] fin.1[j].1, '?') by {
        assert(fin.0[i] == before_char(fin.1[i].1, '?'));
        assert(fin.0[j] == before_char(fin.1[j].1, '?'));
        assert(fin.0[i] != fin.0[j]);
    }
}

fn seen_contains(seen: &Vec<String>, base: &String) -> (r: bool)
    ensures
        r == chars_seq(seen@).contains(base@),
{
    let mut i: usize = 0;
    while i < seen.len()
        invariant
            i <= seen@.len(),
            forall|k: int| 0 <= k < i ==> chars_seq(seen@)[k] != base@,
        decreases seen@.len() - i,
    {
        if str_eq(seen[i].as_str(), base.as_str()) {
            assert(chars_seq(seen@)[i as int] == base@);
            return true;
        }
        i += 1;
    }
    false
}

fn numbered_exec(prefix: &str, n: usize) -> (r: String)
    ensures
        r@ == numbered(prefix@, n as nat),
{
    let d = u64_to_decimal(n as u64);
    concat_str(prefix, d.as_str())
}

fn scan_step_exec(pat: UrlPattern, seen: &mut Vec<String>, items: &mut Vec<MediaItem>, u: String)
    requires
        old(items)@.len() < usize::MAX,
    ensures
        (chars_seq(final(seen)@), media_items_view(final(items)@))
            == scan_step(pat, (chars_seq(old(seen)@), media_items_view(old(items)@)), u@),
        final(items)@.len() <= old(items)@.len() + 1,
{
    let uc = chars_of(u.as_str());
    let q = before_char_end(uc.as_slice(), 0, uc.len(), '?');
    assert(uc@.subrange(0, uc@.len() as int) =~= uc@);
    let base = string_of_range(uc.as_slice(), 0, q);
    let skip = match pat {
        UrlPattern::Image => contains_lit(uc.as_slice(), "/w/80") || contains_lit(uc.as_slice(), "/w/40")
            || contains_lit(uc.as_slice(), "avatar"),
        UrlPattern::Video => false,
        _ => contains_lit(uc.as_slice(), ".css") || contains_lit(uc.as_slice(), ".js")
            || contains_lit(uc.as_slice(), "font") || contains_lit(uc.as_slice(), "woff"),
    };
    if skip || seen_contains(seen, &base) {
        return;
    }
    let n = items.len() + 1;
    let item = match pat {
        UrlPattern::Image => {
            let t = if contains_lit(uc.as_slice(), ".gif") || contains_lit(uc.as_slice(), "format/gif") {
                MediaType::Gif
            } else if contains_lit(uc.as_slice(), "video") || contains_lit(uc.as_slice(), ".mp4") {
                MediaType::Video
            } else {
                MediaType::Image
            };
            MediaItem {
                media_type: t,
                url: u,
                filename_hint: Some(numbered_exec("image_", n)),
                mime_type: Some("image/jpeg".to_owned()),
                size: None,
                bitrate: None,
                quality_label: None,
            }
        },
        UrlPattern::Video => MediaItem {
            media_type: MediaType::Video,
            url: u,
            filename_hint: Some(numbered_exec("video_", n)),
            mime_type: Some("video/mp4".to_owned()),
            size: None,
            bitrate: None,
            quality_label: None,
        },
        _ => {
            let video = contains_lit(uc.as_slice(), "video") || contains_lit(uc.as_slice(), ".mp4");
            MediaItem {
                media_type: if video { MediaType::Video } else { MediaType::Image },
                url: u,
                filename_hint: Some(numbered_exec("media_", n)),
                mime_type: Some(if video { "video/mp4".to_owned() } else { "image/jpeg".to_owned() }),
                size: None,
                bitrate: None,
                quality_label: None,
            }
        },
    };
    let ghost seen_before = seen@;
    let ghost items_before = items@;
    seen.push(base);
    items.push(item);
    assert(chars_seq(seen@) =~= chars_seq(seen_before).push(base@));
    assert(media_items_view(items@) =~= media_items_view(items_before).push(media_item_view(item)));
}

fn fold_steps_exec(pat: UrlPattern, seen: &mut Vec<String>, items: &mut Vec<MediaItem>, urls: Vec<String>)
    requires
        old(items)@.len() + urls@.len() < usize::MAX,
    ensures
        (chars_seq(final(seen)@), media_items_view(final(items)@))
            == fold_steps(pat, (chars_seq(old(seen)@), media_items_view(old(items)@)), chars_seq(urls@)),
        final(items)@.len() <= old(items)@.len() + urls@.len(),
{
    let ghost st0 = (chars_seq(seen@), media_items_view(items@));
    let ghost n0 = items@.len();
    let ghost us = chars_seq(urls@);
    let mut i: usize = 0;
    assert(us.take(0) =~= Seq::<Seq<char>>::empty());
    while i < urls.len()
        invariant
            i <= urls@.len(),
            us == chars_seq(urls@),
            n0 + urls@.len() < usize::MAX,
            items@.len() <= n0 + i,
            (chars_seq(seen@), media_items_view(items@)) == fold_steps(pat, st0, us.take(i as int)),
        decreases urls@.len() - i,
    {
        assert(us.take(i + 1).drop_last() =~= us.take(i as int));
        assert(us.take(i + 1).last() == urls@[i as int]@);
        scan_step_exec(pat, seen, items, urls[i].clone());
        i += 1;
    }
    assert(us.take(urls@.len() as int) =~= us);
}

/// Extract images and videos from the page's embedded data
/// (`__INITIAL_STATE__` and the like): Xiaohongshu CDN image URLs that are
/// not thumbnails or avatars, then video URLs, each URL once.
pub fn extract_from_initial_state(html: &str) -> (r: Vec<MediaItem>)
    ensures
        media_items_view(r@) == spec_initial_state_items(html@),
{
    let h = chars_of(html);
    let hn = h.len();
    let imgs = find_pattern_all(h.as_slice(), UrlPattern::Image);
    let vids = find_pattern_all(h.as_slice(), UrlPattern::Video);
    assert(imgs@.len() == chars_seq(imgs@).len());
    assert(vids@.len() == chars_seq(vids@).len());
    let mut seen: Vec<String> = Vec::new();
    let mut items: Vec<MediaItem> = Vec::new();
    assert(chars_seq(seen@) =~= Seq::<Seq<char>>::empty());
    assert(media_items_view(items@) =~= Seq::<MediaItemView>::empty());
    proof {
        lemma_scan_len(h@, UrlPattern::Image, 0);
        lemma_scan_len(h@, UrlPattern::Video, 0);
    }
    fold_steps_exec(UrlPattern::Image, &mut seen, &mut items, imgs);
    fold_steps_exec(UrlPattern::Video, &mut seen, &mut items, vids);
    items
}

/// Extract `xhscdn.` image and video URLs from anywhere in the page, other
/// than style sheets, scripts and fonts, each URL once.
pub fn extract_cdn_urls_from_page(html: &str) -> (r: Vec<MediaItem>)
    ensures
        media_items_view(r@) == spec_cdn_items(html@),
{
    let h = chars_of(html);
    let hn = h.len();
    let urls = find_pattern_all(h.as_slice(), UrlPattern::Cdn);
    assert(urls@.len() == chars_seq(urls@).len());
    let mut seen: Vec<String> = Vec::new();
    let mut items: Vec<MediaItem> = Vec::new();
    assert(chars_seq(seen@) =~= Seq::<Seq<char>>::empty());
    assert(media_items_view(items@) =~= Seq::<MediaItemView>::empty());
    proof {
        lemma_scan_len(h@, UrlPattern::Cdn, 0);
    }
    fold_steps_exec(UrlPattern::Cdn, &mut seen, &mut items, urls);
    items
}

/// A scan finds no more matches than there are characters.
proof fn lemma_scan_len(s: Seq<char>, pat: UrlPattern, p: int)
    requires
        0 <= p <= s.len(),
    ensures
        7 * scan_pattern(s, pat, p).len() <= s.len() - p,
    decreases s.len() - p,
{
    if p < s.len() {
        match pattern_match_end(s, pat, p) {
            Some(e) => {
                if p + 7 <= e <= s.len() {
                    lemma_scan_len(s, pat, e);
                }
            },
            None => {
                lemma_scan_len(s, pat, p + 1);
            },
        }
    }
}

/// The media type of an Open Graph image.
pub open spec fn og_image_type(u: Seq<char>) -> MediaType {
    if contains_seq(u, ".gif"@) || contains_seq(u, "format/gif"@) { MediaType::Gif } else { MediaType::Image }
}

/// The items of the Open Graph images, numbered from `image_1`.
pub open spec fn og_image_items(images: Seq<Seq<char>>) -> Seq<MediaItemView>
    decreases images.len(),
{
    if images.len() == 0 {
        Seq::empty()
    } else {
        og_image_items(images.drop_last()).push((og_image_type(images.last()), images.last(),
            Some(numbered("image_"@, images.len())), Some("image/jpeg"@), None, None, None))
    }
}

/// The items of the Open Graph tags: the `og:video`, then every
/// `og:image`.
pub open spec fn spec_og_items(html: Seq<char>) -> Seq<MediaItemView> {
    let video = match spec_og_content(html, "og:video"@) {
        Some(v) => seq![(MediaType::Video, v, None, Some("video/mp4"@), None, None, None)],
        None => Seq::empty(),
    };
    video + og_image_items(spec_all_og_images(html))
}

/// Extract media from the Open Graph tags: the video, then every image.
pub fn extract_from_og_tags(html: &str) -> (r: Vec<MediaItem>)
    ensures
        media_items_view(r@) == spec_og_items(html@),
{
    let mut items: Vec<MediaItem> = Vec::new();
    let ghost video: Seq<MediaItemView>;
    match og_content(html, "og:video") {
        Some(v) => {
            let it = MediaItem {
                media_type: MediaType::Video,
                url: v,
                filename_hint: None,
                mime_type: Some("video/mp4".to_owned()),
                size: None,
                bitrate: None,
                quality_label: None,
            };
            items.push(it);
            proof {
                video = seq![media_item_view(it)];
            }
            assert(media_items_view(items@) =~= video);
        },
        None => {
            proof {
                video = Seq::empty();
            }
            assert(media_items_view(items@) =~= video);
        },
    }
    let images = all_og_images(html);
    let ghost imgs = chars_seq(images@);
    let mut i: usize = 0;
    assert(imgs.take(0) =~= Seq::<Seq<char>>::empty());
    assert(video + og_image_items(imgs.take(0)) =~= video);
    while i < images.len()
        invariant
            i <= images@.len(),
            imgs == chars_seq(images@),
            media_items_view(items@) == video + og_image_items(imgs.take(i as int)),
        decreases images@.len() - i,
    {
        let u = images[i].clone();
        let uc = chars_of(u.as_str());
        let t = if contains_lit(uc.as_slice(), ".gif") || contains_lit(uc.as_slice(), "format/gif") {
            MediaType::Gif
        } else {
            MediaType::Image
        };
        let it = MediaItem {
            media_type: t,
            url: u,
            filename_hint: Some(numbered_exec("image_", i + 1)),
            mime_type: Some("image/jpeg".to_owned()),
            size: None,
            bitrate: None,
            quality_label: None,
        };
        let ghost before = items@;
        items.push(it);
        assert(imgs.take(i + 1).drop_last() =~= imgs.take(i as int));
        assert(imgs.take(i + 1).last() == imgs[i as int]);
        assert(media_items_view(items@) =~= media_items_view(before).push(media_item_view(it)));
        assert(video + og_image_items(imgs.take(i + 1)) =~= (video + og_image_items(imgs.take(i as int))).push(media_item_view(it)));
        i += 1;
    }
    assert(imgs.take(images@.len() as int) =~= imgs);
    items
}

/// The image items of a JSON-LD `image` array: each string element,
/// numbered by its position in the array.
pub open spec fn ld_image_items(arr: Seq<Option<Seq<char>>>) -> Seq<MediaItemView>
    decreases arr.len(),
{
    if arr.len() == 0 {
        Seq::empty()
    } else {
        let rest = ld_image_items(arr.drop_last());
        match arr.last() {
            Some(u) => rest.push((MediaType::Image, u, Some(numbered("image_"@, arr.len())), Some("image/jpeg"@), None, None, None)),
            None => rest,
        }
    }
}

/// The items of one JSON-LD document: its `image` strings, then its
/// `contentUrl` video.
pub open spec fn ld_doc_items(text: Seq<char>) -> Seq<MediaItemView> {
    let images = match json_array_member(text, "image"@) {
        Some(arr) => ld_image_items(arr),
        None => Seq::empty(),
    };
    match json_string_member(text, "contentUrl"@) {
        Some(v) => images.push((MediaType::Video, v, None, Some("video/mp4"@), None, None, None)),
        None => images,
    }
}

/// The items of the first JSON-LD document that has any.
pub open spec fn spec_xhs_json_ld_items(texts: Seq<Seq<char>>) -> Seq<MediaItemView>
    decreases texts.len(),
{
    if texts.len() == 0 {
        Seq::empty()
    } else if ld_doc_items(texts[0]).len() > 0 {
        ld_doc_items(texts[0])
    } else {
        spec_xhs_json_ld_items(texts.drop_first())
    }
}

fn ld_doc_items_exec(text: &str) -> (r: Vec<MediaItem>)
    ensures
        media_items_view(r@) == ld_doc_items(text@),
{
    let mut items: Vec<MediaItem> = Vec::new();
    let ghost images: Seq<MediaItemView>;
    match json_array_field(text, "image") {
        Some(arr) => {
            let ghost av = opt_chars_seq(arr@);
            let mut i: usize = 0;
            assert(av.take(0) =~= Seq::<Option<Seq<char>>>::empty());
            assert(media_items_view(items@) =~= Seq::<MediaItemView>::empty());
            while i < arr.len()
                invariant
                    i <= arr@.len(),
                    av == opt_chars_seq(arr@),
                    media_items_view(items@) == ld_image_items(av.take(i as int)),
                decreases arr@.len() - i,
            {
                assert(av.take(i + 1).drop_last() =~= av.take(i as int));
                assert(av.take(i + 1).last() == opt_chars(arr@[i as int]));
                match &arr[i] {
                    Some(u) => {
                        let it = MediaItem {
                            media_type: MediaType::Image,
                            url: u.clone(),
                            filename_hint: Some(numbered_exec("image_", i + 1)),
                            mime_type: Some("image/jpeg".to_owned()),
                            size: None,
                            bitrate: None,
                            quality_label: None,
                        };
                        let ghost before = items@;
                        items.push(it);
                        assert(media_items_view(items@) =~= media_items_view(before).push(media_item_view(it)));
                    },
                    None => {},
                }
                i += 1;
            }
            assert(av.take(arr@.len() as int) =~= av);
            proof {
                images = ld_image_items(av);
            }
        },
        None => {
            proof {
                images = Seq::empty();
            }
            assert(media_items_view(items@) =~= images);
        },
    }
    match json_string_field(text, "contentUrl") {
        Some(v) => {
            let it = MediaItem {
                media_type: MediaType::Video,
                url: v,
                filename_hint: None,
                mime_type: Some("video/mp4".to_owned()),
                size: None,
                bitrate: None,
                quality_label: None,
            };
            let ghost before = items@;
            items.push(it);
            assert(media_items_view(items@) =~= media_items_view(before).push(media_item_view(it)));
        },
        None => {},
    }
    items
}

/// Extract media from the page's JSON-LD data: the first document with
/// images or a video.
pub fn extract_from_json_ld(html: &str) -> (r: Vec<MediaItem>)
    ensures
        media_items_view(r@) == spec_xhs_json_ld_items(spec_ld_json_texts(html@)),
{
    let texts = ld_json_texts(html);
    let ghost ts = chars_seq(texts@);
    let mut i: usize = 0;
    assert(ts.skip(0) =~= ts);
    while i < texts.len()
        invariant
            i <= texts@.len(),
            ts == chars_seq(texts@),
            ts == spec_ld_json_texts(html@),
            spec_xhs_json_ld_items(ts) == spec_xhs_json_ld_items(ts.skip(i as int)),
        decreases texts@.len() - i,
    {
        assert(ts.skip(i as int)[0] == texts@[i as int]@);
        assert(ts.skip(i as int).drop_first() =~= ts.skip(i + 1));
        let items = ld_doc_items_exec(texts[i].as_str());
        if items.len() > 0 {
            return items;
        }
        i += 1;
    }
    assert(ts.skip(texts@.len() as int) =~= Seq::<Seq<char>>::empty());
    let items: Vec<MediaItem> = Vec::new();
    assert(media_items_view(items@) =~= Seq::<MediaItemView>::empty());
    items
}

/// The first value, where it is present and mentions `xiaohongshu.com`.
pub open spec fn first_xhs_value(v: Seq<Option<Seq<char>>>) -> Option<Seq<char>> {
    if v.len() > 0 {
        match v[0] {
            Some(x) => if contains_seq(x, "xiaohongshu.com"@) { Some(x) } else { None },
            None => None,
        }
    } else {
        None
    }
}

/// The canonical xiaohongshu.com URL of a page: the canonical link, else
/// `og:url`, where it mentions xiaohongshu.com; else the first note URL in
/// the page.
pub open spec fn spec_canonical_url(html: Seq<char>) -> Option<Seq<char>> {
    match html_attr_values(html, "link[rel=\"canonical\"]"@, "href"@) {
        None => None,
        Some(links) => match first_xhs_value(links) {
            Some(x) => Some(x),
            None => match html_attr_values(html, "meta[property=\"og:url\"]"@, "content"@) {
                None => None,
                Some(metas) => match first_xhs_value(metas) {
                    Some(x) => Some(x),
                    None => first_pattern(html, UrlPattern::Note, 0),
                },
            },
        },
    }
}

fn first_xhs_value_exec(v: &Vec<Option<String>>) -> (r: Option<String>)
    ensures
        opt_chars(r) == first_xhs_value(opt_chars_seq(v@)),
{
    if v.len() == 0 {
        return None;
    }
    match &v[0] {
        Some(x) => if str_contains(x.as_str(), "xiaohongshu.com") { Some(x.clone()) } else { None },
        None => None,
    }
}

/// Extract the canonical xiaohongshu.com URL from the page.
pub fn extract_canonical_url(html: &str) -> (r: Option<String>)
    ensures
        opt_chars(r) == spec_canonical_url(html@),
{
    let links = match select_attr_values(html, "link[rel=\"canonical\"]", "href") {
        Some(v) => v,
        None => return None,
    };
    match first_xhs_value_exec(&links) {
        Some(x) => return Some(x),
        None => {},
    }
    let metas = match select_attr_values(html, "meta[property=\"og:url\"]", "content") {
        Some(v) => v,
        None => return None,
    };
    match first_xhs_value_exec(&metas) {
        Some(x) => return Some(x),
        None => {},
    }
    let h = chars_of(html);
    find_pattern(h.as_slice(), UrlPattern::Note)
}

/// The items a page offers: Open Graph tags, else the embedded data, else
/// JSON-LD, else CDN URLs anywhere in the page.
pub open spec fn spec_xhs_page_items(html: Seq<char>) -> Seq<MediaItemView> {
    let a = spec_og_items(html);
    if a.len() > 0 {
        a
    } else {
        let b = spec_initial_state_items(html);
        if b.len() > 0 {
            b
        } else {
            let c = spec_xhs_json_ld_items(spec_ld_json_texts(html));
            if c.len() > 0 { c } else { spec_cdn_items(html) }
        }
    }
}

/// The URL the page is reported under: for a short link, the page's
/// canonical URL where it has one; else the normalized URL.
pub open spec fn spec_page_url(host: Seq<char>, canonical: Seq<char>, html: Seq<char>) -> Seq<char> {
    if host == "xhslink.com"@ {
        match spec_canonical_url(html) {
            Some(c) => c,
            None => canonical,
        }
    } else {
        canonical
    }
}

impl XiaohongshuParser {
    /// Resolve a fetched Xiaohongshu page to its media.
    ///
    /// A page that says the note is gone and carries no media data is
    /// restricted content; a page with no media URLs is a parse failure;
    /// otherwise the media, with the page's title, author and cover.
    pub fn resolve_from_html(&self, url: &NormalizedUrl, html: &str) -> (r: Result<ResolvedMedia, AppError>)
        ensures
            spec_is_truly_restricted(html@) ==> (r matches Err(AppError::RestrictedContent { message })
                && message@ == "This Xiaohongshu content requires login or is private"@),
            !spec_is_truly_restricted(html@) && spec_xhs_page_items(html@).len() == 0 ==> (
                r matches Err(AppError::ParseFailed { message, platform_hint })
                && message@ == "Could not find public media URLs on this Xiaohongshu page. The page structure may have changed."@
                && opt_chars(platform_hint) == Some("xiaohongshu"@)),
            !spec_is_truly_restricted(html@) && spec_xhs_page_items(html@).len() > 0 ==> (r matches Ok(m)
                && m.platform == Platform::Xiaohongshu
                && m.source_url@ == url.original@
                && m.canonical_url@ == spec_page_url(url.host@, url.canonical@, html@)
                && opt_chars(m.title) == spec_page_title(html@, " - 小红书"@)
                && opt_chars(m.author) == spec_page_author(html@)
                && media_items_view(m.media_items@) == spec_xhs_page_items(html@)
                && opt_chars(m.cover) == spec_og_content(html@, "og:image"@)
                && m.created_at is None),
    {
        let page_url = if str_eq(url.host.as_str(), "xhslink.com") {
            match extract_canonical_url(html) {
                Some(c) => c,
                None => url.canonical.clone(),
            }
        } else {
            url.canonical.clone()
        };
        if is_truly_restricted(html) {
            return Err(AppError::RestrictedContent {
                message: "This Xiaohongshu content requires login or is private".to_owned(),
            });
        }
        let title = page_title(html, " - 小红书");
        let author = page_author(html);
        let mut media_items = extract_from_og_tags(html);
        if media_items.len() == 0 {
            media_items = extract_from_initial_state(html);
        }
        if media_items.len() == 0 {
            media_items = extract_from_json_ld(html);
        }
        if media_items.len() == 0 {
            media_items = extract_cdn_urls_from_page(html);
        }
        if media_items.len() == 0 {
            return Err(AppError::ParseFailed {
                message: "Could not find public media URLs on this Xiaohongshu page. The page structure may have changed.".to_owned(),
                platform_hint: Some("xiaohongshu".to_owned()),
            });
        }
        Ok(ResolvedMedia {
            platform: Platform::Xiaohongshu,
            source_url: url.original.clone(),
            canonical_url: page_url,
            title,
            author,
            media_items,
            cover: og_content(html, "og:image"),
            created_at: None,
        })
    }
}

} // verus!
