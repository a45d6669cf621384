//! Douyin page analysis.
//!
//! Douyin serves DASH streams: separate video and audio tracks. The analysis
//! prefers muxed (combined) streams when the page offers them, and otherwise
//! pairs each video stream with the best audio stream for merging after
//! download.

use vstd::prelude::*;
use crate::text::{
    before_char, before_char_end, chars_of, contains_lit, contains_seq, find_after, find_str,
    first_index, occurs_at, matches_at, str_eq, string_of, string_of_range,
};
use crate::error::AppError;
use crate::models::{media_item_view, media_items_view, MediaItem, MediaItemView, MediaType, Platform, ResolvedMedia};
use crate::page::{json_string_field, json_string_member};
use crate::parser::common::NormalizedUrl;
use crate::parser::page_meta::{ld_json_texts, og_content, page_author, page_title, spec_ld_json_texts, spec_og_content, spec_page_author, spec_page_title};
use crate::text::{byte_len, decimal_chars, decimal_value, digit_value, is_ascii_digit, lemma_decimal_monotone, is_whitespace, is_ws, replace_all, replace_str, u64_to_decimal, utf8_len};
use crate::web::opt_chars;
use crate::page::chars_seq;
use crate::text::{clone_opt_string, concat_str, contains_in};
use crate::web::{parse_url, percent_decode_utf8, percent_decoded, url_parse};
use vstd::utf8::{decode_utf8, valid_utf8};

verus! {

/// Douyin platform parser.
/// Handles: douyin.com, www.douyin.com, iesdouyin.com, www.iesdouyin.com,
/// v.douyin.com.
pub struct DouyinParser;

/// The hosts that Douyin pages live on.
pub open spec fn is_douyin_host_spec(h: Seq<char>) -> bool {
    h == "douyin.com"@ || h == "www.douyin.com"@ || h == "iesdouyin.com"@
        || h == "www.iesdouyin.com"@ || h == "v.douyin.com"@
}

/// `url` parses and its host is a Douyin host.
pub open spec fn spec_douyin_can_handle(url: Seq<char>) -> bool {
    match url_parse(url) {
        Ok(v) => match v.2 {
            Some(h) => is_douyin_host_spec(h),
            None => false,
        },
        Err(_) => false,
    }
}

impl DouyinParser {
    pub fn new() -> Self {
        DouyinParser
    }

    /// Whether `host` is one of the Douyin hosts.
    pub fn is_douyin_host(host: &str) -> (r: bool)
        ensures
            r == is_douyin_host_spec(host@),
    {
        str_eq(host, "douyin.com") || str_eq(host, "www.douyin.com") || str_eq(host, "iesdouyin.com")
            || str_eq(host, "www.iesdouyin.com") || str_eq(host, "v.douyin.com")
    }

    /// Whether this parser handles `url`: it parses and its host is a Douyin
    /// host.
    pub fn can_handle(&self, url: &str) -> (r: bool)
        ensures
            r == spec_douyin_can_handle(url@),
    {
        match parse_url(url) {
            Ok(parts) => match &parts.host {
                Some(h) => Self::is_douyin_host(h.as_str()),
                None => false,
            },
            Err(_) => false,
        }
    }
}

/// The page says the work is gone, and carries no video data.
pub open spec fn spec_is_truly_restricted(html: Seq<char>) -> bool {
    let gone = contains_seq(html, "作品已被删除"@) || contains_seq(html, "该作品已不存在"@)
        || contains_seq(html, "作品不存在"@) || contains_seq(html, "该视频已被删除"@);
    let has_video = contains_seq(html, "douyinvod.com"@) || contains_seq(html, "play_addr"@)
        || contains_seq(html, "playAddr"@);
    gone && !has_video
}

/// Whether the page is truly restricted: it says the work was deleted or no
/// longer exists, and it carries no video data.
pub fn is_truly_restricted(html: &str) -> (r: bool)
    ensures
        r == spec_is_truly_restricted(html@),
{
    let h = chars_of(html);
    let s = h.as_slice();
    let gone = contains_lit(s, "作品已被删除") || contains_lit(s, "该作品已不存在")
        || contains_lit(s, "作品不存在") || contains_lit(s, "该视频已被删除");
    let has_video = contains_lit(s, "douyinvod.com") || contains_lit(s, "play_addr")
        || contains_lit(s, "playAddr");
    gone && !has_video
}

/// The kind of a stream.
#[derive(Debug, Clone, Copy, PartialEq, Eq, Structural)]
pub enum StreamType {
    /// DASH video without audio (`media-video-avc1`).
    VideoOnly,
    /// DASH audio (`media-audio-und-mp4a`).
    AudioOnly,
    /// Video and audio combined (`tos-cn-vd` paths).
    Muxed,
}

/// Audio markers first, then the muxed path, then the video markers; what
/// none of them marks counts as muxed.
pub open spec fn spec_classify_stream(u: Seq<char>) -> StreamType {
    if contains_seq(u, "media-audio-und-mp4a"@) || contains_seq(u, "media-audio"@) {
        StreamType::AudioOnly
    } else if contains_seq(u, "tos-cn-vd"@) {
        StreamType::Muxed
    } else if contains_seq(u, "media-video-avc1"@) || contains_seq(u, "media-video-hev1"@) {
        StreamType::VideoOnly
    } else if contains_seq(u, "tos-cn-ve"@) {
        StreamType::VideoOnly
    } else {
        StreamType::Muxed
    }
}

fn classify_chars(u: &[char]) -> (r: StreamType)
    ensures
        r == spec_classify_stream(u@),
{
    if contains_lit(u, "media-audio-und-mp4a") || contains_lit(u, "media-audio") {
        return StreamType::AudioOnly;
    }
    if contains_lit(u, "tos-cn-vd") {
        return StreamType::Muxed;
    }
    if contains_lit(u, "media-video-avc1") || contains_lit(u, "media-video-hev1") {
        return StreamType::VideoOnly;
    }
    if contains_lit(u, "tos-cn-ve") {
        return StreamType::VideoOnly;
    }
    StreamType::Muxed
}

/// Classify a stream URL as video-only, audio-only, or muxed.
pub fn classify_stream(url: &str) -> (r: StreamType)
    ensures
        r == spec_classify_stream(url@),
{
    let u = chars_of(url);
    classify_chars(u.as_slice())
}

/// The part of a stream URL that identifies its content across CDN mirrors:
/// from the first `/tos/` up to the query; without `/tos/`, what follows the
/// first `douyinvod.com` up to the next one or the query.
pub open spec fn spec_content_path(u: Seq<char>) -> Seq<char> {
    if contains_seq(u, "/tos/"@) {
        before_char(u.skip(first_index(u, "/tos/"@)), '?')
    } else if contains_seq(u, "douyinvod.com"@) {
        let rest = u.skip(first_index(u, "douyinvod.com"@) + 13);
        if contains_seq(rest, "douyinvod.com"@) {
            before_char(rest.take(first_index(rest, "douyinvod.com"@)), '?')
        } else {
            before_char(rest, '?')
        }
    } else {
        Seq::empty()
    }
}

fn content_path_chars(u: &[char]) -> (r: String)
    ensures
        r@ == spec_content_path(u@),
{
    let tos = chars_of("/tos/");
    let dom = chars_of("douyinvod.com");
    proof {
        reveal_strlit("douyinvod.com");
    }
    assert(dom@.len() == 13);
    let n = u.len();
    match find_str(u, tos.as_slice()) {
        Some(i) => {
            let e = before_char_end(u, i, n, '?');
            assert(u@.skip(i as int) =~= u@.subrange(i as int, n as int));
            string_of_range(u, i, e)
        },
        None => match find_str(u, dom.as_slice()) {
            Some(i) => {
                let lo = i + 13;
                let ghost rest = u@.skip(lo as int);
                match find_after(u, dom.as_slice(), lo) {
                    Some(j) => {
                        assert(rest.take(j - lo) =~= u@.subrange(lo as int, j as int));
                        let e = before_char_end(u, lo, j, '?');
                        string_of_range(u, lo, e)
                    },
                    None => {
                        assert(rest =~= u@.subrange(lo as int, n as int));
                        let e = before_char_end(u, lo, n, '?');
                        string_of_range(u, lo, e)
                    },
                }
            },
            None => {
                let empty: Vec<char> = Vec::new();
                assert(empty@ =~= Seq::<char>::empty());
                string_of(empty.as_slice())
            },
        },
    }
}

/// Extract the content-identifying path portion, for deduplication of CDN
/// mirrors.
pub fn extract_content_path(url: &str) -> (r: String)
    ensures
        r@ == spec_content_path(url@),
{
    let u = chars_of(url);
    content_path_chars(u.as_slice())
}

/// Whether a character is in the class `\d` of the `regex` crate.
pub uninterp spec fn regex_digit(c: char) -> bool;

/// Whether `c` matches the pattern `\A\d\z` of the `regex` crate: `\d` is
/// the Unicode class of decimal digits (`\p{Nd}`), which among ASCII
/// characters holds exactly `0` to `9`.
#[verifier::external_body]
fn is_regex_digit(c: char) -> (r: bool)
    ensures
        r == regex_digit(c),
        (c as u32) < 0x80 ==> (r <==> ('0' <= c && c <= '9')),
{
    let mut buf = [0u8; 4];
    match regex::Regex::new(r"\A\d\z") {
        Ok(re) => re.is_match(c.encode_utf8(&mut buf)),
        Err(_) => false,
    }
}

/// At `p` stand `?` or `&`, the parameter name, `=`, and a digit.
pub open spec fn param_match_at(u: Seq<char>, name: Seq<char>, p: int) -> bool {
    &&& 0 <= p < u.len()
    &&& (u[p] == '?' || u[p] == '&')
    &&& occurs_at(u, name + "="@, p + 1)
    &&& p + 2 + name.len() < u.len()
    &&& regex_digit(u[p + 2 + name.len()])
}

/// The end of the run of `\d` characters that starts at `j`.
pub open spec fn digit_run_end(u: Seq<char>, j: int) -> int
    decreases u.len() - j,
{
    if j < 0 || j >= u.len() || !regex_digit(u[j]) {
        j
    } else {
        digit_run_end(u, j + 1)
    }
}

/// The leftmost position where the parameter matches.
pub open spec fn first_param_match(u: Seq<char>, name: Seq<char>) -> int {
    choose|p: int| param_match_at(u, name, p) && forall|q: int| 0 <= q < p ==> !param_match_at(u, name, q)
}

/// `str::parse::<u32>` on a non-empty run of digits: the value where every
/// digit is ASCII and it fits.
pub open spec fn spec_parse_u32(d: Seq<char>) -> Option<u32> {
    if d.len() > 0 && (forall|i: int| 0 <= i < d.len() ==> is_ascii_digit(#[trigger] d[i]))
        && decimal_value(d) <= u32::MAX {
        Some(decimal_value(d) as u32)
    } else {
        None
    }
}

/// The value of the URL parameter `name`: the leftmost match of
/// `[?&]name=(\d+)`, its digits parsed as a `u32`.
pub open spec fn spec_param_u32(u: Seq<char>, name: Seq<char>) -> Option<u32> {
    if exists|p: int| param_match_at(u, name, p) {
        let q = first_param_match(u, name) + 2 + name.len();
        spec_parse_u32(u.subrange(q, digit_run_end(u, q)))
    } else {
        None
    }
}

proof fn lemma_digit_run_bounds(u: Seq<char>, j: int)
    requires
        0 <= j <= u.len(),
    ensures
        j <= digit_run_end(u, j) <= u.len(),
        forall|k: int| j <= k < digit_run_end(u, j) ==> regex_digit(#[trigger] u[k]),
    decreases u.len() - j,
{
    if j < u.len() && regex_digit(u[j]) {
        lemma_digit_run_bounds(u, j + 1);
    }
}

/// `str::parse::<u32>` on `d[lo..hi]`, a non-empty run of digits.
fn parse_digits_u32(d: &[char], lo: usize, hi: usize) -> (r: Option<u32>)
    requires
        lo < hi <= d@.len(),
    ensures
        r == spec_parse_u32(d@.subrange(lo as int, hi as int)),
{
    let ghost s = d@.subrange(lo as int, hi as int);
    let mut acc: u64 = 0;
    let mut k = lo;
    while k < hi
        invariant
            lo <= k <= hi <= d@.len(),
            s == d@.subrange(lo as int, hi as int),
            forall|i: int| 0 <= i < k - lo ==> is_ascii_digit(#[trigger] s[i]),
            acc == decimal_value(s.take(k - lo)),
            acc <= u32::MAX,
        decreases hi - k,
    {
        let c = d[k];
        if !('0' <= c && c <= '9') {
            assert(!is_ascii_digit(s[k - lo]));
            return None;
        }
        assert(s.take(k - lo + 1).drop_last() =~= s.take(k - lo));
        assert(s.take(k - lo + 1).last() == c);
        acc = acc * 10 + digit_value(c);
        if acc > 0xFFFF_FFFFu64 {
            proof {
                let t = s.take(k - lo + 1);
                if forall|i: int| 0 <= i < s.len() ==> is_ascii_digit(#[trigger] s[i]) {
                    lemma_decimal_monotone(s, k - lo + 1);
                }
            }
            return None;
        }
        k += 1;
    }
    assert(s.take(hi - lo) =~= s);
    Some(acc as u32)
}

/// Extract a `u32` parameter value from a URL query string: the leftmost
/// match of `[?&]param=(\d+)`, its digits parsed.
pub fn extract_param_u32(url: &str, param: &str) -> (r: Option<u32>)
    ensures
        r == spec_param_u32(url@, param@),
{
    let u = chars_of(url);
    let name = chars_of(param);
    let eq = chars_of("=");
    let ghost key = name@ + "="@;
    let mut pat = name.clone();
    let mut t: usize = 0;
    while t < eq.len()
        invariant
            t <= eq@.len(),
            pat@ == name@ + eq@.take(t as int),
        decreases eq@.len() - t,
    {
        pat.push(eq[t]);
        assert(eq@.take(t + 1) =~= eq@.take(t as int).push(eq@[t as int]));
        t += 1;
    }
    assert(eq@.take(eq@.len() as int) =~= eq@);
    assert(pat@ =~= key);
    proof {
        reveal_strlit("=");
    }
    let n = u.len();
    let mut p: usize = 0;
    while p < n
        invariant
            p <= n == u@.len(),
            pat@ == key,
            u@ == url@,
            name@ == param@,
            key == name@ + "="@,
            key.len() == name@.len() + 1,
            forall|q: int| 0 <= q < p ==> !param_match_at(u@, param@, q),
        decreases n - p,
    {
        let c = u[p];
        if (c == '?' || c == '&') && matches_at(u.as_slice(), pat.as_slice(), p + 1) {
            let q = p + 1 + pat.len();
            if q < n && is_regex_digit(u[q]) {
                assert(occurs_at(u@, pat@, p + 1));
                assert(name@ == param@);
                assert(occurs_at(u@, param@ + "="@, p + 1));
                assert(q == p + 2 + param@.len());
                assert(param_match_at(u@, param@, p as int));
                let mut e = q;
                while e < n && is_regex_digit(u[e])
                    invariant
                        q <= e <= n == u@.len(),
                        digit_run_end(u@, q as int) == digit_run_end(u@, e as int),
                    decreases n - e,
                {
                    e += 1;
                }
                proof {
                    let fp = first_param_match(u@, param@);
                    assert(param_match_at(u@, param@, fp));
                    if fp < p {
                    }
                    if fp > p {
                        assert(!param_match_at(u@, param@, p as int));
                    }
                    assert(fp == p);
                    assert(digit_run_end(u@, e as int) == e as int);
                    assert(exists|x: int| param_match_at(u@, param@, x));
                    assert(u@ == url@);
                    assert(pat@.len() == param@.len() + 1);
                    assert(first_param_match(url@, param@) + 2 + param@.len() == q);
                }
                return parse_digits_u32(u.as_slice(), q, e);
            }
        }
        proof {
            if param_match_at(u@, param@, p as int) {
                assert(occurs_at(u@, pat@, p + 1));
            }
        }
        p += 1;
    }
    assert(!exists|q: int| param_match_at(u@, param@, q));
    None
}

/// The quality label of a bitrate in kbps.
pub open spec fn spec_quality_label(b: u32) -> Seq<char> {
    if b >= 4000 {
        "1080p高清"@
    } else if b >= 2000 {
        "720p高清"@
    } else if b >= 1200 {
        "480p标清"@
    } else if b >= 600 {
        "360p流畅"@
    } else if b > 0 {
        decimal_chars(b as nat) + "kbps"@
    } else {
        "默认"@
    }
}

/// Convert bitrate (kbps) to a human-readable quality label.
pub fn bitrate_to_quality_label(bitrate: u32) -> (r: String)
    ensures
        r@ == spec_quality_label(bitrate),
{
    if bitrate >= 4000 {
        "1080p高清".to_owned()
    } else if bitrate >= 2000 {
        "720p高清".to_owned()
    } else if bitrate >= 1200 {
        "480p标清".to_owned()
    } else if bitrate >= 600 {
        "360p流畅".to_owned()
    } else if bitrate > 0 {
        let d = u64_to_decimal(bitrate as u64);
        crate::text::concat_str(d.as_str(), "kbps")
    } else {
        "默认".to_owned()
    }
}

/// The content of the script that starts with `marker` and ends at the
/// next `</script>`, where both are found.
pub open spec fn spec_script_after(html: Seq<char>, marker: Seq<char>) -> Option<Seq<char>> {
    if contains_seq(html, marker) {
        let rest = html.skip(first_index(html, marker) + marker.len());
        if contains_seq(rest, "</script>"@) {
            Some(rest.take(first_index(rest, "</script>"@)))
        } else {
            None
        }
    } else {
        None
    }
}

/// The content of the `RENDER_DATA` script (either form of its opening
/// tag), or nothing.
pub open spec fn spec_render_data(html: Seq<char>) -> Seq<char> {
    match spec_script_after(html, "<script id=\"RENDER_DATA\" type=\"application/json\">"@) {
        Some(c) => c,
        None => match spec_script_after(html, "<script id=\"RENDER_DATA\">"@) {
            Some(c) => c,
            None => Seq::empty(),
        },
    }
}

fn script_after(h: &[char], marker: &str) -> (r: Option<String>)
    ensures
        match r {
            Some(c) => spec_script_after(h@, marker@) == Some(c@),
            None => spec_script_after(h@, marker@) is None,
        },
{
    let m = chars_of(marker);
    let end = chars_of("</script>");
    match find_str(h, m.as_slice()) {
        Some(i) => {
            let hl = h.len();
            assert(occurs_at(h@, m@, i as int));
            let s = i + m.len();
            match find_after(h, end.as_slice(), s) {
                Some(j) => {
                    assert(h@.skip(s as int).take(j - s) =~= h@.subrange(s as int, j as int));
                    Some(string_of_range(h, s, j))
                },
                None => None,
            }
        },
        None => None,
    }
}

/// The content of the `RENDER_DATA` script, or an empty string.
pub fn extract_render_data_content(html: &str) -> (r: String)
    ensures
        r@ == spec_render_data(html@),
{
    let h = chars_of(html);
    match script_after(h.as_slice(), "<script id=\"RENDER_DATA\" type=\"application/json\">") {
        Some(c) => c,
        None => match script_after(h.as_slice(), "<script id=\"RENDER_DATA\">") {
            Some(c) => c,
            None => String::new(),
        },
    }
}

/// The end of the run of characters other than `"` that starts at `j`.
pub open spec fn quote_run_end(s: Seq<char>, j: int) -> int
    decreases s.len() - j,
{
    if j < 0 || j >= s.len() || s[j] == '"' {
        j
    } else {
        quote_run_end(s, j + 1)
    }
}

/// Where a stream URL starting at `p` ends: `https://` or `http://`, then
/// characters other than `"` among which `douyinvod.com` occurs; the match
/// runs to the next `"` (the pattern `https?://[^"]*douyinvod\.com[^"]*`).
pub open spec fn vod_match_end(s: Seq<char>, p: int) -> Option<int> {
    let q = if occurs_at(s, "https://"@, p) {
        p + 8
    } else if occurs_at(s, "http://"@, p) {
        p + 7
    } else {
        -1
    };
    if q < 0 {
        None
    } else {
        let e = quote_run_end(s, q);
        if contains_seq(s.subrange(q, e), "douyinvod.com"@) { Some(e) } else { None }
    }
}

/// The stream URLs of `s`, found left to right from `p` without overlap.
pub open spec fn scan_vod(s: Seq<char>, p: int) -> Seq<Seq<char>>
    decreases s.len() - p,
{
    if p < 0 || p >= s.len() {
        Seq::empty()
    } else {
        match vod_match_end(s, p) {
            Some(e) => if p < e <= s.len() {
                seq![s.subrange(p, e)] + scan_vod(s, e)
            } else {
                Seq::empty()
            },
            None => scan_vod(s, p + 1),
        }
    }
}

fn quote_end(s: &[char], j: usize) -> (r: usize)
    requires
        j <= s@.len(),
    ensures
        r == quote_run_end(s@, j as int),
        j <= r <= s@.len(),
{
    let mut k = j;
    while k < s.len() && s[k] != '"'
        invariant
            j <= k <= s@.len(),
            quote_run_end(s@, j as int) == quote_run_end(s@, k as int),
        decreases s@.len() - k,
    {
        k += 1;
    }
    k
}

fn vod_end(s: &[char], p: usize, https: &[char], http: &[char], dom: &[char]) -> (r: Option<usize>)
    requires
        p < s@.len(),
        https@ == "https://"@,
        http@ == "http://"@,
        dom@ == "douyinvod.com"@,
    ensures
        match r {
            Some(e) => vod_match_end(s@, p as int) == Some(e as int) && p < e <= s@.len(),
            None => vod_match_end(s@, p as int) is None,
        },
{
    proof {
        reveal_strlit("https://");
        reveal_strlit("http://");
    }
    let n = s.len();
    let q = if matches_at(s, https, p) {
        p + 8
    } else if matches_at(s, http, p) {
        p + 7
    } else {
        return None;
    };
    let e = quote_end(s, q);
    if contains_in(s, dom, q, e) {
        Some(e)
    } else {
        None
    }
}

/// The stream URLs of `text` (the matches of
/// `https?://[^"]*douyinvod\.com[^"]*`), in order.
pub fn vod_urls(text: &[char]) -> (r: Vec<String>)
    ensures
        chars_seq(r@) == scan_vod(text@, 0),
{
    let https = chars_of("https://");
    let http = chars_of("http://");
    let dom = chars_of("douyinvod.com");
    let n = text.len();
    let mut out: Vec<String> = Vec::new();
    let mut p: usize = 0;
    assert(chars_seq(out@) + scan_vod(text@, 0) =~= scan_vod(text@, 0));
    while p < n
        invariant
            p <= n == text@.len(),
            https@ == "https://"@,
            http@ == "http://"@,
            dom@ == "douyinvod.com"@,
            chars_seq(out@) + scan_vod(text@, p as int) == scan_vod(text@, 0),
        decreases n - p,
    {
        match vod_end(text, p, https.as_slice(), http.as_slice(), dom.as_slice()) {
            Some(e) => {
                let u = string_of_range(text, p, e);
                let ghost before = out@;
                out.push(u);
                assert(chars_seq(out@) =~= chars_seq(before).push(u@));
                assert(chars_seq(out@) + scan_vod(text@, e as int) =~= chars_seq(before) + (seq![u@] + scan_vod(text@, e as int)));
                p = e;
            },
            None => {
                p += 1;
            },
        }
    }
    assert(chars_seq(out@) + Seq::<Seq<char>>::empty() =~= chars_seq(out@));
    out
}

/// A character of the URL class `[^\s"'<>]` of the fallback page scan.
pub open spec fn is_url_char(c: char) -> bool {
    !is_ws(c) && c != '"' && c != '\'' && c != '<' && c != '>'
}

/// The end of the run of URL characters that starts at `j`.
pub open spec fn url_run_end(s: Seq<char>, j: int) -> int
    decreases s.len() - j,
{
    if j < 0 || j >= s.len() || !is_url_char(s[j]) {
        j
    } else {
        url_run_end(s, j + 1)
    }
}

/// `douyinvod.com` occurs within `[q, e)`, and `tos-cn-vd` after it.
pub open spec fn vod_markers_within(s: Seq<char>, q: int, e: int) -> bool {
    exists|i: int, j: int|
        q <= i && i + 13 <= j && j + 9 <= e && #[trigger] occurs_at(s, "douyinvod.com"@, i)
            && #[trigger] occurs_at(s, "tos-cn-vd"@, j)
}

/// Where a fallback stream URL starting at `p` ends: `https://` or
/// `http://`, then URL characters among which `douyinvod.com` and, after it,
/// `tos-cn-vd` occur; the match runs to the end of the URL characters (the
/// pattern `https?://[^\s"'<>]*douyinvod\.com[^\s"'<>]*tos-cn-vd[^\s"'<>]*`).
pub open spec fn fallback_match_end(s: Seq<char>, p: int) -> Option<int> {
    let q = if occurs_at(s, "https://"@, p) {
        p + 8
    } else if occurs_at(s, "http://"@, p) {
        p + 7
    } else {
        -1
    };
    if q < 0 {
        None
    } else {
        let e = url_run_end(s, q);
        if vod_markers_within(s, q, e) { Some(e) } else { None }
    }
}

/// The leftmost fallback stream URL of `s` from `p` on.
pub open spec fn first_fallback_url(s: Seq<char>, p: int) -> Option<Seq<char>>
    decreases s.len() - p,
{
    if p < 0 || p >= s.len() {
        None
    } else {
        match fallback_match_end(s, p) {
            Some(e) => Some(s.subrange(p, e)),
            None => first_fallback_url(s, p + 1),
        }
    }
}

/// The item offered for a fallback stream URL: a muxed video, labelled by
/// its `br=` bitrate where it has one.
pub open spec fn fallback_vod_item(url: Seq<char>) -> MediaItemView {
    let br = spec_param_u32(url, "br"@);
    let label = match br {
        Some(b) => Some(spec_quality_label(b)),
        None => None,
    };
    (MediaType::Video, url, label, Some("video/mp4"@), None, br, label)
}

/// The items of the fallback page scan: the first fallback stream URL, if
/// any.
pub open spec fn spec_vod_fallback_items(html: Seq<char>) -> Seq<MediaItemView> {
    match first_fallback_url(html, 0) {
        Some(u) => seq![fallback_vod_item(u)],
        None => Seq::empty(),
    }
}

fn url_end(s: &[char], j: usize) -> (r: usize)
    requires
        j <= s@.len(),
    ensures
        r == url_run_end(s@, j as int),
        j <= r <= s@.len(),
{
    let mut k = j;
    while k < s.len() && !is_whitespace(s[k]) && s[k] != '"' && s[k] != '\'' && s[k] != '<'
        && s[k] != '>'
        invariant
            j <= k <= s@.len(),
            url_run_end(s@, j as int) == url_run_end(s@, k as int),
        decreases s@.len() - k,
    {
        k += 1;
    }
    k
}

fn vod_markers_in(s: &[char], q: usize, e: usize, dom: &[char], tos: &[char]) -> (r: bool)
    requires
        q <= e <= s@.len(),
        dom@ == "douyinvod.com"@,
        tos@ == "tos-cn-vd"@,
    ensures
        r == vod_markers_within(s@, q as int, e as int),
{
    proof {
        reveal_strlit("douyinvod.com");
        reveal_strlit("tos-cn-vd");
    }
    let mut i = q;
    while i < e && e - i >= 13
        invariant
            q <= i <= e <= s@.len(),
            dom@ == "douyinvod.com"@,
            tos@ == "tos-cn-vd"@,
            dom@.len() == 13,
            tos@.len() == 9,
            forall|k: int| q <= k < i ==> !occurs_at(s@, dom@, k),
        decreases e - i,
    {
        if matches_at(s, dom, i) {
            let found = contains_in(s, tos, i + 13, e);
            proof {
                let sub = s@.subrange(i + 13, e as int);
                if found {
                    let jj = choose|j: int| occurs_at(sub, tos@, j);
                    assert(sub.subrange(jj, jj + 9) =~= s@.subrange(i + 13 + jj, i + 13 + jj + 9));
                    assert(occurs_at(s@, "tos-cn-vd"@, i + 13 + jj));
                    assert(occurs_at(s@, "douyinvod.com"@, i as int));
                } else {
                    assert forall|a: int, b: int|
                        q <= a && a + 13 <= b && b + 9 <= e && #[trigger] occurs_at(s@, "douyinvod.com"@, a)
                            && #[trigger] occurs_at(s@, "tos-cn-vd"@, b) implies false by {
                        assert(a >= i);
                        assert(sub.subrange(b - i - 13, b - i - 13 + 9) =~= s@.subrange(b, b + 9));
                        assert(occurs_at(sub, tos@, b - i - 13));
                    }
                }
            }
            return found;
        }
        i += 1;
    }
    proof {
        assert forall|a: int, b: int|
            q <= a && a + 13 <= b && b + 9 <= e && #[trigger] occurs_at(s@, "douyinvod.com"@, a)
                && #[trigger] occurs_at(s@, "tos-cn-vd"@, b) implies false by {
            if a < i {
                assert(!occurs_at(s@, dom@, a));
            }
        }
    }
    false
}

fn fallback_end(s: &[char], p: usize, https: &[char], http: &[char], dom: &[char], tos: &[char]) -> (r: Option<usize>)
    requires
        p < s@.len(),
        https@ == "https://"@,
        http@ == "http://"@,
        dom@ == "douyinvod.com"@,
        tos@ == "tos-cn-vd"@,
    ensures
        match r {
            Some(e) => fallback_match_end(s@, p as int) == Some(e as int) && p < e <= s@.len(),
            None => fallback_match_end(s@, p as int) is None,
        },
{
    proof {
        reveal_strlit("https://");
        reveal_strlit("http://");
    }
    let n = s.len();
    let q = if matches_at(s, https, p) {
        p + 8
    } else if matches_at(s, http, p) {
        p + 7
    } else {
        return None;
    };
    let e = url_end(s, q);
    if vod_markers_in(s, q, e, dom, tos) {
        Some(e)
    } else {
        None
    }
}

fn fallback_item(url: String) -> (r: MediaItem)
    ensures
        media_item_view(r) == fallback_vod_item(url@),
{
    let bitrate = extract_param_u32(url.as_str(), "br");
    let label = match bitrate {
        Some(b) => Some(bitrate_to_quality_label(b)),
        None => None,
    };
    MediaItem {
        media_type: MediaType::Video,
        url,
        filename_hint: clone_opt_string(&label),
        mime_type: Some("video/mp4".to_owned()),
        size: None,
        bitrate,
        quality_label: label,
    }
}

/// Fallback scan of the page source: the first URL of the `douyinvod.com`
/// CDN on a `tos-cn-vd` path (the pattern
/// `https?://[^\s"'<>]*douyinvod\.com[^\s"'<>]*tos-cn-vd[^\s"'<>]*`), as a
/// muxed video labelled by its bitrate.
pub fn extract_vod_urls_from_page(html: &str) -> (r: Vec<MediaItem>)
    ensures
        media_items_view(r@) == spec_vod_fallback_items(html@),
{
    let s = chars_of(html);
    let https = chars_of("https://");
    let http = chars_of("http://");
    let dom = chars_of("douyinvod.com");
    let tos = chars_of("tos-cn-vd");
    let n = s.len();
    let mut p: usize = 0;
    while p < n
        invariant
            p <= n == s@.len(),
            s@ == html@,
            https@ == "https://"@,
            http@ == "http://"@,
            dom@ == "douyinvod.com"@,
            tos@ == "tos-cn-vd"@,
            first_fallback_url(s@, p as int) == first_fallback_url(s@, 0),
        decreases n - p,
    {
        match fallback_end(s.as_slice(), p, https.as_slice(), http.as_slice(), dom.as_slice(), tos.as_slice()) {
            Some(e) => {
                let it = fallback_item(string_of_range(s.as_slice(), p, e));
                let mut items: Vec<MediaItem> = Vec::new();
                items.push(it);
                assert(media_items_view(items@) =~= seq![media_item_view(it)]);
                return items;
            },
            None => {
                p += 1;
            },
        }
    }
    let items: Vec<MediaItem> = Vec::new();
    assert(media_items_view(items@) =~= Seq::<MediaItemView>::empty());
    items
}

/// A stream found in the page data.
#[derive(Debug)]
pub struct ParsedStream {
    pub url: String,
    pub stream_type: StreamType,
    /// Bitrate in kbps (`br=`), 0 where missing.
    pub bitrate: u32,
    /// Quality score (`qs=`), 0 where missing.
    pub quality_score: u32,
    /// The path that identifies the content across CDN mirrors.
    pub content_path: String,
}

/// The plain values of a stream: URL, type, bitrate, quality score, content
/// path.
pub type StreamView = (Seq<char>, StreamType, u32, u32, Seq<char>);

/// The plain values of `s`.
pub open spec fn stream_view(s: ParsedStream) -> StreamView {
    (s.url@, s.stream_type, s.bitrate, s.quality_score, s.content_path@)
}

/// The plain values of each stream.
pub open spec fn streams_view(v: Seq<ParsedStream>) -> Seq<StreamView> {
    v.map_values(|s: ParsedStream| stream_view(s))
}

impl ParsedStream {
    /// A stream with the same fields as this one.
    pub fn duplicate(&self) -> (r: Self)
        ensures
            stream_view(r) == stream_view(*self),
    {
        ParsedStream {
            url: self.url.clone(),
            stream_type: self.stream_type,
            bitrate: self.bitrate,
            quality_score: self.quality_score,
            content_path: self.content_path.clone(),
        }
    }
}

/// The value, or 0.
pub open spec fn or_zero(o: Option<u32>) -> u32 {
    match o {
        Some(v) => v,
        None => 0,
    }
}

/// A URL that points at video data.
pub open spec fn is_video_url(u: Seq<char>) -> bool {
    contains_seq(u, "mime_type=video_mp4"@) || contains_seq(u, "/video/"@)
}

/// The stream that a URL describes.
pub open spec fn spec_parse_stream(u: Seq<char>) -> StreamView {
    (u, spec_classify_stream(u), or_zero(spec_param_u32(u, "br"@)), or_zero(spec_param_u32(u, "qs"@)), spec_content_path(u))
}

/// The streams of the video URLs among `urls`, in order.
pub open spec fn spec_parse_streams(urls: Seq<Seq<char>>) -> Seq<StreamView>
    decreases urls.len(),
{
    if urls.len() == 0 {
        Seq::empty()
    } else {
        let r = spec_parse_streams(urls.drop_last());
        if is_video_url(urls.last()) { r.push(spec_parse_stream(urls.last())) } else { r }
    }
}

fn parse_stream(url: &String) -> (r: ParsedStream)
    ensures
        stream_view(r) == spec_parse_stream(url@),
{
    let stream_type = classify_stream(url.as_str());
    let bitrate = match extract_param_u32(url.as_str(), "br") {
        Some(b) => b,
        None => 0,
    };
    let quality_score = match extract_param_u32(url.as_str(), "qs") {
        Some(q) => q,
        None => 0,
    };
    let content_path = extract_content_path(url.as_str());
    ParsedStream { url: url.clone(), stream_type, bitrate, quality_score, content_path }
}

/// The streams of the URLs that point at video data, in order.
pub fn parse_streams(urls: &Vec<String>) -> (r: Vec<ParsedStream>)
    ensures
        streams_view(r@) == spec_parse_streams(chars_seq(urls@)),
{
    let ghost us = chars_seq(urls@);
    let mut out: Vec<ParsedStream> = Vec::new();
    let mut i: usize = 0;
    while i < urls.len()
        invariant
            i <= urls@.len(),
            us == chars_seq(urls@),
            streams_view(out@) == spec_parse_streams(us.take(i as int)),
        decreases urls@.len() - i,
    {
        assert(us.take(i + 1).drop_last() =~= us.take(i as int));
        assert(us.take(i + 1).last() == urls@[i as int]@);
        let u = &urls[i];
        let uc = chars_of(u.as_str());
        if contains_lit(uc.as_slice(), "mime_type=video_mp4") || contains_lit(uc.as_slice(), "/video/") {
            let st = parse_stream(u);
            let ghost before = out@;
            out.push(st);
            assert(streams_view(out@) =~= streams_view(before).push(stream_view(st)));
        }
        i += 1;
    }
    assert(us.take(urls@.len() as int) =~= us);
    out
}

/// Some stream in `v` has content path `path`.
pub open spec fn has_path(v: Seq<StreamView>, path: Seq<char>) -> bool {
    exists|i: int| 0 <= i < v.len() && (#[trigger] v[i]).4 == path
}

/// `v` with each stream whose content path an earlier one has removed.
pub open spec fn dedup_paths(v: Seq<StreamView>) -> Seq<StreamView>
    decreases v.len(),
{
    if v.len() == 0 {
        Seq::empty()
    } else {
        let r = dedup_paths(v.drop_last());
        if has_path(r, v.last().4) { r } else { r.push(v.last()) }
    }
}

fn has_path_exec(v: &Vec<ParsedStream>, path: &String) -> (r: bool)
    ensures
        r == has_path(streams_view(v@), path@),
{
    let mut i: usize = 0;
    while i < v.len()
        invariant
            i <= v@.len(),
            forall|k: int| 0 <= k < i ==> (#[trigger] streams_view(v@)[k]).4 != path@,
        decreases v@.len() - i,
    {
        if str_eq(v[i].content_path.as_str(), path.as_str()) {
            assert(streams_view(v@)[i as int].4 == path@);
            return true;
        }
        i += 1;
    }
    false
}

/// The streams, each content path kept once (the first stream that has it).
pub fn dedup_streams(v: &Vec<ParsedStream>) -> (r: Vec<ParsedStream>)
    ensures
        streams_view(r@) == dedup_paths(streams_view(v@)),
{
    let ghost vs = streams_view(v@);
    let mut out: Vec<ParsedStream> = Vec::new();
    let mut i: usize = 0;
    while i < v.len()
        invariant
            i <= v@.len(),
            vs == streams_view(v@),
            streams_view(out@) == dedup_paths(vs.take(i as int)),
        decreases v@.len() - i,
    {
        assert(vs.take(i + 1).drop_last() =~= vs.take(i as int));
        assert(vs.take(i + 1).last() == stream_view(v@[i as int]));
        if !has_path_exec(&out, &v[i].content_path) {
            let st = v[i].duplicate();
            let ghost before = out@;
            out.push(st);
            assert(streams_view(out@) =~= streams_view(before).push(stream_view(st)));
        }
        i += 1;
    }
    assert(vs.take(v@.len() as int) =~= vs);
    out
}

/// The streams of type `t`, in order.
pub open spec fn of_type(v: Seq<StreamView>, t: StreamType) -> Seq<StreamView>
    decreases v.len(),
{
    if v.len() == 0 {
        Seq::empty()
    } else {
        let r = of_type(v.drop_last(), t);
        if v.last().1 == t { r.push(v.last()) } else { r }
    }
}

/// The streams of type `t`, in order.
pub fn streams_of_type(v: &Vec<ParsedStream>, t: StreamType) -> (r: Vec<ParsedStream>)
    ensures
        streams_view(r@) == of_type(streams_view(v@), t),
{
    let ghost vs = streams_view(v@);
    let mut out: Vec<ParsedStream> = Vec::new();
    let mut i: usize = 0;
    while i < v.len()
        invariant
            i <= v@.len(),
            vs == streams_view(v@),
            streams_view(out@) == of_type(vs.take(i as int), t),
        decreases v@.len() - i,
    {
        assert(vs.take(i + 1).drop_last() =~= vs.take(i as int));
        assert(vs.take(i + 1).last() == stream_view(v@[i as int]));
        if v[i].stream_type == t {
            let st = v[i].duplicate();
            let ghost before = out@;
            out.push(st);
            assert(streams_view(out@) =~= streams_view(before).push(stream_view(st)));
        }
        i += 1;
    }
    assert(vs.take(v@.len() as int) =~= vs);
    out
}

/// `x` placed into the bitrate-descending `sorted` after every stream whose
/// bitrate is at least its own.
pub open spec fn insert_desc(sorted: Seq<StreamView>, x: StreamView) -> Seq<StreamView>
    decreases sorted.len(),
{
    if sorted.len() == 0 {
        seq![x]
    } else if sorted.last().2 < x.2 {
        insert_desc(sorted.drop_last(), x).push(sorted.last())
    } else {
        sorted.push(x)
    }
}

/// The stable sort of `v` by bitrate, highest first (`sort_by` with
/// `b.bitrate.cmp(&a.bitrate)`).
pub open spec fn sort_desc(v: Seq<StreamView>) -> Seq<StreamView>
    decreases v.len(),
{
    if v.len() == 0 {
        Seq::empty()
    } else {
        insert_desc(sort_desc(v.drop_last()), v.last())
    }
}

#[verifier::rlimit(30)]
fn insert_position(sorted: &Vec<ParsedStream>, x: &ParsedStream) -> (k: usize)
    ensures
        k <= sorted@.len(),
        insert_desc(streams_view(sorted@), stream_view(*x))
            == streams_view(sorted@).take(k as int).push(stream_view(*x)) + streams_view(sorted@).skip(k as int),
{
    let ghost ss = streams_view(sorted@);
    let ghost xv = stream_view(*x);
    let mut k = sorted.len();
    assert(ss.take(k as int) =~= ss);
    assert(ss.skip(k as int) =~= Seq::<StreamView>::empty());
    assert(insert_desc(ss, xv) =~= insert_desc(ss.take(k as int), xv) + ss.skip(k as int));
    while k > 0 && sorted[k - 1].bitrate < x.bitrate
        invariant
            k <= sorted@.len(),
            ss == streams_view(sorted@),
            xv == stream_view(*x),
            insert_desc(ss, xv) == insert_desc(ss.take(k as int), xv) + ss.skip(k as int),
        decreases k,
    {
        assert(ss.take(k as int).drop_last() =~= ss.take(k - 1));
        assert(ss.take(k as int).last() == ss[k - 1]);
        assert(ss.skip(k - 1) =~= seq![ss[k - 1]] + ss.skip(k as int));
        assert(insert_desc(ss.take(k - 1), xv).push(ss[k - 1]) + ss.skip(k as int)
            =~= insert_desc(ss.take(k - 1), xv) + ss.skip(k - 1));
        k -= 1;
    }
    assert(insert_desc(ss.take(k as int), xv) =~= ss.take(k as int).push(xv));
    k
}

fn append_streams(out: &mut Vec<ParsedStream>, v: &Vec<ParsedStream>, lo: usize, hi: usize)
    requires
        lo <= hi <= v@.len(),
    ensures
        streams_view(final(out)@) == streams_view(old(out)@) + streams_view(v@).subrange(lo as int, hi as int),
{
    let ghost start = streams_view(out@);
    let ghost vs = streams_view(v@);
    let mut j = lo;
    assert(start + vs.subrange(lo as int, lo as int) =~= start);
    while j < hi
        invariant
            lo <= j <= hi <= v@.len(),
            vs == streams_view(v@),
            streams_view(out@) == start + vs.subrange(lo as int, j as int),
        decreases hi - j,
    {
        let st = v[j].duplicate();
        let ghost before = out@;
        out.push(st);
        assert(streams_view(out@) =~= streams_view(before).push(stream_view(st)));
        assert(start + vs.subrange(lo as int, j + 1) =~= (start + vs.subrange(lo as int, j as int)).push(vs[j as int]));
        j += 1;
    }
}

fn insert_sorted(sorted: &Vec<ParsedStream>, x: &ParsedStream) -> (r: Vec<ParsedStream>)
    ensures
        streams_view(r@) == insert_desc(streams_view(sorted@), stream_view(*x)),
{
    let ghost ss = streams_view(sorted@);
    let k = insert_position(sorted, x);
    let mut out: Vec<ParsedStream> = Vec::new();
    append_streams(&mut out, sorted, 0, k);
    let xs = x.duplicate();
    let ghost before_x = out@;
    out.push(xs);
    assert(streams_view(out@) =~= streams_view(before_x).push(stream_view(*x)));
    append_streams(&mut out, sorted, k, sorted.len());
    assert(Seq::<StreamView>::empty() + ss.subrange(0, k as int) =~= ss.take(k as int));
    assert(ss.subrange(k as int, ss.len() as int) =~= ss.skip(k as int));
    out
}

/// The streams sorted by bitrate, highest first, equal bitrates in their
/// original order.
pub fn sort_by_bitrate_desc(v: &Vec<ParsedStream>) -> (r: Vec<ParsedStream>)
    ensures
        streams_view(r@) == sort_desc(streams_view(v@)),
{
    let ghost vs = streams_view(v@);
    let mut out: Vec<ParsedStream> = Vec::new();
    let mut i: usize = 0;
    assert(vs.take(0) =~= Seq::<StreamView>::empty());
    assert(streams_view(out@) =~= Seq::<StreamView>::empty());
    while i < v.len()
        invariant
            i <= v@.len(),
            vs == streams_view(v@),
            streams_view(out@) == sort_desc(vs.take(i as int)),
        decreases v@.len() - i,
    {
        assert(vs.take(i + 1).drop_last() =~= vs.take(i as int));
        assert(vs.take(i + 1).last() == stream_view(v@[i as int]));
        out = insert_sorted(&out, &v[i]);
        i += 1;
    }
    assert(vs.take(v@.len() as int) =~= vs);
    out
}

/// The stream with the highest bitrate, the last of them where several
/// share it (`Iterator::max_by_key`).
pub open spec fn best_stream(v: Seq<StreamView>) -> Option<StreamView>
    decreases v.len(),
{
    if v.len() == 0 {
        None
    } else {
        match best_stream(v.drop_last()) {
            None => Some(v.last()),
            Some(b) => if v.last().2 >= b.2 { Some(v.last()) } else { Some(b) },
        }
    }
}

/// The URL of the best audio stream, or nothing.
pub open spec fn best_audio_url(audio: Seq<StreamView>) -> Seq<char> {
    match best_stream(audio) {
        Some(b) => b.0,
        None => Seq::empty(),
    }
}

fn best_audio_url_exec(audio: &Vec<ParsedStream>) -> (r: String)
    ensures
        r@ == best_audio_url(streams_view(audio@)),
{
    let ghost vs = streams_view(audio@);
    let mut best: Option<usize> = None;
    let mut i: usize = 0;
    while i < audio.len()
        invariant
            i <= audio@.len(),
            vs == streams_view(audio@),
            match best {
                Some(b) => b < i && best_stream(vs.take(i as int)) == Some(vs[b as int]),
                None => i == 0 && best_stream(vs.take(i as int)) is None,
            },
        decreases audio@.len() - i,
    {
        assert(vs.take(i + 1).drop_last() =~= vs.take(i as int));
        assert(vs.take(i + 1).last() == vs[i as int]);
        match best {
            None => {
                best = Some(i);
            },
            Some(b) => {
                if audio[i].bitrate >= audio[b].bitrate {
                    best = Some(i);
                }
            },
        }
        i += 1;
    }
    assert(vs.take(audio@.len() as int) =~= vs);
    match best {
        Some(b) => audio[b].url.clone(),
        None => String::new(),
    }
}

/// The item offered for a muxed stream.
pub open spec fn muxed_item(s: StreamView) -> MediaItemView {
    let l = spec_quality_label(s.2);
    (MediaType::Video, s.0, Some(l + "_muxed"@), Some("video/mp4"@), None, Some(s.2), Some(l + " (含音频)"@))
}

/// The item offered for a video stream, paired with the audio stream at
/// `audio` where there is one.
pub open spec fn dash_item(s: StreamView, audio: Seq<char>) -> MediaItemView {
    let l = spec_quality_label(s.2);
    let url = if audio.len() > 0 { "DASH_MERGE||"@ + s.0 + "||"@ + audio } else { s.0 };
    let label = if audio.len() > 0 { l + " (视频+音频需合并)"@ } else { l + " (仅视频)"@ };
    (MediaType::Video, url, Some(l), Some("video/mp4"@), None, Some(s.2), Some(label))
}

/// The items offered for the streams: the muxed streams by bitrate where
/// there are any, else the video streams by bitrate each paired with the
/// best audio stream; at most four.
pub open spec fn spec_items_for_streams(streams: Seq<StreamView>) -> Seq<MediaItemView> {
    let muxed = of_type(streams, StreamType::Muxed);
    let video = of_type(streams, StreamType::VideoOnly);
    let audio = of_type(streams, StreamType::AudioOnly);
    let items = if muxed.len() > 0 {
        sort_desc(muxed).map_values(|s: StreamView| muxed_item(s))
    } else if video.len() > 0 {
        let a = best_audio_url(audio);
        sort_desc(video).map_values(|s: StreamView| dash_item(s, a))
    } else {
        Seq::empty()
    };
    if items.len() > 4 { items.take(4) } else { items }
}

/// The streams found in decoded page data: the stream URLs that point at
/// video data, each content path once.
pub open spec fn spec_streams_in(decoded: Seq<char>) -> Seq<StreamView> {
    dedup_paths(spec_parse_streams(scan_vod(decoded, 0)))
}

/// The items offered by the page's `RENDER_DATA`: nothing where it is
/// missing or does not percent-decode to UTF-8.
pub open spec fn spec_extract_from_render_data(html: Seq<char>) -> Seq<MediaItemView> {
    let rd = spec_render_data(html);
    if rd.len() == 0 || !valid_utf8(percent_decoded(rd)) {
        Seq::empty()
    } else {
        spec_items_for_streams(spec_streams_in(decode_utf8(percent_decoded(rd))))
    }
}

fn muxed_item_exec(s: &ParsedStream) -> (r: MediaItem)
    ensures
        media_item_view(r) == muxed_item(stream_view(*s)),
{
    let label = bitrate_to_quality_label(s.bitrate);
    MediaItem {
        media_type: MediaType::Video,
        url: s.url.clone(),
        filename_hint: Some(concat_str(label.as_str(), "_muxed")),
        mime_type: Some("video/mp4".to_owned()),
        size: None,
        bitrate: Some(s.bitrate),
        quality_label: Some(concat_str(label.as_str(), " (含音频)")),
    }
}

fn dash_item_exec(s: &ParsedStream, audio: &String) -> (r: MediaItem)
    ensures
        media_item_view(r) == dash_item(stream_view(*s), audio@),
{
    let label = bitrate_to_quality_label(s.bitrate);
    let has_audio = !audio.as_str().is_empty();
    let url = if has_audio {
        let a = concat_str("DASH_MERGE||", s.url.as_str());
        let b = concat_str(a.as_str(), "||");
        concat_str(b.as_str(), audio.as_str())
    } else {
        s.url.clone()
    };
    let text = if has_audio {
        concat_str(label.as_str(), " (视频+音频需合并)")
    } else {
        concat_str(label.as_str(), " (仅视频)")
    };
    MediaItem {
        media_type: MediaType::Video,
        url,
        filename_hint: Some(label),
        mime_type: Some("video/mp4".to_owned()),
        size: None,
        bitrate: Some(s.bitrate),
        quality_label: Some(text),
    }
}

/// The items offered for the streams (muxed first, else video paired with
/// the best audio), at most four.
pub fn items_for_streams(streams: &Vec<ParsedStream>) -> (r: Vec<MediaItem>)
    ensures
        media_items_view(r@) == spec_items_for_streams(streams_view(streams@)),
{
    let ghost sv = streams_view(streams@);
    let muxed = streams_of_type(streams, StreamType::Muxed);
    let video = streams_of_type(streams, StreamType::VideoOnly);
    let audio = streams_of_type(streams, StreamType::AudioOnly);
    let mut items: Vec<MediaItem> = Vec::new();
    let ghost expected: Seq<MediaItemView>;
    if muxed.len() > 0 {
        let sorted = sort_by_bitrate_desc(&muxed);
        let ghost ss = streams_view(sorted@);
        let mut i: usize = 0;
        while i < sorted.len()
            invariant
                i <= sorted@.len(),
                ss == streams_view(sorted@),
                media_items_view(items@) == ss.take(i as int).map_values(|s: StreamView| muxed_item(s)),
            decreases sorted@.len() - i,
        {
            let it = muxed_item_exec(&sorted[i]);
            let ghost before = items@;
            items.push(it);
            assert(media_items_view(items@) =~= media_items_view(before).push(media_item_view(it)));
            assert(ss.take(i + 1).map_values(|s: StreamView| muxed_item(s))
                =~= ss.take(i as int).map_values(|s: StreamView| muxed_item(s)).push(muxed_item(ss[i as int])));
            i += 1;
        }
        assert(ss.take(sorted@.len() as int) =~= ss);
        proof {
            expected = ss.map_values(|s: StreamView| muxed_item(s));
        }
    } else if video.len() > 0 {
        let sorted = sort_by_bitrate_desc(&video);
        let audio_url = best_audio_url_exec(&audio);
        let ghost ss = streams_view(sorted@);
        let ghost a = audio_url@;
        let mut i: usize = 0;
        while i < sorted.len()
            invariant
                i <= sorted@.len(),
                ss == streams_view(sorted@),
                a == audio_url@,
                media_items_view(items@) == ss.take(i as int).map_values(|s: StreamView| dash_item(s, a)),
            decreases sorted@.len() - i,
        {
            let it = dash_item_exec(&sorted[i], &audio_url);
            let ghost before = items@;
            items.push(it);
            assert(media_items_view(items@) =~= media_items_view(before).push(media_item_view(it)));
            assert(ss.take(i + 1).map_values(|s: StreamView| dash_item(s, a))
                =~= ss.take(i as int).map_values(|s: StreamView| dash_item(s, a)).push(dash_item(ss[i as int], a)));
            i += 1;
        }
        assert(ss.take(sorted@.len() as int) =~= ss);
        proof {
            expected = ss.map_values(|s: StreamView| dash_item(s, a));
        }
    } else {
        proof {
            expected = Seq::empty();
        }
        assert(media_items_view(items@) =~= expected);
    }
    assert(media_items_view(items@) == expected);
    if items.len() > 4 {
        items.truncate(4);
        assert(media_items_view(items@) =~= expected.take(4));
    }
    items
}

/// The streams found in decoded page data: stream URLs that point at video
/// data, each content path kept once.
pub fn streams_in(decoded: &str) -> (r: Vec<ParsedStream>)
    ensures
        streams_view(r@) == spec_streams_in(decoded@),
{
    let d = chars_of(decoded);
    let urls = vod_urls(d.as_slice());
    let all = parse_streams(&urls);
    dedup_streams(&all)
}

/// Extract and classify the streams of the page's `RENDER_DATA`, and offer
/// one item per quality: muxed streams where there are any, else video
/// streams paired with the best audio stream for merging.
pub fn extract_from_render_data(html: &str) -> (r: Vec<MediaItem>)
    ensures
        media_items_view(r@) == spec_extract_from_render_data(html@),
{
    let render_data = extract_render_data_content(html);
    if render_data.as_str().is_empty() {
        let v: Vec<MediaItem> = Vec::new();
        assert(media_items_view(v@) =~= Seq::<MediaItemView>::empty());
        return v;
    }
    match percent_decode_utf8(render_data.as_str()) {
        Some(decoded) => {
            let streams = streams_in(decoded.as_str());
            items_for_streams(&streams)
        },
        None => {
            let v: Vec<MediaItem> = Vec::new();
            assert(media_items_view(v@) =~= Seq::<MediaItemView>::empty());
            v
        },
    }
}

/// The item offered for a page video URL.
pub open spec fn page_video_item(url: Seq<char>, mime: Option<Seq<char>>) -> MediaItemView {
    (MediaType::Video, url, None, mime, None, None, None)
}

fn page_video_item_exec(url: String, mime: Option<String>) -> (r: MediaItem)
    ensures
        media_item_view(r) == page_video_item(url@, opt_chars(mime)),
{
    MediaItem {
        media_type: MediaType::Video,
        url,
        filename_hint: None,
        mime_type: mime,
        size: None,
        bitrate: None,
        quality_label: None,
    }
}

/// The items of the Open Graph video tags: `og:video`, then `og:video:url`
/// where it differs.
pub open spec fn spec_og_video_items(html: Seq<char>) -> Seq<MediaItemView> {
    let first = match spec_og_content(html, "og:video"@) {
        Some(v) => seq![page_video_item(v, Some("video/mp4"@))],
        None => Seq::empty(),
    };
    match spec_og_content(html, "og:video:url"@) {
        Some(v) => if first.len() > 0 && first[0].1 == v {
            first
        } else {
            first.push(page_video_item(v, Some("video/mp4"@)))
        },
        None => first,
    }
}

/// The items of the Open Graph video tags.
pub fn extract_from_og_tags(html: &str) -> (r: Vec<MediaItem>)
    ensures
        media_items_view(r@) == spec_og_video_items(html@),
{
    let mut items: Vec<MediaItem> = Vec::new();
    match og_content(html, "og:video") {
        Some(v) => {
            let it = page_video_item_exec(v, Some("video/mp4".to_owned()));
            items.push(it);
            assert(media_items_view(items@) =~= seq![media_item_view(it)]);
        },
        None => {
            assert(media_items_view(items@) =~= Seq::<MediaItemView>::empty());
        },
    }
    match og_content(html, "og:video:url") {
        Some(v) => {
            let dup = items.len() > 0 && str_eq(items[0].url.as_str(), v.as_str());
            if !dup {
                let it = page_video_item_exec(v, Some("video/mp4".to_owned()));
                let ghost before = items@;
                items.push(it);
                assert(media_items_view(items@) =~= media_items_view(before).push(media_item_view(it)));
            }
        },
        None => {},
    }
    items
}

/// The first JSON-LD document with a string `contentUrl`: that URL, with
/// its `encodingFormat` as the MIME type.
pub open spec fn spec_json_ld_items(texts: Seq<Seq<char>>) -> Seq<MediaItemView>
    decreases texts.len(),
{
    if texts.len() == 0 {
        Seq::empty()
    } else {
        match json_string_member(texts[0], "contentUrl"@) {
            Some(u) => seq![page_video_item(u, json_string_member(texts[0], "encodingFormat"@))],
            None => spec_json_ld_items(texts.drop_first()),
        }
    }
}

/// The video of the page's JSON-LD data.
pub fn extract_from_json_ld(html: &str) -> (r: Vec<MediaItem>)
    ensures
        media_items_view(r@) == spec_json_ld_items(spec_ld_json_texts(html@)),
{
    let texts = ld_json_texts(html);
    let ghost ts = chars_seq(texts@);
    let mut i: usize = 0;
    assert(ts.skip(0) =~= ts);
    while i < texts.len()
        invariant
            i <= texts@.len(),
            ts == chars_seq(texts@),
            ts == spec_ld_json_texts(html@),
            spec_json_ld_items(ts) == spec_json_ld_items(ts.skip(i as int)),
        decreases texts@.len() - i,
    {
        assert(ts.skip(i as int)[0] == texts@[i as int]@);
        assert(ts.skip(i as int).drop_first() =~= ts.skip(i + 1));
        match json_string_field(texts[i].as_str(), "contentUrl") {
            Some(u) => {
                let mime = json_string_field(texts[i].as_str(), "encodingFormat");
                let it = page_video_item_exec(u, mime);
                let mut items: Vec<MediaItem> = Vec::new();
                items.push(it);
                assert(media_items_view(items@) =~= seq![media_item_view(it)]);
                return items;
            },
            None => {},
        }
        i += 1;
    }
    assert(ts.skip(texts@.len() as int) =~= Seq::<Seq<char>>::empty());
    let items: Vec<MediaItem> = Vec::new();
    assert(media_items_view(items@) =~= Seq::<MediaItemView>::empty());
    items
}

/// The end of the run of whitespace that starts at `j`.
pub open spec fn ws_run_end(s: Seq<char>, j: int) -> int
    decreases s.len() - j,
{
    if j < 0 || j >= s.len() || !is_ws(s[j]) {
        j
    } else {
        ws_run_end(s, j + 1)
    }
}

/// Where the JSON field `key` (quoted, as in `"desc"`) starts at `p`,
/// followed by optional whitespace, `:`, optional whitespace and a quoted
/// value of 1 to `max` characters other than `"`: the bounds of the value
/// (the pattern `"key"\s*:\s*"([^"]{1,max})"`).
pub open spec fn field_match(s: Seq<char>, key: Seq<char>, max: int, p: int) -> Option<(int, int)> {
    if occurs_at(s, key, p) {
        let a = ws_run_end(s, p + key.len());
        if 0 <= a < s.len() && s[a] == ':' {
            let b = ws_run_end(s, a + 1);
            if 0 <= b < s.len() && s[b] == '"' {
                let e = quote_run_end(s, b + 1);
                if b + 1 < e && e - (b + 1) <= max && e < s.len() { Some((b + 1, e)) } else { None }
            } else {
                None
            }
        } else {
            None
        }
    } else {
        None
    }
}

/// The values of the field `key` found left to right from `p`, without
/// overlap.
pub open spec fn scan_fields(s: Seq<char>, key: Seq<char>, max: int, p: int) -> Seq<Seq<char>>
    decreases s.len() - p,
{
    if p < 0 || p >= s.len() {
        Seq::empty()
    } else {
        match field_match(s, key, max, p) {
            Some(m) => if p < m.1 + 1 <= s.len() {
                seq![s.subrange(m.0, m.1)] + scan_fields(s, key, max, m.1 + 1)
            } else {
                Seq::empty()
            },
            None => scan_fields(s, key, max, p + 1),
        }
    }
}

fn ws_end(s: &[char], j: usize) -> (r: usize)
    requires
        j <= s@.len(),
    ensures
        r == ws_run_end(s@, j as int),
        j <= r <= s@.len(),
{
    let mut k = j;
    while k < s.len() && is_whitespace(s[k])
        invariant
            j <= k <= s@.len(),
            ws_run_end(s@, j as int) == ws_run_end(s@, k as int),
        decreases s@.len() - k,
    {
        k += 1;
    }
    k
}

fn field_at(s: &[char], key: &[char], max: usize, p: usize) -> (r: Option<(usize, usize)>)
    requires
        p < s@.len(),
    ensures
        match r {
            Some(m) => field_match(s@, key@, max as int, p as int) == Some((m.0 as int, m.1 as int))
                && p < m.0 <= m.1 < s@.len(),
            None => field_match(s@, key@, max as int, p as int) is None,
        },
{
    let n = s.len();
    if !matches_at(s, key, p) {
        return None;
    }
    let a = ws_end(s, p + key.len());
    if !(a < n && s[a] == ':') {
        return None;
    }
    let b = ws_end(s, a + 1);
    if !(b < n && s[b] == '"') {
        return None;
    }
    let e = quote_end(s, b + 1);
    if b + 1 < e && e - (b + 1) <= max && e < n {
        Some((b + 1, e))
    } else {
        None
    }
}

/// A description good for a title: not `null`, more than two bytes long.
pub open spec fn usable_desc(d: Seq<char>) -> bool {
    d.len() > 0 && d != "null"@ && byte_len(d) > 2
}

/// The first usable description.
pub open spec fn first_usable_desc(descs: Seq<Seq<char>>) -> Option<Seq<char>>
    decreases descs.len(),
{
    if descs.len() == 0 {
        None
    } else if usable_desc(descs[0]) {
        Some(descs[0])
    } else {
        first_usable_desc(descs.drop_first())
    }
}

/// The escapes `\u0026`, `\n` and `\t` written out.
pub open spec fn unescape_desc(d: Seq<char>) -> Seq<char> {
    replace_all(replace_all(replace_all(d, "\\u0026"@, "&"@), "\\n"@, " "@), "\\t"@, " "@)
}

/// The decoded `RENDER_DATA` of the page, where it is present and decodes.
pub open spec fn spec_decoded_render_data(html: Seq<char>) -> Option<Seq<char>> {
    let rd = spec_render_data(html);
    if rd.len() == 0 || !valid_utf8(percent_decoded(rd)) {
        None
    } else {
        Some(decode_utf8(percent_decoded(rd)))
    }
}

/// The video title from `RENDER_DATA`: the first usable `"desc"` value of
/// 1 to 200 characters, unescaped.
pub open spec fn spec_title_from_render_data(html: Seq<char>) -> Option<Seq<char>> {
    match spec_decoded_render_data(html) {
        Some(d) => match first_usable_desc(scan_fields(d, "\"desc\""@, 200, 0)) {
            Some(t) => Some(unescape_desc(t)),
            None => None,
        },
        None => None,
    }
}

/// The author from `RENDER_DATA`: the first `"nickname"` value of 1 to 100
/// characters, unless it is `null`.
pub open spec fn spec_author_from_render_data(html: Seq<char>) -> Option<Seq<char>> {
    match spec_decoded_render_data(html) {
        Some(d) => {
            let f = scan_fields(d, "\"nickname\""@, 100, 0);
            if f.len() > 0 && f[0].len() > 0 && f[0] != "null"@ { Some(f[0]) } else { None }
        },
        None => None,
    }
}

fn decoded_render_data(html: &str) -> (r: Option<String>)
    ensures
        opt_chars(r) == spec_decoded_render_data(html@),
{
    let rd = extract_render_data_content(html);
    if rd.as_str().is_empty() {
        return None;
    }
    percent_decode_utf8(rd.as_str())
}

/// The next field value at or after `p`, and where the scan goes on.
fn next_field(s: &[char], key: &[char], max: usize, p: usize) -> (r: Option<(usize, usize)>)
    requires
        p <= s@.len(),
    ensures
        match r {
            Some(m) => p < m.0 <= m.1 < s@.len()
                && scan_fields(s@, key@, max as int, p as int)
                    == seq![s@.subrange(m.0 as int, m.1 as int)] + scan_fields(s@, key@, max as int, m.1 + 1),
            None => scan_fields(s@, key@, max as int, p as int) == Seq::<Seq<char>>::empty(),
        },
{
    let n = s.len();
    let mut q = p;
    while q < n
        invariant
            p <= q <= n == s@.len(),
            scan_fields(s@, key@, max as int, p as int) == scan_fields(s@, key@, max as int, q as int),
        decreases n - q,
    {
        match field_at(s, key, max, q) {
            Some(m) => {
                return Some(m);
            },
            None => {
                q += 1;
            },
        }
    }
    None
}

fn usable_desc_exec(s: &[char], lo: usize, hi: usize) -> (r: bool)
    requires
        lo <= hi <= s@.len(),
    ensures
        r == usable_desc(s@.subrange(lo as int, hi as int)),
{
    let d = string_of_range(s, lo, hi);
    let b = utf8_len(d.as_str());
    lo < hi && !str_eq(d.as_str(), "null") && b > 2
}

/// Extract the video title from `RENDER_DATA`: the first usable `"desc"`
/// value, with its escapes written out.
pub fn extract_title_from_render_data(html: &str) -> (r: Option<String>)
    ensures
        opt_chars(r) == spec_title_from_render_data(html@),
{
    let decoded = match decoded_render_data(html) {
        Some(d) => d,
        None => return None,
    };
    let d = chars_of(decoded.as_str());
    let key = chars_of("\"desc\"");
    let ghost all = scan_fields(d@, key@, 200, 0);
    let mut p: usize = 0;
    proof {
        reveal_strlit("\\u0026");
        reveal_strlit("\\n");
        reveal_strlit("\\t");
    }
    loop
        invariant
            p <= d@.len(),
            d@ == decoded@,
            spec_decoded_render_data(html@) == Some(decoded@),
            "\\u0026"@.len() == 6,
            "\\n"@.len() == 2,
            "\\t"@.len() == 2,
            key@ == "\"desc\""@,
            all == scan_fields(d@, key@, 200, 0),
            first_usable_desc(all) == first_usable_desc(scan_fields(d@, key@, 200, p as int)),
        decreases d@.len() - p,
    {
        match next_field(d.as_slice(), key.as_slice(), 200, p) {
            Some(m) => {
                let ghost rest = scan_fields(d@, key@, 200, m.1 + 1);
                let ghost here = d@.subrange(m.0 as int, m.1 as int);
                assert((seq![here] + rest)[0] == here);
                assert((seq![here] + rest).drop_first() =~= rest);
                if usable_desc_exec(d.as_slice(), m.0, m.1) {
                    let t = string_of_range(d.as_slice(), m.0, m.1);
                    let a = replace_str(t.as_str(), "\\u0026", "&");
                    let b = replace_str(a.as_str(), "\\n", " ");
                    let c = replace_str(b.as_str(), "\\t", " ");
                    return Some(c);
                }
                let n = d.len();
                p = m.1 + 1;
            },
            None => {
                return None;
            },
        }
    }
}

/// Extract the author nickname from `RENDER_DATA`: the first `"nickname"`
/// value, unless it is `null`.
pub fn extract_author_from_render_data(html: &str) -> (r: Option<String>)
    ensures
        opt_chars(r) == spec_author_from_render_data(html@),
{
    let decoded = match decoded_render_data(html) {
        Some(d) => d,
        None => return None,
    };
    let d = chars_of(decoded.as_str());
    let key = chars_of("\"nickname\"");
    match next_field(d.as_slice(), key.as_slice(), 100, 0) {
        Some(m) => {
            let nick = string_of_range(d.as_slice(), m.0, m.1);
            if m.0 < m.1 && !str_eq(nick.as_str(), "null") {
                Some(nick)
            } else {
                None
            }
        },
        None => None,
    }
}

/// The items a page offers: from `RENDER_DATA`, else the Open Graph video
/// tags, else JSON-LD.
pub open spec fn spec_page_items(html: Seq<char>) -> Seq<MediaItemView> {
    let a = spec_extract_from_render_data(html);
    if a.len() > 0 {
        a
    } else {
        let b = spec_og_video_items(html);
        if b.len() > 0 { b } else { spec_json_ld_items(spec_ld_json_texts(html)) }
    }
}

/// The page title: the page metadata (with ` - 抖音` cut off the `<title>`),
/// else `RENDER_DATA`.
pub open spec fn spec_douyin_title(html: Seq<char>) -> Option<Seq<char>> {
    match spec_page_title(html, " - 抖音"@) {
        Some(t) => Some(t),
        None => spec_title_from_render_data(html),
    }
}

/// The page author: the page metadata, else `RENDER_DATA`.
pub open spec fn spec_douyin_author(html: Seq<char>) -> Option<Seq<char>> {
    match spec_page_author(html) {
        Some(a) => Some(a),
        None => spec_author_from_render_data(html),
    }
}

impl DouyinParser {
    /// Resolve a fetched Douyin page to its media.
    ///
    /// A page that says the work is gone and carries no video data is
    /// restricted content; a page with no media URLs is a parse failure;
    /// otherwise the media, with the page's title, author and cover.
    pub fn resolve_from_html(&self, url: &NormalizedUrl, html: &str) -> (r: Result<ResolvedMedia, AppError>)
        ensures
            spec_is_truly_restricted(html@) ==> (r matches Err(AppError::RestrictedContent { message })
                && message@ == "This Douyin content requires login or is private"@),
            !spec_is_truly_restricted(html@) && spec_page_items(html@).len() == 0 ==> (
                r matches Err(AppError::ParseFailed { message, platform_hint })
                && message@ == "Could not find public media URLs on this Douyin page. The page structure may have changed."@
                && opt_chars(platform_hint) == Some("douyin"@)),
            !spec_is_truly_restricted(html@) && spec_page_items(html@).len() > 0 ==> (r matches Ok(m)
                && m.platform == Platform::Douyin
                && m.source_url@ == url.original@
                && m.canonical_url@ == url.canonical@
                && opt_chars(m.title) == spec_douyin_title(html@)
                && opt_chars(m.author) == spec_douyin_author(html@)
                && media_items_view(m.media_items@) == spec_page_items(html@)
                && opt_chars(m.cover) == spec_og_content(html@, "og:image"@)
                && m.created_at is None),
    {
        if is_truly_restricted(html) {
            return Err(AppError::RestrictedContent {
                message: "This Douyin content requires login or is private".to_owned(),
            });
        }
        let mut title = page_title(html, " - 抖音");
        let mut author = page_author(html);
        if title.is_none() {
            title = extract_title_from_render_data(html);
        }
        if author.is_none() {
            author = extract_author_from_render_data(html);
        }
        let mut media_items = extract_from_render_data(html);
        if media_items.len() == 0 {
            media_items = extract_from_og_tags(html);
        }
        if media_items.len() == 0 {
            media_items = extract_from_json_ld(html);
        }
        if media_items.len() == 0 {
            return Err(AppError::ParseFailed {
                message: "Could not find public media URLs on this Douyin page. The page structure may have changed.".to_owned(),
                platform_hint: Some("douyin".to_owned()),
            });
        }
        Ok(ResolvedMedia {
            platform: Platform::Douyin,
            source_url: url.original.clone(),
            canonical_url: url.canonical.clone(),
            title,
            author,
            media_items,
            cover: og_content(html, "og:image"),
            created_at: None,
        })
    }
}

/// Bitrates never increase along `s`.
pub open spec fn sorted_by_bitrate(s: Seq<StreamView>) -> bool {
    forall|i: int, j: int| 0 <= i < j < s.len() ==> s[i].2 >= s[j].2
}

/// Every bitrate in `s` is at least `b`.
pub open spec fn bitrates_at_least(s: Seq<StreamView>, b: u32) -> bool {
    forall|i: int| 0 <= i < s.len() ==> s[i].2 >= b
}

proof fn lemma_insert_desc(s: Seq<StreamView>, x: StreamView, b: u32)
    requires
        sorted_by_bitrate(s),
    ensures
        sorted_by_bitrate(insert_desc(s, x)),
        insert_desc(s, x).len() == s.len() + 1,
        bitrates_at_least(s, b) && x.2 >= b ==> bitrates_at_least(insert_desc(s, x), b),
    decreases s.len(),
{
    if s.len() == 0 {
    } else if s.last().2 < x.2 {
        let d = s.drop_last();
        assert(sorted_by_bitrate(d)) by {
            assert forall|i: int, j: int| 0 <= i < j < d.len() implies d[i].2 >= d[j].2 by {
                assert(d[i] == s[i] && d[j] == s[j]);
            }
        }
        lemma_insert_desc(d, x, b);
        lemma_insert_desc(d, x, s.last().2);
        assert(bitrates_at_least(d, s.last().2)) by {
            assert forall|i: int| 0 <= i < d.len() implies d[i].2 >= s.last().2 by {
                assert(d[i] == s[i]);
            }
        }
        if bitrates_at_least(s, b) && x.2 >= b {
            assert(bitrates_at_least(d, b)) by {
                assert forall|i: int| 0 <= i < d.len() implies d[i].2 >= b by {
                    assert(d[i] == s[i]);
                }
            }
        }
        let r = insert_desc(d, x);
        assert forall|i: int, j: int| 0 <= i < j < r.push(s.last()).len() implies r.push(s.last())[i].2 >= r.push(s.last())[j].2 by {
            if j == r.len() {
                assert(r.push(s.last())[i] == r[i]);
            } else {
                assert(r.push(s.last())[i] == r[i] && r.push(s.last())[j] == r[j]);
            }
        }
    } else {
        assert forall|i: int, j: int| 0 <= i < j < s.push(x).len() implies s.push(x)[i].2 >= s.push(x)[j].2 by {
            if j == s.len() {
                assert(s[i].2 >= s.last().2);
            }
        }
    }
}

proof fn lemma_sort_desc(v: Seq<StreamView>)
    ensures
        sorted_by_bitrate(sort_desc(v)),
        sort_desc(v).len() == v.len(),
    decreases v.len(),
{
    if v.len() > 0 {
        lemma_sort_desc(v.drop_last());
        lemma_insert_desc(sort_desc(v.drop_last()), v.last(), 0);
    }
}

/// Both items carry a bitrate, the first at least the second's.
pub open spec fn bitrate_not_below(x: MediaItemView, y: MediaItemView) -> bool {
    x.5 matches Some(bx) && y.5 matches Some(by) && bx >= by
}

/// The items offered for a page's streams are at most four, and ordered by
/// bitrate, highest first.
pub proof fn stream_items_bounded_and_ordered(streams: Seq<StreamView>)
    ensures
        spec_items_for_streams(streams).len() <= 4,
        forall|i: int, j: int| 0 <= i < j < spec_items_for_streams(streams).len() ==>
            bitrate_not_below(#[trigger] spec_items_for_streams(streams)[i], #[trigger] spec_items_for_streams(streams)[j]),
{
    let muxed = of_type(streams, StreamType::Muxed);
    let video = of_type(streams, StreamType::VideoOnly);
    lemma_sort_desc(muxed);
    lemma_sort_desc(video);
    let items = spec_items_for_streams(streams);
    let a = best_audio_url(of_type(streams, StreamType::AudioOnly));
    assert forall|i: int, j: int| 0 <= i < j < items.len() implies bitrate_not_below(items[i], items[j]) by {
        if muxed.len() > 0 {
            let m = sort_desc(muxed).map_values(|s: StreamView| muxed_item(s));
            assert(items[i] == m[i] && items[j] == m[j]);
        } else {
            let m = sort_desc(video).map_values(|s: StreamView| dash_item(s, a));
            assert(items[i] == m[i] && items[j] == m[j]);
        }
    }
}

proof fn lemma_drop_last_contains(v: Seq<StreamView>, y: StreamView)
    requires
        v.len() > 0,
        v.contains(y),
    ensures
        v.drop_last().contains(y) || y == v.last(),
{
    let i = choose|i: int| 0 <= i < v.len() && v[i] == y;
    if i < v.len() - 1 {
        assert(v.drop_last()[i] == y);
    }
}

proof fn lemma_push_contains(v: Seq<StreamView>, x: StreamView, y: StreamView)
    requires
        v.push(x).contains(y),
    ensures
        v.contains(y) || y == x,
{
    let i = choose|i: int| 0 <= i < v.push(x).len() && v.push(x)[i] == y;
    if i < v.len() {
        assert(v[i] == y);
    }
}

/// The best stream is one of the streams, with a bitrate at least that of
/// every stream.
proof fn lemma_best_stream(v: Seq<StreamView>)
    ensures
        v.len() > 0 ==> best_stream(v) is Some,
        best_stream(v) matches Some(b) ==> v.contains(b) && forall|y: StreamView| #[trigger] v.contains(y) ==> b.2 >= y.2,
    decreases v.len(),
{
    if v.len() > 0 {
        let d = v.drop_last();
        lemma_best_stream(d);
        assert(v[v.len() - 1] == v.last());
        let b = best_stream(v)->Some_0;
        match best_stream(d) {
            None => {
                assert forall|y: StreamView| #[trigger] v.contains(y) implies b.2 >= y.2 by {
                    lemma_drop_last_contains(v, y);
                }
            },
            Some(bd) => {
                let i = choose|i: int| 0 <= i < d.len() && d[i] == bd;
                assert(v[i] == bd);
                assert forall|y: StreamView| #[trigger] v.contains(y) implies b.2 >= y.2 by {
                    lemma_drop_last_contains(v, y);
                }
            },
        }
    }
}

/// The streams of a type are the streams of that type.
proof fn lemma_of_type_members(v: Seq<StreamView>, t: StreamType)
    ensures
        forall|y: StreamView| #[trigger] of_type(v, t).contains(y) ==> v.contains(y) && y.1 == t,
        forall|y: StreamView| #[trigger] v.contains(y) && y.1 == t ==> of_type(v, t).contains(y),
    decreases v.len(),
{
    if v.len() > 0 {
        let d = v.drop_last();
        lemma_of_type_members(d, t);
        let r = of_type(d, t);
        assert(v[v.len() - 1] == v.last());
        assert forall|y: StreamView| #[trigger] of_type(v, t).contains(y) implies v.contains(y) && y.1 == t by {
            if v.last().1 == t {
                lemma_push_contains(r, v.last(), y);
            }
            if r.contains(y) {
                let i = choose|i: int| 0 <= i < d.len() && d[i] == y;
                assert(v[i] == y);
            }
        }
        assert forall|y: StreamView| #[trigger] v.contains(y) && y.1 == t implies of_type(v, t).contains(y) by {
            lemma_drop_last_contains(v, y);
            if v.last().1 == t {
                assert(r.push(v.last())[r.len() as int] == v.last());
                if r.contains(y) {
                    let i = choose|i: int| 0 <= i < r.len() && r[i] == y;
                    assert(r.push(v.last())[i] == y);
                }
            }
        }
    }
}

proof fn lemma_insert_desc_members(s: Seq<StreamView>, x: StreamView)
    ensures
        forall|y: StreamView| #[trigger] insert_desc(s, x).contains(y) ==> s.contains(y) || y == x,
        insert_desc(s, x).len() == s.len() + 1,
    decreases s.len(),
{
    if s.len() > 0 {
        let d = s.drop_last();
        lemma_insert_desc_members(d, x);
        assert(s[s.len() - 1] == s.last());
        assert forall|y: StreamView| #[trigger] insert_desc(s, x).contains(y) implies s.contains(y) || y == x by {
            if s.last().2 < x.2 {
                lemma_push_contains(insert_desc(d, x), s.last(), y);
                if d.contains(y) {
                    let i = choose|i: int| 0 <= i < d.len() && d[i] == y;
                    assert(s[i] == y);
                }
            } else {
                lemma_push_contains(s, x, y);
            }
        }
    } else {
        assert forall|y: StreamView| #[trigger] insert_desc(s, x).contains(y) implies s.contains(y) || y == x by {
            let i = choose|i: int| 0 <= i < insert_desc(s, x).len() && insert_desc(s, x)[i] == y;
        }
    }
}

proof fn lemma_sort_desc_members(v: Seq<StreamView>)
    ensures
        forall|y: StreamView| #[trigger] sort_desc(v).contains(y) ==> v.contains(y),
        sort_desc(v).len() == v.len(),
    decreases v.len(),
{
    if v.len() > 0 {
        let d = v.drop_last();
        lemma_sort_desc_members(d);
        lemma_insert_desc_members(sort_desc(d), v.last());
        assert(v[v.len() - 1] == v.last());
        assert forall|y: StreamView| #[trigger] sort_desc(v).contains(y) implies v.contains(y) by {
            if sort_desc(d).contains(y) {
                let i = choose|i: int| 0 <= i < d.len() && d[i] == y;
                assert(v[i] == y);
            }
        }
    }
}

/// The place among `streams` of the best audio stream.
proof fn best_audio_index(streams: Seq<StreamView>) -> (kk: int)
    requires
        exists|y: int| 0 <= y < streams.len() && streams[y].1 == StreamType::AudioOnly,
    ensures
        0 <= kk < streams.len(),
        streams[kk].1 == StreamType::AudioOnly,
        streams[kk].0 == best_audio_url(of_type(streams, StreamType::AudioOnly)),
        forall|m: int| 0 <= m < streams.len() && streams[m].1 == StreamType::AudioOnly
            ==> streams[kk].2 >= #[trigger] streams[m].2,
{
    let audio = of_type(streams, StreamType::AudioOnly);
    lemma_of_type_members(streams, StreamType::AudioOnly);
    let y0 = choose|y: int| 0 <= y < streams.len() && streams[y].1 == StreamType::AudioOnly;
    assert(streams.contains(streams[y0]));
    assert(audio.contains(streams[y0]));
    lemma_best_stream(audio);
    let b = best_stream(audio)->Some_0;
    assert(audio.contains(b));
    let kk = choose|kk: int| 0 <= kk < streams.len() && streams[kk] == b;
    assert forall|m: int| 0 <= m < streams.len() && streams[m].1 == StreamType::AudioOnly
        implies streams[kk].2 >= #[trigger] streams[m].2 by {
        assert(streams.contains(streams[m]));
        assert(audio.contains(streams[m]));
    }
    kk
}

/// The place among `streams` of the video stream of item `i`, where no
/// stream is muxed.
proof fn item_video_index(streams: Seq<StreamView>, i: int) -> (j: int)
    requires
        forall|y: int| 0 <= y < streams.len() ==> streams[y].1 != StreamType::Muxed,
        0 <= i < spec_items_for_streams(streams).len(),
    ensures
        0 <= j < streams.len(),
        streams[j].1 == StreamType::VideoOnly,
        spec_items_for_streams(streams)[i] == dash_item(streams[j],
            best_audio_url(of_type(streams, StreamType::AudioOnly))),
        best_audio_url(of_type(streams, StreamType::AudioOnly)).len() > 0 ==> spec_items_for_streams(streams)[i].1
            == "DASH_MERGE||"@ + streams[j].0 + "||"@ + best_audio_url(of_type(streams, StreamType::AudioOnly)),
{
    let muxed = of_type(streams, StreamType::Muxed);
    let video = of_type(streams, StreamType::VideoOnly);
    let audio = of_type(streams, StreamType::AudioOnly);
    lemma_of_type_members(streams, StreamType::Muxed);
    lemma_of_type_members(streams, StreamType::VideoOnly);
    assert(muxed.len() == 0) by {
        if muxed.len() > 0 {
            assert(muxed.contains(muxed[0]));
            let y = choose|y: int| 0 <= y < streams.len() && streams[y] == muxed[0];
        }
    }
    lemma_sort_desc_members(video);
    let sv = sort_desc(video);
    let a = best_audio_url(audio);
    let m = sv.map_values(|s: StreamView| dash_item(s, a));
    assert(video.len() > 0);
    assert(spec_items_for_streams(streams)[i] == m[i]);
    assert(sv.contains(sv[i]));
    assert(video.contains(sv[i]));
    let j = choose|j: int| 0 <= j < streams.len() && streams[j] == sv[i];
    j
}

/// Item `i` pairs the video stream at `jk.0` with the best audio stream,
/// at `jk.1`.
proof fn lemma_item_pairs_best_audio(streams: Seq<StreamView>, i: int) -> (jk: (int, int))
    requires
        forall|y: int| 0 <= y < streams.len() ==> streams[y].1 != StreamType::Muxed,
        exists|y: int| 0 <= y < streams.len() && streams[y].1 == StreamType::AudioOnly,
        0 <= i < spec_items_for_streams(streams).len(),
    ensures
        0 <= jk.0 < streams.len() && streams[jk.0].1 == StreamType::VideoOnly,
        0 <= jk.1 < streams.len() && streams[jk.1].1 == StreamType::AudioOnly,
        forall|m: int| 0 <= m < streams.len() && streams[m].1 == StreamType::AudioOnly
            ==> streams[jk.1].2 >= #[trigger] streams[m].2,
        streams[jk.1].0.len() > 0 ==> spec_items_for_streams(streams)[i].1
            == "DASH_MERGE||"@ + streams[jk.0].0 + "||"@ + streams[jk.1].0,
{
    let kk = best_audio_index(streams);
    let j = item_video_index(streams, i);
    (j, kk)
}

/// `url` pairs a video stream of `streams` with an audio stream of
/// `streams` whose bitrate is at least that of every audio stream there:
/// it is `DASH_MERGE||{video}||{audio}` (where the audio URL is not empty).
pub open spec fn pairs_best_audio(streams: Seq<StreamView>, url: Seq<char>) -> bool {
    exists|j: int, k: int| #![trigger streams[j].0, streams[k].0] {
        &&& 0 <= j < streams.len() && streams[j].1 == StreamType::VideoOnly
        &&& 0 <= k < streams.len() && streams[k].1 == StreamType::AudioOnly
        &&& (forall|m: int| 0 <= m < streams.len() && streams[m].1 == StreamType::AudioOnly
            ==> streams[k].2 >= #[trigger] streams[m].2)
        &&& (streams[k].0.len() > 0 ==> url == "DASH_MERGE||"@ + streams[j].0 + "||"@ + streams[k].0)
    }
}

/// Where a page offers no muxed stream but offers audio streams, every
/// item pairs one of its video streams with an audio stream whose bitrate
/// is at least that of every audio stream of the page: the item's URL is
/// `DASH_MERGE||{video}||{audio}` (where the audio URL is not empty).
pub proof fn dash_items_pair_best_audio(streams: Seq<StreamView>)
    requires
        forall|y: int| 0 <= y < streams.len() ==> streams[y].1 != StreamType::Muxed,
        exists|y: int| 0 <= y < streams.len() && streams[y].1 == StreamType::AudioOnly,
    ensures
        forall|i: int| 0 <= i < spec_items_for_streams(streams).len()
            ==> #[trigger] pairs_best_audio(streams, spec_items_for_streams(streams)[i].1),
{
    assert forall|i: int| 0 <= i < spec_items_for_streams(streams).len()
        implies #[trigger] pairs_best_audio(streams, spec_items_for_streams(streams)[i].1) by {
        let jk = lemma_item_pairs_best_audio(streams, i);
        assert(streams[jk.0].0 == streams[jk.0].0 && streams[jk.1].0 == streams[jk.1].0);
    }
}

} // verus!
