//! Download decisions: configuration, which failures are retried and how
//! long to wait, the DASH merge URL form, and the Referer each CDN wants.
//!
//! The application performs the transfers and file operations.

use vstd::prelude::*;
use crate::error::AppError;
use crate::page::chars_seq;
use crate::text::{chars_of, contains_lit, contains_seq, find_after, first_index, lemma_first_index, occurs_at, starts_with_seq, str_starts_with, string_of_range};

verus! {

/// Download configuration.
#[derive(Debug)]
pub struct DownloadConfig {
    pub url: String,
    pub save_path: String,
    pub max_retries: u32,
    pub initial_backoff_ms: u64,
    pub max_backoff_ms: u64,
    pub timeout_secs: u64,
}

impl Default for DownloadConfig {
    fn default() -> (r: Self)
        ensures
            r.url@ == Seq::<char>::empty(),
            r.save_path@ == Seq::<char>::empty(),
            r.max_retries == 3,
            r.initial_backoff_ms == 1000,
            r.max_backoff_ms == 30000,
            r.timeout_secs == 120,
    {
        DownloadConfig {
            url: String::new(),
            save_path: String::new(),
            max_retries: 3,
            initial_backoff_ms: 1000,
            max_backoff_ms: 30000,
            timeout_secs: 120,
        }
    }
}

/// Network and time-out failures are transient.
pub open spec fn spec_is_transient(err: AppError) -> bool {
    err is NetworkError || err is TimeoutError
}

/// Check if an error is transient and worth retrying.
pub fn is_transient_error(err: &AppError) -> (r: bool)
    ensures
        r == spec_is_transient(*err),
{
    match err {
        AppError::NetworkError { .. } => true,
        AppError::TimeoutError { .. } => true,
        _ => false,
    }
}

/// What to do after a failed download attempt.
#[derive(Debug)]
pub enum RetryDecision {
    /// Wait this many milliseconds, then try again.
    RetryAfter(u64),
    /// Give up with the error.
    GiveUp,
}

/// The retry state of a download.
#[derive(Debug)]
pub struct DownloadRetry {
    /// Retries made so far.
    pub retries: u32,
    /// The wait before the next retry, in milliseconds.
    pub backoff_ms: u64,
}

/// Backoffs that can be doubled without overflow.
pub open spec fn retry_wf(r: DownloadRetry, max_backoff: u64) -> bool {
    r.backoff_ms <= u64::MAX / 2 && max_backoff <= u64::MAX / 2
}

impl DownloadRetry {
    /// The retry state before the first attempt.
    pub fn new(config: &DownloadConfig) -> (r: Self)
        requires
            config.initial_backoff_ms <= u64::MAX / 2,
            config.max_backoff_ms <= u64::MAX / 2,
        ensures
            r.retries == 0,
            r.backoff_ms == config.initial_backoff_ms,
            retry_wf(r, config.max_backoff_ms),
    {
        DownloadRetry { retries: 0, backoff_ms: config.initial_backoff_ms }
    }

    /// Decide after a failed attempt: transient failures are retried up to
    /// `max_retries` times, each wait doubling the last up to
    /// `max_backoff_ms`; other failures give up at once.
    pub fn on_failure(&mut self, err: &AppError, max_retries: u32, max_backoff_ms: u64) -> (r: RetryDecision)
        requires
            retry_wf(*old(self), max_backoff_ms),
        ensures
            retry_wf(*final(self), max_backoff_ms),
            spec_is_transient(*err) && old(self).retries < max_retries ==> {
                &&& r matches RetryDecision::RetryAfter(ms) && ms == old(self).backoff_ms
                &&& final(self).retries == old(self).retries + 1
                &&& final(self).backoff_ms == if 2 * old(self).backoff_ms <= max_backoff_ms {
                    2 * old(self).backoff_ms
                } else {
                    max_backoff_ms as int
                }
            },
            !(spec_is_transient(*err) && old(self).retries < max_retries) ==> {
                &&& r matches RetryDecision::GiveUp
                &&& *final(self) == *old(self)
            },
    {
        if is_transient_error(err) && self.retries < max_retries {
            let wait = self.backoff_ms;
            self.retries = self.retries + 1;
            let doubled = self.backoff_ms * 2;
            self.backoff_ms = if doubled <= max_backoff_ms { doubled } else { max_backoff_ms };
            RetryDecision::RetryAfter(wait)
        } else {
            RetryDecision::GiveUp
        }
    }
}

/// The prefix that marks a URL pair to download and merge.
pub open spec fn is_dash_merge_spec(url: Seq<char>) -> bool {
    starts_with_seq(url, "DASH_MERGE||"@)
}

/// Whether the URL names separate video and audio streams to merge.
pub fn is_dash_merge_url(url: &str) -> (r: bool)
    ensures
        r == is_dash_merge_spec(url@),
{
    str_starts_with(url, "DASH_MERGE||")
}

/// `s` split at each occurrence of `sep`, left to right (`str::split` with
/// a non-empty string pattern).
pub open spec fn split_on(s: Seq<char>, sep: Seq<char>) -> Seq<Seq<char>>
    decreases s.len(),
{
    if sep.len() > 0 && contains_seq(s, sep) && 0 <= first_index(s, sep) && first_index(s, sep) + sep.len() <= s.len() {
        seq![s.take(first_index(s, sep))] + split_on(s.skip(first_index(s, sep) + sep.len()), sep)
    } else {
        seq![s]
    }
}

/// `str::split` with a non-empty string pattern.
pub fn split_str(s: &str, sep: &str) -> (r: Vec<String>)
    requires
        sep@.len() > 0,
    ensures
        chars_seq(r@) == split_on(s@, sep@),
{
    let c = chars_of(s);
    let p = chars_of(sep);
    let n = c.len();
    let mut out: Vec<String> = Vec::new();
    let mut lo: usize = 0;
    assert(c@.skip(0) =~= c@);
    assert(chars_seq(out@) + split_on(c@.skip(0), p@) =~= split_on(s@, sep@));
    loop
        invariant
            lo <= n == c@.len(),
            p@ == sep@,
            p@.len() > 0,
            chars_seq(out@) + split_on(c@.skip(lo as int), p@) == split_on(s@, sep@),
        decreases n - lo,
    {
        let ghost rest = c@.skip(lo as int);
        match find_after(c.as_slice(), p.as_slice(), lo) {
            Some(j) => {
                let piece = string_of_range(c.as_slice(), lo, j);
                assert(rest.take(j - lo) =~= c@.subrange(lo as int, j as int));
                assert(rest.skip(j - lo + p@.len()) =~= c@.skip(j + p@.len()));
                let ghost before = out@;
                out.push(piece);
                assert(chars_seq(out@) =~= chars_seq(before).push(piece@));
                assert(chars_seq(out@) + split_on(c@.skip(j + p@.len()), p@)
                    =~= chars_seq(before) + (seq![rest.take(j - lo)] + split_on(rest.skip(j - lo + p@.len()), p@)));
                lo = j + p.len();
            },
            None => {
                let piece = string_of_range(c.as_slice(), lo, n);
                assert(rest =~= c@.subrange(lo as int, n as int));
                let ghost before = out@;
                out.push(piece);
                assert(chars_seq(out@) =~= chars_seq(before).push(piece@));
                assert(chars_seq(out@) =~= chars_seq(before) + seq![rest]);
                return out;
            },
        }
    }
}

/// The video and audio URLs of a `DASH_MERGE||video||audio` URL: exactly
/// three parts between `||`.
pub open spec fn spec_dash_parts(url: Seq<char>) -> Option<(Seq<char>, Seq<char>)> {
    let parts = split_on(url, "||"@);
    if parts.len() == 3 { Some((parts[1], parts[2])) } else { None }
}

/// Parse a `DASH_MERGE||{video_url}||{audio_url}` URL into its video and
/// audio URLs.
pub fn parse_dash_merge(url: &str) -> (r: Result<(String, String), AppError>)
    ensures
        match spec_dash_parts(url@) {
            Some(p) => r matches Ok(v) && v.0@ == p.0 && v.1@ == p.1,
            None => r matches Err(AppError::InvalidInput { message }) && message@ == "Invalid DASH_MERGE URL format"@,
        },
{
    proof {
        reveal_strlit("||");
    }
    let parts = split_str(url, "||");
    if parts.len() != 3 {
        return Err(AppError::InvalidInput { message: "Invalid DASH_MERGE URL format".to_owned() });
    }
    Ok((parts[1].clone(), parts[2].clone()))
}

/// The Referer a CDN wants: Xiaohongshu's for its CDN and pages, Douyin's
/// for its.
pub open spec fn spec_referer(url: Seq<char>) -> Option<Seq<char>> {
    if contains_seq(url, "xhscdn.com"@) || contains_seq(url, "xiaohongshu.com"@) {
        Some("https://www.xiaohongshu.com/"@)
    } else if contains_seq(url, "douyinvod.com"@) || contains_seq(url, "douyin.com"@) {
        Some("https://www.douyin.com/"@)
    } else {
        None
    }
}

/// The Referer header to send for a download URL.
pub fn referer_for(url: &str) -> (r: Option<&'static str>)
    ensures
        match r {
            Some(x) => spec_referer(url@) == Some(x@),
            None => spec_referer(url@) is None,
        },
{
    let c = chars_of(url);
    if contains_lit(c.as_slice(), "xhscdn.com") || contains_lit(c.as_slice(), "xiaohongshu.com") {
        Some("https://www.xiaohongshu.com/")
    } else if contains_lit(c.as_slice(), "douyinvod.com") || contains_lit(c.as_slice(), "douyin.com") {
        Some("https://www.douyin.com/")
    } else {
        None
    }
}

/// A video URL and an audio URL written in the merge form read back as the
/// same two URLs, unless the video URL holds `||` or ends with `|`, or the
/// audio URL holds `||`.
pub proof fn dash_merge_roundtrip(v: Seq<char>, a: Seq<char>)
    requires
        !contains_seq(v, "||"@),
        !(v.len() > 0 && v.last() == '|'),
        !contains_seq(a, "||"@),
    ensures
        spec_dash_parts("DASH_MERGE||"@ + v + "||"@ + a) == Some((v, a)),
{
    reveal_strlit("DASH_MERGE||");
    reveal_strlit("||");
    let sep = "||"@;
    let s = "DASH_MERGE||"@ + v + "||"@ + a;
    let r1 = v + "||"@ + a;
    assert(s.subrange(10, 12) =~= sep);
    assert(occurs_at(s, sep, 10));
    assert forall|j: int| 0 <= j < 10 implies !occurs_at(s, sep, j) by {
        assert(s.subrange(j, j + 2)[0] == s[j]);
    }
    lemma_first_index(s, sep, 10);
    assert(s.skip(12) =~= r1);
    assert(r1.subrange(v.len() as int, v.len() + 2int) =~= sep);
    assert(occurs_at(r1, sep, v.len() as int));
    assert forall|j: int| 0 <= j < v.len() implies !occurs_at(r1, sep, j) by {
        if occurs_at(r1, sep, j) {
            assert(r1.subrange(j, j + 2)[0] == r1[j]);
            assert(r1.subrange(j, j + 2)[1] == r1[j + 1]);
            if j + 1 < v.len() {
                assert(v.subrange(j, j + 2) =~= sep);
                assert(occurs_at(v, sep, j));
            } else {
                assert(v.last() == r1[j]);
            }
        }
    }
    lemma_first_index(r1, sep, v.len() as int);
    assert(r1.take(v.len() as int) =~= v);
    assert(r1.skip(v.len() + 2int) =~= a);
    assert(s.take(10) =~= "DASH_MERGE||"@.take(10));
    assert(split_on(a, sep) == seq![a]);
    assert(split_on(r1, sep) == seq![v] + seq![a]);
    assert(split_on(s, sep) == seq![s.take(10)] + (seq![v] + seq![a]));
}

} // verus!
