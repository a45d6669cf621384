//! URL normalization: percent-decoding, removal of tracking parameters,
//! and the decisions of short-link redirect resolution.
//!
//! Requests go out from the application; this module decides what to ask
//! for and what to make of each reply.

use vstd::prelude::*;
use crate::error::AppError;
use crate::parser::common::NormalizedUrl;
use crate::text::{concat_str, ends_with_seq, starts_with_seq, str_eq, str_starts_with, trim, trim_ws, chars_of, matches_at};
use crate::web::{
    join_url, opt_chars, pairs_view, parse_url, percent_decode_utf8, percent_decoded, query_pairs_of, set_url_query,
    url_join, url_parse, url_query_pairs, url_view, url_with_query, UrlParts, UrlView,
};
use vstd::utf8::{decode_utf8, valid_utf8};

verus! {

/// Maximum number of HTTP redirects to follow for short links.
pub const MAX_REDIRECTS: usize = 5;

/// HTTP timeout for redirect resolution requests, in seconds.
pub const REDIRECT_TIMEOUT_SECS: u64 = 15;

/// Known tracking parameters, stripped from URLs.
pub open spec fn is_tracking_param(k: Seq<char>) -> bool {
    k == "utm_source"@ || k == "utm_medium"@ || k == "utm_campaign"@ || k == "utm_term"@
        || k == "utm_content"@ || k == "share_token"@ || k == "share_from"@ || k == "share_app_id"@
        || k == "app_platform"@ || k == "timestamp"@ || k == "xhsshare"@ || k == "appuid"@
        || k == "apptime"@ || k == "share_id"@ || k == "shareRedId"@ || k == "share_source"@
        || k == "sec_uid"@ || k == "enter_from"@ || k == "enter_method"@
}

/// Whether `key` is a known tracking parameter.
pub fn is_tracking_param_key(key: &str) -> (r: bool)
    ensures
        r == is_tracking_param(key@),
{
    str_eq(key, "utm_source") || str_eq(key, "utm_medium") || str_eq(key, "utm_campaign")
        || str_eq(key, "utm_term") || str_eq(key, "utm_content") || str_eq(key, "share_token")
        || str_eq(key, "share_from") || str_eq(key, "share_app_id") || str_eq(key, "app_platform")
        || str_eq(key, "timestamp") || str_eq(key, "xhsshare") || str_eq(key, "appuid")
        || str_eq(key, "apptime") || str_eq(key, "share_id") || str_eq(key, "shareRedId")
        || str_eq(key, "share_source") || str_eq(key, "sec_uid") || str_eq(key, "enter_from")
        || str_eq(key, "enter_method")
}

/// The hosts that are known safe redirect targets.
pub open spec fn is_whitelisted_host_spec(host: Seq<char>) -> bool {
    let hosts = seq!["douyin.com"@, "www.douyin.com"@, "v.douyin.com"@, "iesdouyin.com"@,
        "www.iesdouyin.com"@, "xiaohongshu.com"@, "www.xiaohongshu.com"@, "xhslink.com"@];
    exists|i: int| 0 <= i < hosts.len() && (host == hosts[i] || ends_with_seq(host, "."@ + hosts[i]))
}

fn host_matches(host: &str, h: &str) -> (r: bool)
    ensures
        r == (host@ == h@ || ends_with_seq(host@, "."@ + h@)),
{
    if str_eq(host, h) {
        return true;
    }
    let dotted = concat_str(".", h);
    let hv = chars_of(host);
    let dv = chars_of(dotted.as_str());
    if dv.len() > hv.len() {
        return false;
    }
    matches_at(hv.as_slice(), dv.as_slice(), hv.len() - dv.len())
}

/// Whether `host` is a whitelisted host or a subdomain of one.
pub fn is_whitelisted_host(host: &str) -> (r: bool)
    ensures
        r == is_whitelisted_host_spec(host@),
{
    let ghost hosts = seq!["douyin.com"@, "www.douyin.com"@, "v.douyin.com"@, "iesdouyin.com"@,
        "www.iesdouyin.com"@, "xiaohongshu.com"@, "www.xiaohongshu.com"@, "xhslink.com"@];
    let m0 = host_matches(host, "douyin.com");
    let m1 = host_matches(host, "www.douyin.com");
    let m2 = host_matches(host, "v.douyin.com");
    let m3 = host_matches(host, "iesdouyin.com");
    let m4 = host_matches(host, "www.iesdouyin.com");
    let m5 = host_matches(host, "xiaohongshu.com");
    let m6 = host_matches(host, "www.xiaohongshu.com");
    let m7 = host_matches(host, "xhslink.com");
    let r = m0 || m1 || m2 || m3 || m4 || m5 || m6 || m7;
    proof {
        if r {
            if m0 { assert(hosts[0] == "douyin.com"@); }
            if m1 { assert(hosts[1] == "www.douyin.com"@); }
            if m2 { assert(hosts[2] == "v.douyin.com"@); }
            if m3 { assert(hosts[3] == "iesdouyin.com"@); }
            if m4 { assert(hosts[4] == "www.iesdouyin.com"@); }
            if m5 { assert(hosts[5] == "xiaohongshu.com"@); }
            if m6 { assert(hosts[6] == "www.xiaohongshu.com"@); }
            if m7 { assert(hosts[7] == "xhslink.com"@); }
        } else {
            assert forall|i: int| 0 <= i < hosts.len() implies !(host@ == hosts[i] || ends_with_seq(host@, "."@ + hosts[i])) by {
                if i == 0 {} else if i == 1 {} else if i == 2 {} else if i == 3 {}
                else if i == 4 {} else if i == 5 {} else if i == 6 {} else {}
            }
        }
    }
    r
}

/// The short-link hosts whose links are resolved by following redirects.
pub open spec fn is_short_link_host_spec(host: Seq<char>) -> bool {
    host == "v.douyin.com"@ || host == "xhslink.com"@
}

/// Whether `host` is a known short-link host that needs redirect
/// resolution.
pub fn is_short_link_host(host: &str) -> (r: bool)
    ensures
        r == is_short_link_host_spec(host@),
{
    str_eq(host, "v.douyin.com") || str_eq(host, "xhslink.com")
}

/// The query pairs that are not tracking parameters, in order.
pub open spec fn kept_pairs(pairs: Seq<(Seq<char>, Seq<char>)>) -> Seq<(Seq<char>, Seq<char>)>
    decreases pairs.len(),
{
    if pairs.len() == 0 {
        Seq::empty()
    } else {
        let r = kept_pairs(pairs.drop_last());
        if is_tracking_param(pairs.last().0) { r } else { r.push(pairs.last()) }
    }
}

/// A pair written back: `key` alone when the value is empty, else
/// `key=value`.
pub open spec fn pair_text(p: (Seq<char>, Seq<char>)) -> Seq<char> {
    if p.1.len() == 0 { p.0 } else { p.0 + "="@ + p.1 }
}

/// The pairs written back, joined by `&`.
pub open spec fn join_pairs(pairs: Seq<(Seq<char>, Seq<char>)>) -> Seq<char>
    decreases pairs.len(),
{
    if pairs.len() == 0 {
        Seq::empty()
    } else if pairs.len() == 1 {
        pair_text(pairs[0])
    } else {
        join_pairs(pairs.drop_last()) + "&"@ + pair_text(pairs.last())
    }
}

/// The query that remains once tracking parameters are removed: none when
/// no pair remains.
pub open spec fn stripped_query(pairs: Seq<(Seq<char>, Seq<char>)>) -> Option<Seq<char>> {
    let k = kept_pairs(pairs);
    if k.len() == 0 { None } else { Some(join_pairs(k)) }
}

/// The URL that `input` parses to, with its tracking parameters removed.
pub open spec fn spec_strip_tracking(input: Seq<char>) -> UrlView {
    url_with_query(input, stripped_query(url_query_pairs(input)))
}

fn pair_text_exec(k: &String, v: &String) -> (r: String)
    ensures
        r@ == pair_text((k@, v@)),
{
    if v.as_str().is_empty() {
        k.clone()
    } else {
        let a = concat_str(k.as_str(), "=");
        concat_str(a.as_str(), v.as_str())
    }
}

/// The query left once tracking parameters are removed from `pairs`.
pub fn strip_query(pairs: &Vec<(String, String)>) -> (r: Option<String>)
    ensures
        opt_chars(r) == stripped_query(pairs_view(pairs@)),
{
    let ghost pv = pairs_view(pairs@);
    let mut kept: Vec<(String, String)> = Vec::new();
    let mut i: usize = 0;
    assert(pv.take(0) =~= Seq::<(Seq<char>, Seq<char>)>::empty());
    assert(pairs_view(kept@) =~= Seq::<(Seq<char>, Seq<char>)>::empty());
    while i < pairs.len()
        invariant
            i <= pairs@.len(),
            pv == pairs_view(pairs@),
            pairs_view(kept@) == kept_pairs(pv.take(i as int)),
        decreases pairs@.len() - i,
    {
        assert(pv.take(i + 1).drop_last() =~= pv.take(i as int));
        assert(pv.take(i + 1).last() == pv[i as int]);
        if !is_tracking_param_key(pairs[i].0.as_str()) {
            let p = (pairs[i].0.clone(), pairs[i].1.clone());
            let ghost before = kept@;
            kept.push(p);
            assert(pairs_view(kept@) =~= pairs_view(before).push((p.0@, p.1@)));
        }
        i += 1;
    }
    assert(pv.take(pairs@.len() as int) =~= pv);
    let ghost kv = pairs_view(kept@);
    if kept.len() == 0 {
        return None;
    }
    let mut q = pair_text_exec(&kept[0].0, &kept[0].1);
    let mut j: usize = 1;
    assert(kv.take(1).drop_last() =~= Seq::<(Seq<char>, Seq<char>)>::empty());
    while j < kept.len()
        invariant
            1 <= j <= kept@.len(),
            kv == pairs_view(kept@),
            q@ == join_pairs(kv.take(j as int)),
        decreases kept@.len() - j,
    {
        assert(kv.take(j + 1).drop_last() =~= kv.take(j as int));
        assert(kv.take(j + 1).last() == kv[j as int]);
        let t = pair_text_exec(&kept[j].0, &kept[j].1);
        let a = concat_str(q.as_str(), "&");
        q = concat_str(a.as_str(), t.as_str());
        j += 1;
    }
    assert(kv.take(kept@.len() as int) =~= kv);
    Some(q)
}

/// `input` parsed, with its tracking parameters removed; `None` where it
/// does not parse.
pub fn strip_tracking(input: &str) -> (r: Option<UrlParts>)
    ensures
        r is Some <==> url_parse(input@) is Ok,
        r is Some ==> url_view(r.unwrap()) == spec_strip_tracking(input@),
{
    let pairs = match query_pairs_of(input) {
        Some(p) => p,
        None => return None,
    };
    let q = strip_query(&pairs);
    match q {
        Some(qs) => set_url_query(input, Some(qs.as_str())),
        None => set_url_query(input, None),
    }
}

/// The host, or nothing.
pub open spec fn host_or_empty(h: Option<Seq<char>>) -> Seq<char> {
    match h {
        Some(x) => x,
        None => Seq::empty(),
    }
}

/// The plain values of a normalized URL: original, canonical, host, path.
pub open spec fn normalized_view(n: NormalizedUrl) -> (Seq<char>, Seq<char>, Seq<char>, Seq<char>) {
    (n.original@, n.canonical@, n.host@, n.path@)
}

/// Describe the canonical URL of `original`: its host and path as the
/// canonical URL parses.
pub fn finish_normalize(original: &str, canonical: &str) -> (r: Result<NormalizedUrl, AppError>)
    ensures
        match url_parse(canonical@) {
            Err(e) => r matches Err(AppError::InvalidInput { message }) && message@ == "Invalid canonical URL: "@ + e,
            Ok(v) => r matches Ok(n) && normalized_view(n) == (original@, canonical@, host_or_empty(v.2), v.3),
        },
{
    match parse_url(canonical) {
        Err(e) => Err(AppError::InvalidInput { message: concat_str("Invalid canonical URL: ", e.as_str()) }),
        Ok(parts) => {
            let host = match parts.host {
                Some(h) => h,
                None => String::new(),
            };
            Ok(NormalizedUrl { original: original.to_owned(), canonical: canonical.to_owned(), host, path: parts.path })
        },
    }
}

/// An optional string slice as an optional character sequence.
pub open spec fn opt_str_view(o: Option<&str>) -> Option<Seq<char>> {
    match o {
        Some(x) => Some(x@),
        None => None,
    }
}

/// What normalization asks for next.
#[derive(Debug)]
pub enum NormalizeStep {
    /// The URL is normalized.
    Done(NormalizedUrl),
    /// The URL is a short link: follow its redirects from this URL, then
    /// finish with what they end at.
    ResolveRedirects(String),
}

/// The input, trimmed and percent-decoded, where it decodes to UTF-8.
pub open spec fn spec_decoded_input(input: Seq<char>) -> Option<Seq<char>> {
    let t = percent_decoded(trim_ws(input));
    if valid_utf8(t) { Some(decode_utf8(t)) } else { None }
}

/// A URL scheme that the library fetches.
pub open spec fn is_http_scheme(s: Seq<char>) -> bool {
    s == "http"@ || s == "https"@
}

/// A canonical URL: free of surrounding whitespace, it parses with an
/// HTTP(S) scheme, removing its tracking parameters gives it back
/// unchanged, and its host is no short-link host. Normalization hands such
/// a URL back as it is, without decoding it again.
pub open spec fn is_canonical_url(s: Seq<char>) -> bool {
    &&& trim_ws(s) == s
    &&& url_parse(s) matches Ok(v) && is_http_scheme(v.1)
    &&& spec_strip_tracking(s).0 == s
    &&& !is_short_link_host_spec(host_or_empty(spec_strip_tracking(s).2))
}

/// The canonical URL that normalization yields without following
/// redirects, where it yields one: the trimmed input itself where that is
/// canonical; otherwise the trimmed input percent-decoded, parsed, required
/// to be HTTP(S), and stripped of tracking parameters, unless its host is a
/// short-link host.
pub open spec fn spec_normalized_canonical(input: Seq<char>) -> Option<Seq<char>> {
    let t = trim_ws(input);
    if is_canonical_url(t) {
        Some(t)
    } else {
        match spec_decoded_input(input) {
            None => None,
            Some(d) => match url_parse(d) {
                Err(_) => None,
                Ok(v) => if !is_http_scheme(v.1) {
                    None
                } else {
                    let w = spec_strip_tracking(d);
                    if is_short_link_host_spec(host_or_empty(w.2)) {
                        None
                    } else {
                        match url_parse(w.0) {
                            Err(_) => None,
                            Ok(_) => Some(w.0),
                        }
                    }
                },
            },
        }
    }
}

/// Whether `t` is a canonical URL.
fn is_canonical(t: &str) -> (r: bool)
    ensures
        r == is_canonical_url(t@),
{
    let parsed = match parse_url(t) {
        Ok(p) => p,
        Err(_) => return false,
    };
    if !str_eq(parsed.scheme.as_str(), "http") && !str_eq(parsed.scheme.as_str(), "https") {
        return false;
    }
    let tt = trim(t);
    if !str_eq(tt.as_str(), t) {
        return false;
    }
    let stripped = match strip_tracking(t) {
        Some(x) => x,
        None => return false,
    };
    if !str_eq(stripped.href.as_str(), t) {
        return false;
    }
    let host_str = match &stripped.host {
        Some(h) => h.clone(),
        None => String::new(),
    };
    assert(host_str@ =~= host_or_empty(opt_chars(stripped.host)));
    !is_short_link_host(host_str.as_str())
}

/// Normalize a URL up to redirect resolution. A canonical URL (after
/// trimming) is done as it is. Otherwise: trim, percent-decode, parse,
/// require an HTTP(S) scheme, and strip tracking parameters; a short link
/// comes back to be resolved by following its redirects, and any other URL
/// is normalized.
pub fn normalize_start(input: &str) -> (r: Result<NormalizeStep, AppError>)
    ensures
        is_canonical_url(trim_ws(input@)) ==> (url_parse(trim_ws(input@)) matches Ok(v)
            && r matches Ok(NormalizeStep::Done(n))
            && normalized_view(n) == (input@, trim_ws(input@), host_or_empty(v.2), v.3)),
        !is_canonical_url(trim_ws(input@)) ==> match spec_decoded_input(input@) {
            None => r matches Err(AppError::InvalidInput { message })
                && message@ == "URL contains invalid UTF-8 after decoding"@,
            Some(d) => match url_parse(d) {
                Err(e) => r matches Err(AppError::InvalidInput { message }) && message@ == "Invalid URL: "@ + e,
                Ok(v) => if !is_http_scheme(v.1) {
                    r matches Err(AppError::UnsafeRedirect { message }) && message@ == "Unsupported scheme: "@ + v.1
                } else {
                    let w = spec_strip_tracking(d);
                    if is_short_link_host_spec(host_or_empty(w.2)) {
                        r matches Ok(NormalizeStep::ResolveRedirects(u)) && u@ == w.0
                    } else {
                        match url_parse(w.0) {
                            Err(e) => r matches Err(AppError::InvalidInput { message })
                                && message@ == "Invalid canonical URL: "@ + e,
                            Ok(c) => r matches Ok(NormalizeStep::Done(n))
                                && normalized_view(n) == (input@, w.0, host_or_empty(c.2), c.3),
                        }
                    }
                },
            },
        },
        match spec_normalized_canonical(input@) {
            Some(c) => r matches Ok(NormalizeStep::Done(n)) && n.canonical@ == c,
            None => !(r matches Ok(NormalizeStep::Done(_))),
        },
{
    let trimmed = trim(input);
    if is_canonical(trimmed.as_str()) {
        return match finish_normalize(input, trimmed.as_str()) {
            Ok(n) => Ok(NormalizeStep::Done(n)),
            Err(e) => Err(e),
        };
    }
    let decoded = match percent_decode_utf8(trimmed.as_str()) {
        Some(d) => d,
        None => {
            return Err(AppError::InvalidInput { message: "URL contains invalid UTF-8 after decoding".to_owned() });
        },
    };
    let parsed = match parse_url(decoded.as_str()) {
        Ok(p) => p,
        Err(e) => {
            return Err(AppError::InvalidInput { message: concat_str("Invalid URL: ", e.as_str()) });
        },
    };
    if !str_eq(parsed.scheme.as_str(), "http") && !str_eq(parsed.scheme.as_str(), "https") {
        return Err(AppError::UnsafeRedirect { message: concat_str("Unsupported scheme: ", parsed.scheme.as_str()) });
    }
    let stripped = match strip_tracking(decoded.as_str()) {
        Some(s) => s,
        None => {
            return Err(AppError::InvalidInput { message: "Invalid URL".to_owned() });
        },
    };
    let host_str = match &stripped.host {
        Some(h) => h.clone(),
        None => String::new(),
    };
    assert(host_str@ =~= host_or_empty(opt_chars(stripped.host)));
    let short = is_short_link_host(host_str.as_str());
    if short {
        return Ok(NormalizeStep::ResolveRedirects(stripped.href));
    }
    match finish_normalize(input, stripped.href.as_str()) {
        Ok(n) => Ok(NormalizeStep::Done(n)),
        Err(e) => Err(e),
    }
}

/// A canonical URL normalizes to itself.
pub proof fn canonical_url_normalizes_to_itself(c: Seq<char>)
    requires
        is_canonical_url(c),
    ensures
        spec_normalized_canonical(c) == Some(c),
{
}

/// Normalization is idempotent on what it yields: where the canonical URL
/// that normalizing `input` yields is itself canonical, normalizing that URL
/// yields it again. The URLs that normalization keeps as they are meet this
/// at once; for the others, it holds where the `url` crate reads its own
/// serialization back unchanged, which the contracts of its wrappers leave
/// unsaid.
pub proof fn normalize_is_idempotent(input: Seq<char>)
    requires
        spec_normalized_canonical(input) matches Some(c) && is_canonical_url(c),
    ensures
        spec_normalized_canonical(spec_normalized_canonical(input).unwrap()) == spec_normalized_canonical(input),
{
}

/// A URL that normalization keeps as it is stays canonical, and normalizes
/// to itself again.
pub proof fn kept_canonical_is_fixed_point(input: Seq<char>)
    requires
        is_canonical_url(trim_ws(input)),
    ensures
        spec_normalized_canonical(input) == Some(trim_ws(input)),
        spec_normalized_canonical(trim_ws(input)) == Some(trim_ws(input)),
{
}

/// What a redirect reply leads to.
#[derive(Debug)]
pub enum RedirectStep {
    /// Request this URL next.
    Follow(String),
    /// The chain ends at this URL.
    Finished(String),
}

/// Where a `Location` header leads from `current`: absolute HTTP(S)
/// locations as they are, others resolved against `current`.
pub open spec fn spec_redirect_target(current: Seq<char>, location: Seq<char>) -> Option<Seq<char>> {
    if starts_with_seq(location, "http://"@) || starts_with_seq(location, "https://"@) {
        Some(location)
    } else {
        url_join(current, location)
    }
}

/// What a reply leads to while following redirects.
pub enum RedirectOutcome {
    /// No redirection: the chain ends.
    Finished,
    /// Follow the redirection to this URL.
    Follow(Seq<char>),
    /// A redirection without a `Location` header.
    NoLocation,
    /// A relative location, and the current URL does not parse.
    BadBase,
    /// A relative location that does not resolve.
    BadRelative,
    /// The target does not parse.
    BadTarget(Seq<char>),
    /// The target's scheme is not HTTP(S).
    BadScheme(Seq<char>),
}

/// What a reply leads to from `current`: a reply that is no redirection
/// ends the chain; a redirection must name its target, which must resolve,
/// parse, and use an HTTP(S) scheme.
pub open spec fn spec_redirect_outcome(current: Seq<char>, is_redirection: bool, location: Option<Seq<char>>) -> RedirectOutcome {
    if !is_redirection {
        RedirectOutcome::Finished
    } else {
        match location {
            None => RedirectOutcome::NoLocation,
            Some(loc) => {
                let absolute = starts_with_seq(loc, "http://"@) || starts_with_seq(loc, "https://"@);
                if !absolute && url_parse(current) is Err {
                    RedirectOutcome::BadBase
                } else {
                    match spec_redirect_target(current, loc) {
                        None => RedirectOutcome::BadRelative,
                        Some(next) => match url_parse(next) {
                            Err(_) => RedirectOutcome::BadTarget(next),
                            Ok(v) => if is_http_scheme(v.1) {
                                RedirectOutcome::Follow(next)
                            } else {
                                RedirectOutcome::BadScheme(v.1)
                            },
                        },
                    }
                }
            },
        }
    }
}

/// The error that a failed outcome is reported as.
pub open spec fn is_redirect_error(o: RedirectOutcome, e: AppError) -> bool {
    match o {
        RedirectOutcome::NoLocation => e matches AppError::NetworkError { message }
            && message@ == "Redirect without Location header"@,
        RedirectOutcome::BadBase => e matches AppError::InvalidInput { message }
            && message@ == "Invalid base URL for relative redirect"@,
        RedirectOutcome::BadRelative => e matches AppError::InvalidInput { message }
            && message@ == "Invalid relative redirect URL"@,
        RedirectOutcome::BadTarget(t) => e matches AppError::UnsafeRedirect { message }
            && message@ == "Invalid redirect target: "@ + t,
        RedirectOutcome::BadScheme(sc) => e matches AppError::UnsafeRedirect { message }
            && message@ == "Redirect to non-HTTP(S) scheme: "@ + sc,
        _ => false,
    }
}

/// Decide on a reply while following redirects from `current`: a reply
/// that is no redirection ends the chain; a redirection must name its
/// target, which must resolve, parse, and use an HTTP(S) scheme.
pub fn next_redirect(current: &str, is_redirection: bool, location: Option<&str>) -> (r: Result<RedirectStep, AppError>)
    ensures
        match spec_redirect_outcome(current@, is_redirection, opt_str_view(location)) {
            RedirectOutcome::Finished => r matches Ok(RedirectStep::Finished(u)) && u@ == current@,
            RedirectOutcome::Follow(next) => r matches Ok(RedirectStep::Follow(u)) && u@ == next,
            o => r matches Err(e) && is_redirect_error(o, e),
        },
{
    if !is_redirection {
        return Ok(RedirectStep::Finished(current.to_owned()));
    }
    let loc = match location {
        Some(l) => l,
        None => {
            return Err(AppError::NetworkError { message: "Redirect without Location header".to_owned() });
        },
    };
    let next_url = if str_starts_with(loc, "http://") || str_starts_with(loc, "https://") {
        loc.to_owned()
    } else {
        match parse_url(current) {
            Err(_) => {
                return Err(AppError::InvalidInput { message: "Invalid base URL for relative redirect".to_owned() });
            },
            Ok(_) => {},
        }
        match join_url(current, loc) {
            Some(u) => u,
            None => {
                return Err(AppError::InvalidInput { message: "Invalid relative redirect URL".to_owned() });
            },
        }
    };
    let next = match parse_url(next_url.as_str()) {
        Ok(p) => p,
        Err(_) => {
            return Err(AppError::UnsafeRedirect { message: concat_str("Invalid redirect target: ", next_url.as_str()) });
        },
    };
    if !str_eq(next.scheme.as_str(), "http") && !str_eq(next.scheme.as_str(), "https") {
        return Err(AppError::UnsafeRedirect {
            message: concat_str("Redirect to non-HTTP(S) scheme: ", next.scheme.as_str()),
        });
    }
    // Redirects through hosts off the whitelist are followed too: platforms
    // redirect through CDN domains.
    let _known = match &next.host {
        Some(h) => is_whitelisted_host(h.as_str()),
        None => is_whitelisted_host(""),
    };
    Ok(RedirectStep::Follow(next_url))
}

/// The canonical URL that a redirect chain ending at `final_url` gives:
/// it parsed, with its tracking parameters removed.
pub fn finish_redirects(final_url: &str) -> (r: Result<String, AppError>)
    ensures
        match url_parse(final_url@) {
            Err(e) => r matches Err(AppError::InvalidInput { message }) && message@ == "Invalid final URL: "@ + e,
            Ok(_) => r matches Ok(u) && u@ == spec_strip_tracking(final_url@).0,
        },
{
    match parse_url(final_url) {
        Err(e) => Err(AppError::InvalidInput { message: concat_str("Invalid final URL: ", e.as_str()) }),
        Ok(_) => match strip_tracking(final_url) {
            Some(p) => Ok(p.href),
            None => Err(AppError::InvalidInput { message: concat_str("Invalid final URL: ", final_url) }),
        },
    }
}

/// What the application does next while following a short link.
#[derive(Debug)]
pub enum RedirectAction {
    /// Send a request (HEAD, falling back to GET) to this URL, without
    /// following redirects, and report the reply.
    Request(String),
    /// Resolution ended at this canonical URL.
    Done(String),
    /// Resolution failed.
    Fail(AppError),
}

/// The progress of following a short link's redirects.
#[derive(Debug)]
pub struct RedirectChain {
    /// The URL requested last.
    pub current: String,
    /// The redirects followed so far.
    pub hops: usize,
}

/// The error for a chain that ran out of hops.
pub open spec fn is_too_many_redirects(e: AppError) -> bool {
    e matches AppError::TooManyRedirects { message } && message@ == "Redirect chain exceeded 5 hops"@
}

fn too_many_redirects() -> (e: AppError)
    ensures
        is_too_many_redirects(e),
{
    AppError::TooManyRedirects { message: "Redirect chain exceeded 5 hops".to_owned() }
}

impl RedirectChain {
    /// Start following redirects from `url`.
    pub fn new(url: &str) -> (r: Self)
        ensures
            r.current@ == url@,
            r.hops == 0,
    {
        RedirectChain { current: url.to_owned(), hops: 0 }
    }

    /// The first request of the chain.
    pub fn start(&self) -> (r: RedirectAction)
        requires
            self.hops <= MAX_REDIRECTS,
        ensures
            self.hops < MAX_REDIRECTS ==> (r matches RedirectAction::Request(u) && u@ == self.current@),
            self.hops >= MAX_REDIRECTS ==> (r matches RedirectAction::Fail(e) && is_too_many_redirects(e)),
    {
        if self.hops >= MAX_REDIRECTS {
            RedirectAction::Fail(too_many_redirects())
        } else {
            RedirectAction::Request(self.current.clone())
        }
    }

    /// Take the reply to the last request: follow a redirection (counting
    /// the hop, and failing once the chain exceeds `MAX_REDIRECTS` hops),
    /// or finish at the current URL.
    pub fn on_reply(&mut self, is_redirection: bool, location: Option<&str>) -> (r: RedirectAction)
        requires
            old(self).hops < MAX_REDIRECTS,
        ensures
            final(self).hops <= MAX_REDIRECTS,
            r matches RedirectAction::Request(u) ==> u@ == final(self).current@ && final(self).hops < MAX_REDIRECTS,
            match spec_redirect_outcome(old(self).current@, is_redirection, opt_str_view(location)) {
                RedirectOutcome::Finished => match url_parse(old(self).current@) {
                    Err(e) => r matches RedirectAction::Fail(AppError::InvalidInput { message })
                        && message@ == "Invalid final URL: "@ + e,
                    Ok(_) => r matches RedirectAction::Done(u) && u@ == spec_strip_tracking(old(self).current@).0,
                },
                RedirectOutcome::Follow(next) => {
                    &&& final(self).current@ == next
                    &&& final(self).hops == old(self).hops + 1
                    &&& (final(self).hops < MAX_REDIRECTS ==> r matches RedirectAction::Request(u))
                    &&& (final(self).hops >= MAX_REDIRECTS ==> (r matches RedirectAction::Fail(e) && is_too_many_redirects(e)))
                },
                o => r matches RedirectAction::Fail(e) && is_redirect_error(o, e),
            },
    {
        match next_redirect(self.current.as_str(), is_redirection, location) {
            Err(e) => RedirectAction::Fail(e),
            Ok(RedirectStep::Finished(u)) => match finish_redirects(u.as_str()) {
                Ok(c) => RedirectAction::Done(c),
                Err(e) => RedirectAction::Fail(e),
            },
            Ok(RedirectStep::Follow(next)) => {
                self.current = next;
                self.hops = self.hops + 1;
                if self.hops >= MAX_REDIRECTS {
                    RedirectAction::Fail(too_many_redirects())
                } else {
                    RedirectAction::Request(self.current.clone())
                }
            },
        }
    }
}

/// Removing tracking parameters leaves none behind.
pub proof fn kept_pairs_have_no_tracking(pairs: Seq<(Seq<char>, Seq<char>)>)
    ensures
        forall|i: int| 0 <= i < kept_pairs(pairs).len() ==> !is_tracking_param(#[trigger] kept_pairs(pairs)[i].0),
    decreases pairs.len(),
{
    if pairs.len() > 0 {
        kept_pairs_have_no_tracking(pairs.drop_last());
        let r = kept_pairs(pairs.drop_last());
        if !is_tracking_param(pairs.last().0) {
            assert forall|i: int| 0 <= i < r.push(pairs.last()).len() implies !is_tracking_param(#[trigger] r.push(pairs.last())[i].0) by {
                if i < r.len() {
                    assert(r.push(pairs.last())[i] == r[i]);
                }
            }
        }
    }
}

/// Removing tracking parameters twice removes nothing more than once.
pub proof fn kept_pairs_idempotent(pairs: Seq<(Seq<char>, Seq<char>)>)
    ensures
        kept_pairs(kept_pairs(pairs)) == kept_pairs(pairs),
    decreases pairs.len(),
{
    if pairs.len() > 0 {
        kept_pairs_idempotent(pairs.drop_last());
        let r = kept_pairs(pairs.drop_last());
        if !is_tracking_param(pairs.last().0) {
            assert(r.push(pairs.last()).drop_last() =~= r);
        }
    }
}

} // verus!
