//! Log hygiene: URLs are logged with their query values redacted.

use vstd::prelude::*;
use crate::text::concat_str;
use crate::web::{pairs_view, parse_url, query_pairs_of, set_url_query, url_parse, url_query_pairs, url_with_query};

verus! {

/// The query names, each with its value replaced by `[REDACTED]`, joined by
/// `&`.
pub open spec fn redacted_query(pairs: Seq<(Seq<char>, Seq<char>)>) -> Seq<char>
    decreases pairs.len(),
{
    if pairs.len() == 0 {
        Seq::empty()
    } else if pairs.len() == 1 {
        pairs[0].0 + "=[REDACTED]"@
    } else {
        redacted_query(pairs.drop_last()) + "&"@ + pairs.last().0 + "=[REDACTED]"@
    }
}

/// A URL for logging: host and path kept, every query value replaced by
/// `[REDACTED]`; `[INVALID_URL]` for what does not parse.
pub open spec fn spec_redact_url(u: Seq<char>) -> Seq<char> {
    match url_parse(u) {
        Err(_) => "[INVALID_URL]"@,
        Ok(v) => match v.4 {
            None => v.0,
            Some(_) => {
                let pairs = url_query_pairs(u);
                if pairs.len() == 0 {
                    url_with_query(u, None).0
                } else {
                    url_with_query(u, Some(redacted_query(pairs))).0
                }
            },
        },
    }
}

/// Redact query string values from a URL for safe logging.
/// Preserves host and path but replaces query values with `[REDACTED]`.
pub fn redact_url(url: &str) -> (r: String)
    ensures
        r@ == spec_redact_url(url@),
{
    let parts = match parse_url(url) {
        Ok(p) => p,
        Err(_) => return "[INVALID_URL]".to_owned(),
    };
    if parts.query.is_none() {
        return parts.href;
    }
    let pairs = match query_pairs_of(url) {
        Some(p) => p,
        None => return "[INVALID_URL]".to_owned(),
    };
    let ghost pv = pairs_view(pairs@);
    if pairs.len() == 0 {
        return match set_url_query(url, None) {
            Some(u) => u.href,
            None => "[INVALID_URL]".to_owned(),
        };
    }
    let mut q = concat_str(pairs[0].0.as_str(), "=[REDACTED]");
    let mut i: usize = 1;
    assert(pv.take(1).drop_last() =~= Seq::<(Seq<char>, Seq<char>)>::empty());
    while i < pairs.len()
        invariant
            1 <= i <= pairs@.len(),
            pv == pairs_view(pairs@),
            q@ == redacted_query(pv.take(i as int)),
        decreases pairs@.len() - i,
    {
        assert(pv.take(i + 1).drop_last() =~= pv.take(i as int));
        assert(pv.take(i + 1).last() == pv[i as int]);
        let a = concat_str(q.as_str(), "&");
        let b = concat_str(a.as_str(), pairs[i].0.as_str());
        q = concat_str(b.as_str(), "=[REDACTED]");
        i += 1;
    }
    assert(pv.take(pairs@.len() as int) =~= pv);
    match set_url_query(url, Some(q.as_str())) {
        Some(u) => u.href,
        None => "[INVALID_URL]".to_owned(),
    }
}

} // verus!
