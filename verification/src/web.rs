//! Percent-decoding and URL parsing, through the `percent-encoding` and
//! `url` crates.

use vstd::prelude::*;
use vstd::utf8::{decode_utf8, encode_utf8, valid_utf8};

verus! {

/// The value of an ASCII hexadecimal digit (`char::to_digit(16)` on a byte).
pub open spec fn hex_digit_value(b: u8) -> Option<u8> {
    if 0x30 <= b && b <= 0x39 {
        Some((b - 0x30) as u8)
    } else if 0x61 <= b && b <= 0x66 {
        Some((b - 0x61 + 10) as u8)
    } else if 0x41 <= b && b <= 0x46 {
        Some((b - 0x41 + 10) as u8)
    } else {
        None
    }
}

/// Percent-decoding of a byte string: every `%` followed by two hexadecimal
/// digits becomes the byte they spell; every other byte stays.
pub open spec fn percent_decode_bytes(b: Seq<u8>) -> Seq<u8>
    decreases b.len(),
{
    if b.len() == 0 {
        Seq::empty()
    } else if b[0] == 0x25u8 && b.len() >= 3 && hex_digit_value(b[1]) is Some
        && hex_digit_value(b[2]) is Some {
        seq![(hex_digit_value(b[1]).unwrap() * 16 + hex_digit_value(b[2]).unwrap()) as u8]
            + percent_decode_bytes(b.skip(3))
    } else {
        seq![b[0]] + percent_decode_bytes(b.skip(1))
    }
}

/// The bytes that percent-decoding the UTF-8 encoding of `s` gives.
pub open spec fn percent_decoded(s: Seq<char>) -> Seq<u8> {
    percent_decode_bytes(encode_utf8(s))
}

/// `percent_encoding::percent_decode_str(s).decode_utf8()`: the
/// percent-decoded bytes of `s` read as UTF-8, or `None` where they are not
/// valid UTF-8.
#[verifier::external_body]
pub(crate) fn percent_decode_utf8(s: &str) -> (r: Option<String>)
    ensures
        match r {
            Some(d) => valid_utf8(percent_decoded(s@)) && d@ == decode_utf8(percent_decoded(s@)),
            None => !valid_utf8(percent_decoded(s@)),
        },
{
    match percent_encoding::percent_decode_str(s).decode_utf8() {
        Ok(d) => Some(d.into_owned()),
        Err(_) => None,
    }
}

/// The parts of a parsed URL that the library reads.
#[derive(Debug, Clone)]
pub struct UrlParts {
    /// The serialization (`Url::as_str`).
    pub href: String,
    pub scheme: String,
    pub host: Option<String>,
    pub path: String,
    pub query: Option<String>,
}

/// The parts of a URL as plain values: serialization, scheme, host, path,
/// query.
pub type UrlView = (Seq<char>, Seq<char>, Option<Seq<char>>, Seq<char>, Option<Seq<char>>);

/// An optional string as an optional character sequence.
pub open spec fn opt_chars(o: Option<String>) -> Option<Seq<char>> {
    match o {
        Some(s) => Some(s@),
        None => None,
    }
}

/// The plain values of `p`.
pub open spec fn url_view(p: UrlParts) -> UrlView {
    (p.href@, p.scheme@, opt_chars(p.host), p.path@, opt_chars(p.query))
}

/// What `url::Url::parse` makes of a string: the parts of the URL, or the
/// text of the parse error.
pub uninterp spec fn url_parse(input: Seq<char>) -> Result<UrlView, Seq<char>>;

/// `url::Url::parse(input)`, its parts read out, or the `Display` text of the
/// `ParseError`. Which strings parse and how they serialize is the `url`
/// crate's (WHATWG) algorithm, named by `url_parse`.
#[verifier::external_body]
pub(crate) fn parse_url(input: &str) -> (r: Result<UrlParts, String>)
    ensures
        url_parse(input@) == match r {
            Ok(p) => Ok(url_view(p)),
            Err(e) => Err(e@),
        },
{
    match url::Url::parse(input) {
        Ok(u) => Ok(UrlParts {
            href: u.as_str().to_string(),
            scheme: u.scheme().to_string(),
            host: u.host_str().map(str::to_string),
            path: u.path().to_string(),
            query: u.query().map(str::to_string),
        }),
        Err(e) => Err(e.to_string()),
    }
}

/// The name-value pairs of a URL's query (`Url::query_pairs`), for a string
/// that parses.
pub uninterp spec fn url_query_pairs(input: Seq<char>) -> Seq<(Seq<char>, Seq<char>)>;

/// Pairs of strings as pairs of character sequences.
pub open spec fn pairs_view(v: Seq<(String, String)>) -> Seq<(Seq<char>, Seq<char>)> {
    v.map_values(|p: (String, String)| (p.0@, p.1@))
}

/// `url::Url::parse(input)` and then `query_pairs()`, each name and value
/// as an owned string; `None` where `input` does not parse. The splitting on
/// `&` and `=` and the form-decoding of each part are the `form_urlencoded`
/// crate's, named by `url_query_pairs`.
#[verifier::external_body]
pub(crate) fn query_pairs_of(input: &str) -> (r: Option<Vec<(String, String)>>)
    ensures
        r is Some <==> url_parse(input@) is Ok,
        r is Some ==> pairs_view(r.unwrap()@) == url_query_pairs(input@),
{
    match url::Url::parse(input) {
        Ok(u) => Some(u.query_pairs().map(|(k, v)| (k.into_owned(), v.into_owned())).collect()),
        Err(_) => None,
    }
}

/// The URL that `url::Url::parse(input)` gives after `set_query(query)`.
pub uninterp spec fn url_with_query(input: Seq<char>, query: Option<Seq<char>>) -> UrlView;

/// An optional string slice as an optional character sequence.
pub open spec fn opt_str_chars(o: Option<&str>) -> Option<Seq<char>> {
    match o {
        Some(s) => Some(s@),
        None => None,
    }
}

/// `url::Url::parse(input)`, then `set_query(query)`, its parts read out;
/// `None` where `input` does not parse. How the query is percent-encoded
/// and the URL serialized is the `url` crate's, named by `url_with_query`.
#[verifier::external_body]
pub(crate) fn set_url_query(input: &str, query: Option<&str>) -> (r: Option<UrlParts>)
    ensures
        r is Some <==> url_parse(input@) is Ok,
        r is Some ==> url_view(r.unwrap()) == url_with_query(input@, opt_str_chars(query)),
{
    match url::Url::parse(input) {
        Ok(mut u) => {
            u.set_query(query);
            Some(UrlParts {
                href: u.as_str().to_string(),
                scheme: u.scheme().to_string(),
                host: u.host_str().map(str::to_string),
                path: u.path().to_string(),
                query: u.query().map(str::to_string),
            })
        },
        Err(_) => None,
    }
}

/// The serialization of `reference` resolved against the URL that `base`
/// parses to (`Url::join`), or `None` where that fails.
pub uninterp spec fn url_join(base: Seq<char>, reference: Seq<char>) -> Option<Seq<char>>;

/// `url::Url::parse(base)` and then `join(reference)`, serialized; `None`
/// where either step fails.
#[verifier::external_body]
pub(crate) fn join_url(base: &str, reference: &str) -> (r: Option<String>)
    ensures
        opt_chars(r) == url_join(base@, reference@),
        url_parse(base@) is Err ==> r is None,
{
    match url::Url::parse(base) {
        Ok(b) => match b.join(reference) {
            Ok(u) => Some(u.as_str().to_string()),
            Err(_) => None,
        },
        Err(_) => None,
    }
}

} // verus!
