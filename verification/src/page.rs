//! Queries on HTML pages and JSON documents, through the `scraper` and
//! `serde_json` crates.

use vstd::prelude::*;
use crate::web::opt_chars;

verus! {

/// For each element of the HTML document `html` that the CSS selector
/// `selector` matches, in document order, the value of its attribute `attr`
/// if it has one; `None` where the selector does not parse.
pub uninterp spec fn html_attr_values(html: Seq<char>, selector: Seq<char>, attr: Seq<char>) -> Option<Seq<Option<Seq<char>>>>;

/// Optional strings as optional character sequences.
pub open spec fn opt_chars_seq(v: Seq<Option<String>>) -> Seq<Option<Seq<char>>> {
    v.map_values(|o: Option<String>| opt_chars(o))
}

/// Strings as character sequences.
pub open spec fn chars_seq(v: Seq<String>) -> Seq<Seq<char>> {
    v.map_values(|s: String| s@)
}

/// `scraper::Html::parse_document(html)`, then `Selector::parse(selector)`
/// and, for each selected element, `value().attr(attr)` as an owned string.
/// The HTML parsing and selector matching are the crate's, named by
/// `html_attr_values`.
#[verifier::external_body]
pub(crate) fn select_attr_values(html: &str, selector: &str, attr: &str) -> (r: Option<Vec<Option<String>>>)
    ensures
        match r {
            Some(v) => html_attr_values(html@, selector@, attr@) == Some(opt_chars_seq(v@)),
            None => html_attr_values(html@, selector@, attr@) is None,
        },
{
    let document = scraper::Html::parse_document(html);
    match scraper::Selector::parse(selector) {
        Ok(sel) => Some(document.select(&sel).map(|el| el.value().attr(attr).map(str::to_string)).collect()),
        Err(_) => None,
    }
}

/// For each element of the HTML document `html` that the CSS selector
/// `selector` matches, in document order, its text (the concatenation of its
/// descendant text nodes); `None` where the selector does not parse.
pub uninterp spec fn html_texts(html: Seq<char>, selector: Seq<char>) -> Option<Seq<Seq<char>>>;

/// `scraper::Html::parse_document(html)`, then `Selector::parse(selector)`
/// and, for each selected element, `text().collect::<String>()`.
#[verifier::external_body]
pub(crate) fn select_texts(html: &str, selector: &str) -> (r: Option<Vec<String>>)
    ensures
        match r {
            Some(v) => html_texts(html@, selector@) == Some(chars_seq(v@)),
            None => html_texts(html@, selector@) is None,
        },
{
    let document = scraper::Html::parse_document(html);
    match scraper::Selector::parse(selector) {
        Ok(sel) => Some(document.select(&sel).map(|el| el.text().collect::<String>()).collect()),
        Err(_) => None,
    }
}

/// Where `text` parses as JSON and its member `key` is a string: that
/// string.
pub uninterp spec fn json_string_member(text: Seq<char>, key: Seq<char>) -> Option<Seq<char>>;

/// `serde_json::from_str::<Value>(text)`, then `get(key)` and `as_str()`;
/// `None` where any step fails.
#[verifier::external_body]
pub(crate) fn json_string_field(text: &str, key: &str) -> (r: Option<String>)
    ensures
        opt_chars(r) == json_string_member(text@, key@),
{
    match serde_json::from_str::<serde_json::Value>(text) {
        Ok(v) => v.get(key).and_then(serde_json::Value::as_str).map(str::to_string),
        Err(_) => None,
    }
}

/// Where `text` parses as JSON and its member `key` is an array: for each
/// element, the element if it is a string.
pub uninterp spec fn json_array_member(text: Seq<char>, key: Seq<char>) -> Option<Seq<Option<Seq<char>>>>;

/// `serde_json::from_str::<Value>(text)`, then `get(key)` and `as_array()`,
/// and `as_str()` of each element; `None` where the document does not parse
/// or the member is missing or not an array.
#[verifier::external_body]
pub(crate) fn json_array_field(text: &str, key: &str) -> (r: Option<Vec<Option<String>>>)
    ensures
        match r {
            Some(v) => json_array_member(text@, key@) == Some(opt_chars_seq(v@)),
            None => json_array_member(text@, key@) is None,
        },
{
    match serde_json::from_str::<serde_json::Value>(text) {
        Ok(v) => match v.get(key).and_then(serde_json::Value::as_array) {
            Some(items) => Some(items.iter().map(|x| x.as_str().map(str::to_string)).collect()),
            None => None,
        },
        Err(_) => None,
    }
}

} // verus!
