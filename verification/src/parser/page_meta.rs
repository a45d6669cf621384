//! Page metadata read from HTML: Open Graph and named `<meta>` tags, the
//! `<title>`, and JSON-LD scripts.

use vstd::prelude::*;
use crate::page::{chars_seq, html_attr_values, html_texts, opt_chars_seq, select_attr_values, select_texts};
use crate::text::{concat_str, trim, trim_end_matches, trim_suffix_all, trim_ws};
use crate::web::opt_chars;

verus! {

/// The first value, where there is one and it is present and non-empty.
pub open spec fn first_nonempty(r: Option<Seq<Option<Seq<char>>>>) -> Option<Seq<char>> {
    match r {
        Some(v) => if v.len() > 0 {
            match v[0] {
                Some(s) => if s.len() > 0 { Some(s) } else { None },
                None => None,
            }
        } else {
            None
        },
        None => None,
    }
}

/// The CSS selector of `<meta property="...">`.
pub open spec fn property_selector(p: Seq<char>) -> Seq<char> {
    "meta[property=\""@ + p + "\"]"@
}

/// The CSS selector of `<meta name="...">`.
pub open spec fn name_selector(n: Seq<char>) -> Seq<char> {
    "meta[name=\""@ + n + "\"]"@
}

/// The `content` of the first `<meta property="p">`, where it is non-empty.
pub open spec fn spec_og_content(html: Seq<char>, p: Seq<char>) -> Option<Seq<char>> {
    first_nonempty(html_attr_values(html, property_selector(p), "content"@))
}

/// The `content` of the first `<meta name="n">`, where it is non-empty.
pub open spec fn spec_meta_content(html: Seq<char>, n: Seq<char>) -> Option<Seq<char>> {
    first_nonempty(html_attr_values(html, name_selector(n), "content"@))
}

/// The present, non-empty values, in order.
pub open spec fn nonempty_values(v: Seq<Option<Seq<char>>>) -> Seq<Seq<char>>
    decreases v.len(),
{
    if v.len() == 0 {
        Seq::empty()
    } else {
        let rest = nonempty_values(v.drop_last());
        match v.last() {
            Some(s) => if s.len() > 0 { rest.push(s) } else { rest },
            None => rest,
        }
    }
}

/// The non-empty `content` values of all `<meta property="og:image">`.
pub open spec fn spec_all_og_images(html: Seq<char>) -> Seq<Seq<char>> {
    match html_attr_values(html, property_selector("og:image"@), "content"@) {
        Some(v) => nonempty_values(v),
        None => Seq::empty(),
    }
}

/// The page title: `og:title`, else the text of the first `<title>`,
/// trimmed and without trailing repetitions of `suffix`, where that is
/// non-empty.
pub open spec fn spec_page_title(html: Seq<char>, suffix: Seq<char>) -> Option<Seq<char>> {
    match spec_og_content(html, "og:title"@) {
        Some(t) => Some(t),
        None => match html_texts(html, "title"@) {
            Some(ts) => if ts.len() > 0 {
                let c = trim_suffix_all(trim_ws(ts[0]), suffix);
                if c.len() == 0 { None } else { Some(c) }
            } else {
                None
            },
            None => None,
        },
    }
}

/// The page author: `og:author`, else `<meta name="author">`.
pub open spec fn spec_page_author(html: Seq<char>) -> Option<Seq<char>> {
    match spec_og_content(html, "og:author"@) {
        Some(a) => Some(a),
        None => spec_meta_content(html, "author"@),
    }
}

/// The texts of the page's JSON-LD scripts, in document order.
pub open spec fn spec_ld_json_texts(html: Seq<char>) -> Seq<Seq<char>> {
    match html_texts(html, "script[type=\"application/ld+json\"]"@) {
        Some(ts) => ts,
        None => Seq::empty(),
    }
}

fn first_nonempty_of(r: Option<Vec<Option<String>>>) -> (out: Option<String>)
    ensures
        opt_chars(out) == first_nonempty(match r {
            Some(v) => Some(opt_chars_seq(v@)),
            None => None,
        }),
{
    match r {
        Some(v) => {
            if v.len() == 0 {
                return None;
            }
            match &v[0] {
                Some(s) => if !s.as_str().is_empty() { Some(s.clone()) } else { None },
                None => None,
            }
        },
        None => None,
    }
}

/// The `content` of the first `<meta property="...">`, where it is non-empty.
pub fn og_content(html: &str, property: &str) -> (r: Option<String>)
    ensures
        opt_chars(r) == spec_og_content(html@, property@),
{
    let a = concat_str("meta[property=\"", property);
    let sel = concat_str(a.as_str(), "\"]");
    let values = select_attr_values(html, sel.as_str(), "content");
    first_nonempty_of(values)
}

/// The `content` of the first `<meta name="...">`, where it is non-empty.
pub fn meta_content(html: &str, name: &str) -> (r: Option<String>)
    ensures
        opt_chars(r) == spec_meta_content(html@, name@),
{
    let a = concat_str("meta[name=\"", name);
    let sel = concat_str(a.as_str(), "\"]");
    let values = select_attr_values(html, sel.as_str(), "content");
    first_nonempty_of(values)
}

/// The non-empty `content` values of all `<meta property="og:image">`, in
/// document order.
pub fn all_og_images(html: &str) -> (r: Vec<String>)
    ensures
        chars_seq(r@) == spec_all_og_images(html@),
{
    let a = concat_str("meta[property=\"", "og:image");
    let sel = concat_str(a.as_str(), "\"]");
    let values = select_attr_values(html, sel.as_str(), "content");
    let mut out: Vec<String> = Vec::new();
    match values {
        Some(v) => {
            let ghost vs = opt_chars_seq(v@);
            let mut i: usize = 0;
            while i < v.len()
                invariant
                    i <= v@.len(),
                    vs == opt_chars_seq(v@),
                    chars_seq(out@) == nonempty_values(vs.take(i as int)),
                decreases v@.len() - i,
            {
                assert(vs.take(i + 1).drop_last() =~= vs.take(i as int));
                match &v[i] {
                    Some(s) => {
                        if !s.as_str().is_empty() {
                            out.push(s.clone());
                            assert(chars_seq(out@) =~= nonempty_values(vs.take(i as int)).push(s@));
                        }
                    },
                    None => {},
                }
                i += 1;
            }
            assert(vs.take(v@.len() as int) =~= vs);
            out
        },
        None => {
            assert(chars_seq(out@) =~= Seq::<Seq<char>>::empty());
            out
        },
    }
}

/// The page title: `og:title`, else the first `<title>` trimmed and without
/// trailing repetitions of `suffix`, where that is non-empty.
pub fn page_title(html: &str, suffix: &str) -> (r: Option<String>)
    ensures
        opt_chars(r) == spec_page_title(html@, suffix@),
{
    match og_content(html, "og:title") {
        Some(t) => Some(t),
        None => {
            match select_texts(html, "title") {
                Some(ts) => {
                    if ts.len() == 0 {
                        return None;
                    }
                    let t = trim(ts[0].as_str());
                    let c = trim_end_matches(t.as_str(), suffix);
                    if c.as_str().is_empty() { None } else { Some(c) }
                },
                None => None,
            }
        },
    }
}

/// The page author: `og:author`, else `<meta name="author">`.
pub fn page_author(html: &str) -> (r: Option<String>)
    ensures
        opt_chars(r) == spec_page_author(html@),
{
    match og_content(html, "og:author") {
        Some(a) => Some(a),
        None => meta_content(html, "author"),
    }
}

/// The texts of the page's JSON-LD scripts, in document order.
pub fn ld_json_texts(html: &str) -> (r: Vec<String>)
    ensures
        chars_seq(r@) == spec_ld_json_texts(html@),
{
    match select_texts(html, "script[type=\"application/ld+json\"]") {
        Some(ts) => ts,
        None => {
            let v: Vec<String> = Vec::new();
            assert(chars_seq(v@) =~= Seq::<Seq<char>>::empty());
            v
        },
    }
}

} // verus!
