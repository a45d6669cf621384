//! Extraction of HTTP(S) links from free-form share text.

use vstd::prelude::*;
use crate::text::{chars_of, contains_seq, is_whitespace, is_ws, matches_at, occurs_at, starts_with_seq, string_of_range};

verus! {

/// Maximum number of URLs to extract from a single submission.
pub const MAX_BATCH_SIZE: usize = 20;

/// A character that may stand inside a link: not whitespace, not an ASCII
/// control character, not one of `<>[](){}"'`, and not one of the CJK
/// punctuation marks `，。！？、；：“”‘’【】《》`.
pub open spec fn is_link_char(c: char) -> bool {
    let v = c as u32;
    &&& !is_ws(c)
    &&& v > 0x1F
    &&& c != '<' && c != '>' && c != '[' && c != ']' && c != '(' && c != ')' && c != '{' && c != '}'
    &&& c != '"' && c != '\''
    &&& v != 0xFF0C && v != 0x3002 && v != 0xFF01 && v != 0xFF1F && v != 0x3001 && v != 0xFF1B
    &&& v != 0xFF1A && v != 0x201C && v != 0x201D && v != 0x2018 && v != 0x2019
    &&& v != 0x3010 && v != 0x3011 && v != 0x300A && v != 0x300B
}

fn link_char(c: char) -> (r: bool)
    ensures
        r == is_link_char(c),
{
    let v = c as u32;
    !is_whitespace(c) && v > 0x1F && c != '<' && c != '>' && c != '[' && c != ']' && c != '('
        && c != ')' && c != '{' && c != '}' && c != '"' && c != '\'' && v != 0xFF0C && v != 0x3002
        && v != 0xFF01 && v != 0xFF1F && v != 0x3001 && v != 0xFF1B && v != 0xFF1A && v != 0x201C
        && v != 0x201D && v != 0x2018 && v != 0x2019 && v != 0x3010 && v != 0x3011 && v != 0x300A
        && v != 0x300B
}

/// The end of the run of link characters that starts at `j`.
pub open spec fn run_end(s: Seq<char>, j: int) -> int
    decreases s.len() - j,
{
    if j < 0 || j >= s.len() || !is_link_char(s[j]) {
        j
    } else {
        run_end(s, j + 1)
    }
}

/// Where a link starting at `i` ends: a link is `http://` or `https://`
/// followed by at least one link character, and runs as far as link
/// characters go.
pub open spec fn link_end_at(s: Seq<char>, i: int) -> Option<int> {
    if occurs_at(s, "https://"@, i) && i + 8 < s.len() && is_link_char(s[i + 8]) {
        Some(run_end(s, i + 8))
    } else if occurs_at(s, "http://"@, i) && i + 7 < s.len() && is_link_char(s[i + 7]) {
        Some(run_end(s, i + 7))
    } else {
        None
    }
}

/// Punctuation trimmed from the end of a link.
pub open spec fn is_trailing_punct(c: char) -> bool {
    c == '.' || c == ',' || c == ';' || c == ')' || c == ']' || c == '}' || c == '>' || c == '/'
}

/// `s` without its trailing punctuation.
pub open spec fn trim_trailing_punct(s: Seq<char>) -> Seq<char>
    decreases s.len(),
{
    if s.len() > 0 && is_trailing_punct(s.last()) {
        trim_trailing_punct(s.drop_last())
    } else {
        s
    }
}

/// The links of `s` found left to right from position `p`, each without its
/// trailing punctuation. After a link, the search goes on at its end.
pub open spec fn scan_links(s: Seq<char>, p: int) -> Seq<Seq<char>>
    decreases s.len() - p,
{
    if p < 0 || p >= s.len() {
        Seq::empty()
    } else {
        match link_end_at(s, p) {
            Some(e) => if p < e <= s.len() {
                seq![trim_trailing_punct(s.subrange(p, e))] + scan_links(s, e)
            } else {
                Seq::empty()
            },
            None => scan_links(s, p + 1),
        }
    }
}

/// The links of `text` in order of appearance, at most `MAX_BATCH_SIZE`.
pub open spec fn spec_extract_urls(text: Seq<char>) -> Seq<Seq<char>> {
    let all = scan_links(text, 0);
    if all.len() <= MAX_BATCH_SIZE { all } else { all.take(MAX_BATCH_SIZE as int) }
}

proof fn lemma_run_end_bounds(s: Seq<char>, j: int)
    requires
        0 <= j <= s.len(),
    ensures
        j <= run_end(s, j) <= s.len(),
    decreases s.len() - j,
{
    if j < s.len() && is_link_char(s[j]) {
        lemma_run_end_bounds(s, j + 1);
    }
}

fn find_run_end(s: &[char], j: usize) -> (r: usize)
    requires
        j <= s@.len(),
    ensures
        r == run_end(s@, j as int),
        j <= r <= s@.len(),
{
    proof {
        lemma_run_end_bounds(s@, j as int);
    }
    let mut k = j;
    while k < s.len() && link_char(s[k])
        invariant
            j <= k <= s@.len(),
            run_end(s@, j as int) == run_end(s@, k as int),
        decreases s.len() - k,
    {
        k += 1;
    }
    k
}

fn link_end(s: &[char], i: usize, https: &[char], http: &[char]) -> (r: Option<usize>)
    requires
        i < s@.len(),
        https@ == "https://"@,
        http@ == "http://"@,
    ensures
        match r {
            Some(e) => link_end_at(s@, i as int) == Some(e as int) && i < e <= s@.len(),
            None => link_end_at(s@, i as int) is None,
        },
{
    proof {
        reveal_strlit("https://");
        reveal_strlit("http://");
    }
    if matches_at(s, https, i) && s.len() - i > 8 && link_char(s[i + 8]) {
        return Some(find_run_end(s, i + 8));
    }
    if matches_at(s, http, i) && s.len() - i > 7 && link_char(s[i + 7]) {
        return Some(find_run_end(s, i + 7));
    }
    None
}

fn trimmed_link(s: &[char], lo: usize, hi: usize) -> (r: String)
    requires
        lo <= hi <= s@.len(),
    ensures
        r@ == trim_trailing_punct(s@.subrange(lo as int, hi as int)),
{
    let mut end = hi;
    while end > lo && (s[end - 1] == '.' || s[end - 1] == ',' || s[end - 1] == ';' || s[end - 1] == ')'
        || s[end - 1] == ']' || s[end - 1] == '}' || s[end - 1] == '>' || s[end - 1] == '/')
        invariant
            lo <= end <= hi <= s@.len(),
            trim_trailing_punct(s@.subrange(lo as int, hi as int)) == trim_trailing_punct(
                s@.subrange(lo as int, end as int),
            ),
        decreases end,
    {
        assert(s@.subrange(lo as int, end as int).drop_last() =~= s@.subrange(lo as int, end - 1));
        end -= 1;
    }
    string_of_range(s, lo, end)
}

/// Extract all HTTP/HTTPS URLs from arbitrary text (see `spec_extract_urls`):
/// left to right, each without trailing punctuation, at most
/// `MAX_BATCH_SIZE` of them.
pub fn extract_urls(text: &str) -> (r: Vec<String>)
    ensures
        r@.map_values(|u: String| u@) == spec_extract_urls(text@),
        r@.len() <= MAX_BATCH_SIZE,
{
    let s = chars_of(text);
    let https = chars_of("https://");
    let http = chars_of("http://");
    let mut urls: Vec<String> = Vec::new();
    let mut p: usize = 0;
    let ghost all = scan_links(s@, 0);
    while p < s.len() && urls.len() < MAX_BATCH_SIZE
        invariant
            s@ == text@,
            https@ == "https://"@,
            http@ == "http://"@,
            p <= s@.len(),
            urls@.len() <= MAX_BATCH_SIZE,
            all == scan_links(s@, 0),
            all == urls@.map_values(|u: String| u@) + scan_links(s@, p as int),
        decreases s.len() - p, MAX_BATCH_SIZE - urls.len(),
    {
        match link_end(s.as_slice(), p, https.as_slice(), http.as_slice()) {
            Some(e) => {
                let u = trimmed_link(s.as_slice(), p, e);
                let ghost before = urls@;
                urls.push(u);
                proof {
                    assert(urls@.map_values(|u: String| u@) =~= before.map_values(|u: String| u@).push(u@));
                    assert(before.map_values(|u: String| u@) + scan_links(s@, p as int)
                        =~= urls@.map_values(|u: String| u@) + scan_links(s@, e as int));
                }
                p = e;
            },
            None => {
                p += 1;
            },
        }
    }
    proof {
        let got = urls@.map_values(|u: String| u@);
        if urls@.len() < MAX_BATCH_SIZE {
            assert(scan_links(s@, p as int) =~= Seq::<Seq<char>>::empty());
            assert(all =~= got);
        } else {
            assert(all.take(MAX_BATCH_SIZE as int) =~= got);
        }
    }
    urls
}

proof fn lemma_trim_keeps_prefix(s: Seq<char>, k: int)
    requires
        0 <= k <= s.len(),
        forall|j: int| 0 <= j < k ==> !is_trailing_punct(#[trigger] s[j]),
    ensures
        k <= trim_trailing_punct(s).len() <= s.len(),
        trim_trailing_punct(s) == s.take(trim_trailing_punct(s).len() as int),
    decreases s.len(),
{
    if s.len() > 0 && is_trailing_punct(s.last()) {
        assert(s.len() > k) by {
            if s.len() == k {
                assert(!is_trailing_punct(s[k - 1]));
            }
        }
        lemma_trim_keeps_prefix(s.drop_last(), k);
        let r = trim_trailing_punct(s.drop_last());
        assert(s.drop_last().take(r.len() as int) =~= s.take(r.len() as int));
    } else {
        assert(s.take(s.len() as int) =~= s);
    }
}

/// A link found by the scan from `p`: it begins with `http` and occurs in
/// the text.
pub open spec fn well_formed_link(text: Seq<char>, u: Seq<char>) -> bool {
    starts_with_seq(u, "http"@) && contains_seq(text, u)
}

proof fn lemma_scan_links_well_formed(s: Seq<char>, p: int)
    ensures
        forall|i: int| 0 <= i < scan_links(s, p).len() ==> well_formed_link(s, #[trigger] scan_links(s, p)[i]),
    decreases s.len() - p,
{
    if p < 0 || p >= s.len() {
    } else {
        match link_end_at(s, p) {
            Some(e) => if p < e <= s.len() {
                lemma_scan_links_well_formed(s, e);
                reveal_strlit("https://");
                reveal_strlit("http://");
                reveal_strlit("http");
                let sub = s.subrange(p, e);
                assert(e >= p + 7) by {
                    if occurs_at(s, "https://"@, p) && p + 8 < s.len() && is_link_char(s[p + 8]) {
                        lemma_run_end_bounds(s, p + 8);
                    } else {
                        lemma_run_end_bounds(s, p + 7);
                    }
                }
                assert(sub.subrange(0, 4) =~= s.subrange(p, p + 4));
                assert(s.subrange(p, p + 4) =~= "http"@) by {
                    if occurs_at(s, "https://"@, p) && p + 8 < s.len() && is_link_char(s[p + 8]) {
                        assert(s.subrange(p, p + 8)[0] == 'h');
                        assert(s.subrange(p, p + 8)[1] == 't');
                        assert(s.subrange(p, p + 8)[2] == 't');
                        assert(s.subrange(p, p + 8)[3] == 'p');
                    } else {
                        assert(s.subrange(p, p + 7)[0] == 'h');
                        assert(s.subrange(p, p + 7)[1] == 't');
                        assert(s.subrange(p, p + 7)[2] == 't');
                        assert(s.subrange(p, p + 7)[3] == 'p');
                    }
                }
                lemma_trim_keeps_prefix(sub, 4);
                let u = trim_trailing_punct(sub);
                assert(u.subrange(0, 4) =~= "http"@);
                assert(s.subrange(p, p + u.len()) =~= u);
                assert(occurs_at(s, u, p));
                assert(starts_with_seq(u, "http"@));
                assert(contains_seq(s, u));
                assert(well_formed_link(s, u));
                let all = seq![u] + scan_links(s, e);
                assert forall|i: int| 0 <= i < all.len() implies well_formed_link(s, #[trigger] all[i]) by {
                    if i > 0 {
                        assert(all[i] == scan_links(s, e)[i - 1]);
                    }
                }
                assert(scan_links(s, p) == all);
            },
            None => {
                lemma_scan_links_well_formed(s, p + 1);
                assert(scan_links(s, p) == scan_links(s, p + 1));
            },
        }
    }
}

/// Every extracted link begins with `http` and occurs in the text; there
/// are at most `MAX_BATCH_SIZE` of them.
pub proof fn extracted_links_are_from_text(text: Seq<char>)
    ensures
        spec_extract_urls(text).len() <= MAX_BATCH_SIZE,
        forall|i: int| 0 <= i < spec_extract_urls(text).len() ==> well_formed_link(text, #[trigger] spec_extract_urls(text)[i]),
{
    lemma_scan_links_well_formed(text, 0);
    let all = scan_links(text, 0);
    if all.len() > MAX_BATCH_SIZE {
        assert forall|i: int| 0 <= i < spec_extract_urls(text).len() implies well_formed_link(text, #[trigger] spec_extract_urls(text)[i]) by {
            assert(spec_extract_urls(text)[i] == all[i]);
        }
    }
}

proof fn lemma_run_end_chars(s: Seq<char>, j: int)
    requires
        0 <= j <= s.len(),
    ensures
        j <= run_end(s, j) <= s.len(),
        forall|k: int| j <= k < run_end(s, j) ==> is_link_char(#[trigger] s[k]),
    decreases s.len() - j,
{
    if j < s.len() && is_link_char(s[j]) {
        lemma_run_end_chars(s, j + 1);
    }
}

/// Every character of every link that the scan from `p` finds is a link
/// character.
proof fn lemma_scan_links_chars(s: Seq<char>, p: int)
    ensures
        forall|i: int, k: int| 0 <= i < scan_links(s, p).len() && 0 <= k < scan_links(s, p)[i].len()
            ==> is_link_char(#[trigger] scan_links(s, p)[i][k]),
    decreases s.len() - p,
{
    if p < 0 || p >= s.len() {
    } else {
        match link_end_at(s, p) {
            Some(e) => if p < e <= s.len() {
                lemma_scan_links_chars(s, e);
                reveal_strlit("https://");
                reveal_strlit("http://");
                let sub = s.subrange(p, e);
                let https = occurs_at(s, "https://"@, p) && p + 8 < s.len() && is_link_char(s[p + 8]);
                let l: int = if https { 8 } else { 7 };
                lemma_run_end_chars(s, p + l);
                assert(e == run_end(s, p + l));
                assert forall|k: int| 0 <= k < sub.len() implies is_link_char(#[trigger] sub[k]) by {
                    assert(sub[k] == s[p + k]);
                    if k < l {
                        if https {
                            assert(s.subrange(p, p + 8)[k] == s[p + k]);
                            assert(s[p + k] == "https://"@[k]);
                        } else {
                            assert(s.subrange(p, p + 7)[k] == s[p + k]);
                            assert(s[p + k] == "http://"@[k]);
                        }
                    }
                }
                lemma_trim_keeps_prefix(sub, 0);
                let u = trim_trailing_punct(sub);
                let all = seq![u] + scan_links(s, e);
                assert(scan_links(s, p) == all);
                assert forall|i: int, k: int| 0 <= i < all.len() && 0 <= k < all[i].len()
                    implies is_link_char(#[trigger] all[i][k]) by {
                    if i == 0 {
                        assert(all[0] == u);
                        assert(u[k] == sub[k]);
                    } else {
                        assert(all[i] == scan_links(s, e)[i - 1]);
                    }
                }
            },
            None => {
                lemma_scan_links_chars(s, p + 1);
                assert(scan_links(s, p) == scan_links(s, p + 1));
            },
        }
    }
}

/// No extracted link holds whitespace, a control character (U+0000 to
/// U+001F), any of `<` `>` `[` `]` `(` `)` `{` `}` `"` `'`, or any of the CJK
/// punctuation marks `，` `。` `！` `？` `、` `；` `：` `“` `”` `‘` `’` `【` `】`
/// `《` `》`: a link stops at the first of them.
pub proof fn extracted_links_stop_at_separators(text: Seq<char>)
    ensures
        forall|i: int, k: int| 0 <= i < spec_extract_urls(text).len() && 0 <= k < spec_extract_urls(text)[i].len()
            ==> {
            let c = #[trigger] spec_extract_urls(text)[i][k];
            &&& !is_ws(c)
            &&& !((c as u32) <= 0x1F)
            &&& c != '<' && c != '>' && c != '[' && c != ']' && c != '(' && c != ')' && c != '{' && c != '}'
            &&& c != '"' && c != '\''
            &&& c != '，' && c != '。' && c != '！' && c != '？' && c != '、' && c != '；' && c != '：'
            &&& c != '“' && c != '”' && c != '‘' && c != '’' && c != '【' && c != '】' && c != '《' && c != '》'
        },
{
    lemma_scan_links_chars(text, 0);
    let all = scan_links(text, 0);
    let r = spec_extract_urls(text);
    assert forall|i: int, k: int| 0 <= i < r.len() && 0 <= k < r[i].len() implies {
        let c = #[trigger] r[i][k];
        &&& !is_ws(c)
        &&& !((c as u32) <= 0x1F)
        &&& c != '<' && c != '>' && c != '[' && c != ']' && c != '(' && c != ')' && c != '{' && c != '}'
        &&& c != '"' && c != '\''
        &&& c != '，' && c != '。' && c != '！' && c != '？' && c != '、' && c != '；' && c != '：'
        &&& c != '“' && c != '”' && c != '‘' && c != '’' && c != '【' && c != '】' && c != '《' && c != '》'
    } by {
        assert(r[i] == all[i]);
        assert(is_link_char(all[i][k]));
    }
}

} // verus!
