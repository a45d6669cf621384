//! Character-sequence helpers shared by the parsers and the filename rules.

use vstd::prelude::*;
use vstd::string::StringExecFns;

verus! {

/// `t` occurs in `s` at position `i`.
pub open spec fn occurs_at(s: Seq<char>, t: Seq<char>, i: int) -> bool {
    0 <= i && i + t.len() <= s.len() && s.subrange(i, i + t.len()) =~= t
}

/// `t` occurs somewhere in `s`.
pub open spec fn contains_seq(s: Seq<char>, t: Seq<char>) -> bool {
    exists|i: int| occurs_at(s, t, i)
}

/// `s` begins with `t`.
pub open spec fn starts_with_seq(s: Seq<char>, t: Seq<char>) -> bool {
    occurs_at(s, t, 0)
}

/// `s` ends with `t`.
pub open spec fn ends_with_seq(s: Seq<char>, t: Seq<char>) -> bool {
    t.len() <= s.len() && occurs_at(s, t, s.len() - t.len())
}

/// The characters of a string slice, one per element.
pub(crate) fn chars_of(s: &str) -> (r: Vec<char>)
    ensures
        r@ == s@,
{
    broadcast use vstd::string::group_string_axioms;
    let mut out: Vec<char> = Vec::new();
    for c in it: s.chars()
        invariant
            it.seq() == s@,
            out@ == it.seq().take(it.index()),
    {
        out.push(c);
    }
    assert(s@.take(s@.len() as int) =~= s@);
    out
}

/// A string made of the given characters.
#[verifier::external_body]
pub(crate) fn string_of(v: &[char]) -> (r: String)
    ensures
        r@ == v@,
{
    v.iter().collect()
}

/// A string made of the characters `v[lo..hi]`.
pub fn string_of_range(v: &[char], lo: usize, hi: usize) -> (r: String)
    requires
        lo <= hi <= v@.len(),
    ensures
        r@ == v@.subrange(lo as int, hi as int),
{
    let mut out: Vec<char> = Vec::new();
    let mut k = lo;
    while k < hi
        invariant
            lo <= k <= hi <= v@.len(),
            out@ =~= v@.subrange(lo as int, k as int),
        decreases hi - k,
    {
        out.push(v[k]);
        k += 1;
    }
    string_of(out.as_slice())
}

/// Whether `t` occurs in `s` at position `i` (executable).
pub fn matches_at(s: &[char], t: &[char], i: usize) -> (r: bool)
    ensures
        r == occurs_at(s@, t@, i as int),
{
    if i > s.len() || t.len() > s.len() - i {
        return false;
    }
    let mut k: usize = 0;
    while k < t.len()
        invariant
            i + t.len() <= s.len(),
            k <= t.len(),
            forall|j: int| 0 <= j < k ==> s@[i + j] == t@[j],
        decreases t.len() - k,
    {
        if s[i + k] != t[k] {
            assert(s@.subrange(i as int, i + t.len())[k as int] != t@[k as int]);
            return false;
        }
        k += 1;
    }
    assert(s@.subrange(i as int, i + t@.len()) =~= t@);
    true
}

/// `i` is the first position at or after `from` where `t` occurs in `s`.
pub open spec fn is_first_occurrence(s: Seq<char>, t: Seq<char>, from: int, i: int) -> bool {
    &&& from <= i
    &&& occurs_at(s, t, i)
    &&& forall|j: int| from <= j < i ==> !occurs_at(s, t, j)
}

/// `t` does not occur in `s` at or after `from`.
pub open spec fn absent_from(s: Seq<char>, t: Seq<char>, from: int) -> bool {
    forall|j: int| from <= j ==> !occurs_at(s, t, j)
}

/// Searches `s` for `t`, starting at `from`.
pub fn find_from(s: &[char], t: &[char], from: usize) -> (r: Option<usize>)
    ensures
        match r {
            Some(i) => is_first_occurrence(s@, t@, from as int, i as int),
            None => absent_from(s@, t@, from as int),
        },
{
    if from > s.len() {
        return None;
    }
    let mut i = from;
    loop
        invariant
            from <= i <= s.len(),
            forall|j: int| from <= j < i ==> !occurs_at(s@, t@, j),
        decreases s.len() - i,
    {
        if matches_at(s, t, i) {
            return Some(i);
        }
        if i == s.len() {
            assert forall|j: int| from <= j implies !occurs_at(s@, t@, j) by {
                if j > i && occurs_at(s@, t@, j) {
                    assert(j + t@.len() <= s@.len());
                }
            }
            return None;
        }
        i += 1;
    }
}

/// Whether `t` occurs in `s`.
pub fn contains_chars(s: &[char], t: &[char]) -> (r: bool)
    ensures
        r == contains_seq(s@, t@),
{
    match find_from(s, t, 0) {
        Some(i) => true,
        None => {
            assert forall|j: int| !occurs_at(s@, t@, j) by {
                if j < 0 {
                } else {
                }
            }
            false
        },
    }
}

/// Whether two strings are equal.
pub fn str_eq(a: &str, b: &str) -> (r: bool)
    ensures
        r == (a@ == b@),
{
    let av = chars_of(a);
    let bv = chars_of(b);
    if av.len() != bv.len() {
        return false;
    }
    let r = matches_at(av.as_slice(), bv.as_slice(), 0);
    if r {
        assert(av@.subrange(0, av@.len() as int) =~= av@);
    }
    r
}

/// Whether the string `s` contains the string `t`.
pub fn str_contains(s: &str, t: &str) -> (r: bool)
    ensures
        r == contains_seq(s@, t@),
{
    let sv = chars_of(s);
    let tv = chars_of(t);
    contains_chars(sv.as_slice(), tv.as_slice())
}

/// Whether the string `s` begins with `t`.
pub fn str_starts_with(s: &str, t: &str) -> (r: bool)
    ensures
        r == starts_with_seq(s@, t@),
{
    let sv = chars_of(s);
    let tv = chars_of(t);
    matches_at(sv.as_slice(), tv.as_slice(), 0)
}

/// `a` followed by `b`.
pub fn concat_str(a: &str, b: &str) -> (r: String)
    ensures
        r@ == a@ + b@,
{
    let mut s = a.to_owned();
    s.append(b);
    s
}

/// An optional string with the same contents.
pub fn clone_opt_string(s: &Option<String>) -> (r: Option<String>)
    ensures
        r == *s,
{
    match s {
        Some(v) => Some(v.clone()),
        None => None,
    }
}

/// Unicode White_Space, as `char::is_whitespace` and the regex class `\s`
/// define it.
pub open spec fn is_ws(c: char) -> bool {
    let v = c as u32;
    (0x9 <= v && v <= 0xD) || v == 0x20 || v == 0x85 || v == 0xA0 || v == 0x1680
        || (0x2000 <= v && v <= 0x200A) || v == 0x2028 || v == 0x2029 || v == 0x202F
        || v == 0x205F || v == 0x3000
}

/// `char::is_whitespace`: Unicode White_Space.
pub fn is_whitespace(c: char) -> (r: bool)
    ensures
        r == is_ws(c),
{
    let v = c as u32;
    (0x9 <= v && v <= 0xD) || v == 0x20 || v == 0x85 || v == 0xA0 || v == 0x1680
        || (0x2000 <= v && v <= 0x200A) || v == 0x2028 || v == 0x2029 || v == 0x202F
        || v == 0x205F || v == 0x3000
}

/// The general category Cc (control codes), as `char::is_control` defines it.
pub open spec fn is_cc(c: char) -> bool {
    let v = c as u32;
    v <= 0x1F || (0x7F <= v && v <= 0x9F)
}

/// `char::is_control`: general category Cc.
pub fn is_control(c: char) -> (r: bool)
    ensures
        r == is_cc(c),
{
    let v = c as u32;
    v <= 0x1F || (0x7F <= v && v <= 0x9F)
}

/// The number of bytes of the UTF-8 encoding of `c`.
pub open spec fn char_byte_len(c: char) -> nat {
    let v = c as u32;
    if v < 0x80 { 1 } else if v < 0x800 { 2 } else if v < 0x10000 { 3 } else { 4 }
}

/// The number of bytes of the UTF-8 encoding of `s`.
pub open spec fn byte_len(s: Seq<char>) -> nat
    decreases s.len(),
{
    if s.len() == 0 {
        0
    } else {
        char_byte_len(s[0]) + byte_len(s.drop_first())
    }
}

/// `char::len_utf8`.
pub fn char_len_utf8(c: char) -> (r: usize)
    ensures
        r == char_byte_len(c),
{
    let v = c as u32;
    if v < 0x80 { 1 } else if v < 0x800 { 2 } else if v < 0x10000 { 3 } else { 4 }
}

/// The byte length agrees with vstd's UTF-8 encoding of the characters.
pub proof fn lemma_byte_len_is_encoding_len(s: Seq<char>)
    ensures
        byte_len(s) == vstd::utf8::encode_utf8(s).len(),
    decreases s.len(),
{
    if s.len() > 0 {
        vstd::utf8::char_is_scalar(s[0]);
        lemma_byte_len_is_encoding_len(s.drop_first());
    }
}

/// The byte length of a concatenation is the sum of the byte lengths.
pub proof fn lemma_byte_len_concat(a: Seq<char>, b: Seq<char>)
    ensures
        byte_len(a + b) == byte_len(a) + byte_len(b),
    decreases a.len(),
{
    if a.len() > 0 {
        assert((a + b).drop_first() =~= a.drop_first() + b);
        lemma_byte_len_concat(a.drop_first(), b);
    } else {
        assert(a + b =~= b);
    }
}

/// A prefix is no longer in bytes than the whole.
pub proof fn lemma_byte_len_prefix(s: Seq<char>, k: int)
    requires
        0 <= k <= s.len(),
    ensures
        byte_len(s.take(k)) <= byte_len(s),
{
    lemma_byte_len_concat(s.take(k), s.skip(k));
    assert(s.take(k) + s.skip(k) =~= s);
}

/// The byte length of a string's prefix extended by one character.
pub proof fn lemma_byte_len_push(a: Seq<char>, c: char)
    ensures
        byte_len(a.push(c)) == byte_len(a) + char_byte_len(c),
{
    lemma_byte_len_concat(a, seq![c]);
    assert(a.push(c) =~= a + seq![c]);
    assert(seq![c].drop_first() =~= Seq::<char>::empty());
    assert(byte_len(Seq::<char>::empty()) == 0);
    assert(byte_len(seq![c]) == char_byte_len(c) + byte_len(seq![c].drop_first()));
}

/// `s` without its trailing Unicode whitespace.
pub open spec fn trim_ws_end(s: Seq<char>) -> Seq<char>
    decreases s.len(),
{
    if s.len() > 0 && is_ws(s.last()) {
        trim_ws_end(s.drop_last())
    } else {
        s
    }
}

/// `s` without its leading Unicode whitespace.
pub open spec fn trim_ws_start(s: Seq<char>) -> Seq<char>
    decreases s.len(),
{
    if s.len() > 0 && is_ws(s[0]) {
        trim_ws_start(s.drop_first())
    } else {
        s
    }
}

/// `str::trim`: `s` without leading and trailing Unicode whitespace.
pub open spec fn trim_ws(s: Seq<char>) -> Seq<char> {
    trim_ws_start(trim_ws_end(s))
}

/// `str::trim`.
pub fn trim(s: &str) -> (r: String)
    ensures
        r@ == trim_ws(s@),
{
    let chars = chars_of(s);
    let ghost cs = chars@;
    let mut end = chars.len();
    assert(cs.take(end as int) =~= cs);
    while end > 0 && is_whitespace(chars[end - 1])
        invariant
            end <= cs.len(),
            chars@ == cs,
            trim_ws_end(cs.take(end as int)) == trim_ws_end(cs),
        decreases end,
    {
        assert(cs.take(end as int).drop_last() =~= cs.take(end - 1));
        end -= 1;
    }
    assert(trim_ws_end(cs.take(end as int)) == cs.take(end as int));
    let mut start: usize = 0;
    while start < end && is_whitespace(chars[start])
        invariant
            start <= end <= cs.len(),
            chars@ == cs,
            trim_ws_start(cs.subrange(start as int, end as int)) == trim_ws_start(cs.take(end as int)),
        decreases end - start,
    {
        assert(cs.subrange(start as int, end as int).drop_first() =~= cs.subrange(start + 1, end as int));
        start += 1;
    }
    assert(cs.subrange(0, end as int) =~= cs.take(end as int));
    string_of_range(chars.as_slice(), start, end)
}

/// `s` with every trailing repetition of `suffix` removed
/// (`str::trim_end_matches` with a string pattern).
pub open spec fn trim_suffix_all(s: Seq<char>, suffix: Seq<char>) -> Seq<char>
    decreases s.len(),
{
    if suffix.len() > 0 && ends_with_seq(s, suffix) {
        trim_suffix_all(s.take(s.len() - suffix.len()), suffix)
    } else {
        s
    }
}

/// Whether `t` is non-empty and ends the first `end` characters of `s`.
fn ends_at(s: &[char], t: &[char], end: usize) -> (r: bool)
    requires
        end <= s@.len(),
    ensures
        r == (t@.len() > 0 && ends_with_seq(s@.take(end as int), t@)),
{
    if t.len() == 0 || end < t.len() {
        return false;
    }
    let hit = matches_at(s, t, end - t.len());
    assert(s@.take(end as int).subrange(end - t@.len(), end as int) =~= s@.subrange(end - t@.len(), end as int));
    hit
}

/// `str::trim_end_matches` with a string pattern.
pub fn trim_end_matches(s: &str, suffix: &str) -> (r: String)
    ensures
        r@ == trim_suffix_all(s@, suffix@),
{
    let chars = chars_of(s);
    let pat = chars_of(suffix);
    let ghost cs = chars@;
    let ghost ps = pat@;
    let mut end = chars.len();
    assert(cs.take(end as int) =~= cs);
    while ends_at(chars.as_slice(), pat.as_slice(), end)
        invariant
            end <= cs.len(),
            chars@ == cs,
            pat@ == ps,
            trim_suffix_all(cs.take(end as int), ps) == trim_suffix_all(cs, ps),
        decreases end,
    {
        assert(cs.take(end as int).take(end - ps.len()) =~= cs.take(end - ps.len()));
        end -= pat.len();
    }
    assert(cs.subrange(0, end as int) =~= cs.take(end as int));
    string_of_range(chars.as_slice(), 0, end)
}

/// `s` with every occurrence of `pat`, found left to right without overlap,
/// replaced by `rep` (`str::replace` with string patterns, `pat` non-empty).
pub open spec fn replace_all(s: Seq<char>, pat: Seq<char>, rep: Seq<char>) -> Seq<char>
    decreases s.len(),
{
    if s.len() == 0 {
        Seq::empty()
    } else if pat.len() > 0 && starts_with_seq(s, pat) {
        rep + replace_all(s.skip(pat.len() as int), pat, rep)
    } else {
        seq![s[0]] + replace_all(s.drop_first(), pat, rep)
    }
}

/// `str::replace` with a non-empty string pattern.
pub fn replace_str(s: &str, pat: &str, rep: &str) -> (r: String)
    requires
        pat@.len() > 0,
    ensures
        r@ == replace_all(s@, pat@, rep@),
{
    let chars = chars_of(s);
    let pv = chars_of(pat);
    let rv = chars_of(rep);
    let ghost cs = chars@;
    let mut out: Vec<char> = Vec::new();
    let mut i: usize = 0;
    assert(cs.skip(0) =~= cs);
    assert(out@ + replace_all(cs, pat@, rep@) =~= replace_all(cs, pat@, rep@));
    while i < chars.len()
        invariant
            i <= cs.len(),
            chars@ == cs,
            pv@ == pat@,
            rv@ == rep@,
            pat@.len() > 0,
            out@ + replace_all(cs.skip(i as int), pat@, rep@) == replace_all(cs, pat@, rep@),
        decreases cs.len() - i,
    {
        let ghost rest = cs.skip(i as int);
        let hit = matches_at(chars.as_slice(), pv.as_slice(), i);
        assert(rest.len() > 0);
        if hit {
            assert(rest.subrange(0, pat@.len() as int) =~= cs.subrange(i as int, i + pat@.len()));
            assert(starts_with_seq(rest, pat@));
            assert(rest.skip(pat@.len() as int) =~= cs.skip(i + pat@.len()));
            let mut k: usize = 0;
            let ghost before = out@;
            while k < rv.len()
                invariant
                    k <= rv@.len(),
                    out@ == before + rv@.take(k as int),
                decreases rv@.len() - k,
            {
                out.push(rv[k]);
                assert(rv@.take(k + 1) =~= rv@.take(k as int).push(rv@[k as int]));
                k += 1;
            }
            assert(rv@.take(k as int) =~= rv@);
            assert(out@ + replace_all(cs.skip(i + pat@.len()), pat@, rep@) =~= before + (rep@ + replace_all(rest.skip(pat@.len() as int), pat@, rep@)));
            i += pv.len();
        } else {
            proof {
                if i + pat@.len() <= cs.len() {
                    assert(rest.subrange(0, pat@.len() as int) =~= cs.subrange(i as int, i + pat@.len()));
                }
            }
            assert(!starts_with_seq(rest, pat@));
            assert(rest.drop_first() =~= cs.skip(i + 1));
            let ghost before = out@;
            out.push(chars[i]);
            assert(out@ + replace_all(cs.skip(i + 1), pat@, rep@) =~= before + (seq![cs[i as int]] + replace_all(rest.drop_first(), pat@, rep@)));
            i += 1;
        }
    }
    assert(cs.skip(i as int) =~= Seq::<char>::empty());
    assert(out@ + Seq::<char>::empty() =~= out@);
    string_of(out.as_slice())
}

/// The position of the first occurrence of `t` in `s` (meaningful where `t`
/// occurs in `s`).
pub open spec fn first_index(s: Seq<char>, t: Seq<char>) -> int {
    choose|i: int| is_first_occurrence(s, t, 0, i)
}

/// A first occurrence is the first occurrence.
pub proof fn lemma_first_index(s: Seq<char>, t: Seq<char>, i: int)
    requires
        is_first_occurrence(s, t, 0, i),
    ensures
        first_index(s, t) == i,
        contains_seq(s, t),
{
    let j = first_index(s, t);
    assert(is_first_occurrence(s, t, 0, j));
    if j < i {
        assert(!occurs_at(s, t, j));
    }
    if i < j {
        assert(!occurs_at(s, t, i));
    }
}

/// Where `t` occurs in `s`, the position of its first occurrence.
pub fn find_str(s: &[char], t: &[char]) -> (r: Option<usize>)
    ensures
        match r {
            Some(i) => contains_seq(s@, t@) && i == first_index(s@, t@)
                && is_first_occurrence(s@, t@, 0, i as int),
            None => !contains_seq(s@, t@),
        },
{
    match find_from(s, t, 0) {
        Some(i) => {
            proof {
                lemma_first_index(s@, t@, i as int);
            }
            Some(i)
        },
        None => {
            assert forall|j: int| !occurs_at(s@, t@, j) by {
                if j >= 0 {
                }
            }
            None
        },
    }
}

/// The part of `s` before the first `c` (all of `s` where `c` does not
/// occur): what `split(c).next()` gives.
pub open spec fn before_char(s: Seq<char>, c: char) -> Seq<char>
    decreases s.len(),
{
    if s.len() == 0 || s[0] == c {
        Seq::empty()
    } else {
        seq![s[0]] + before_char(s.drop_first(), c)
    }
}

/// The end of `before_char(v[lo..hi], c)`, as a position in `v`.
pub fn before_char_end(v: &[char], lo: usize, hi: usize, c: char) -> (r: usize)
    requires
        lo <= hi <= v@.len(),
    ensures
        lo <= r <= hi,
        v@.subrange(lo as int, r as int) == before_char(v@.subrange(lo as int, hi as int), c),
{
    let mut k = lo;
    while k < hi && v[k] != c
        invariant
            lo <= k <= hi <= v@.len(),
            before_char(v@.subrange(lo as int, hi as int), c)
                == v@.subrange(lo as int, k as int) + before_char(v@.subrange(k as int, hi as int), c),
        decreases hi - k,
    {
        assert(v@.subrange(k as int, hi as int).drop_first() =~= v@.subrange(k + 1, hi as int));
        assert(v@.subrange(lo as int, k + 1) =~= v@.subrange(lo as int, k as int) + seq![v@[k as int]]);
        k += 1;
    }
    assert(before_char(v@.subrange(k as int, hi as int), c) =~= Seq::<char>::empty());
    assert(v@.subrange(lo as int, k as int) + Seq::<char>::empty() =~= v@.subrange(lo as int, k as int));
    k
}

/// Whether the literal `t` occurs in the characters `s`.
pub fn contains_lit(s: &[char], t: &str) -> (r: bool)
    ensures
        r == contains_seq(s@, t@),
{
    let tv = chars_of(t);
    contains_chars(s, tv.as_slice())
}

/// The first occurrence after `lo` is the first occurrence in what follows
/// `lo`.
pub proof fn lemma_first_occurrence_skip(s: Seq<char>, t: Seq<char>, lo: int, j: int)
    requires
        0 <= lo <= s.len(),
        is_first_occurrence(s, t, lo, j),
    ensures
        contains_seq(s.skip(lo), t),
        first_index(s.skip(lo), t) == j - lo,
{
    let r = s.skip(lo);
    assert(r.subrange(j - lo, j - lo + t.len()) =~= s.subrange(j, j + t.len()));
    assert(occurs_at(r, t, j - lo));
    assert forall|k: int| 0 <= k < j - lo implies !occurs_at(r, t, k) by {
        if occurs_at(r, t, k) {
            assert(r.subrange(k, k + t.len()) =~= s.subrange(k + lo, k + lo + t.len()));
            assert(occurs_at(s, t, k + lo));
        }
    }
    lemma_first_index(r, t, j - lo);
}

/// No occurrence after `lo` means no occurrence in what follows `lo`.
pub proof fn lemma_absent_skip(s: Seq<char>, t: Seq<char>, lo: int)
    requires
        0 <= lo <= s.len(),
        absent_from(s, t, lo),
    ensures
        !contains_seq(s.skip(lo), t),
{
    let r = s.skip(lo);
    assert forall|k: int| !occurs_at(r, t, k) by {
        if occurs_at(r, t, k) {
            assert(r.subrange(k, k + t.len()) =~= s.subrange(k + lo, k + lo + t.len()));
            assert(occurs_at(s, t, k + lo));
        }
    }
}

/// The first occurrence of `t` in `s[lo..]`, as a position in `s`.
pub fn find_after(s: &[char], t: &[char], lo: usize) -> (r: Option<usize>)
    requires
        lo <= s@.len(),
    ensures
        match r {
            Some(j) => lo <= j && j + t@.len() <= s@.len() && contains_seq(s@.skip(lo as int), t@)
                && first_index(s@.skip(lo as int), t@) == j - lo,
            None => !contains_seq(s@.skip(lo as int), t@),
        },
{
    match find_from(s, t, lo) {
        Some(j) => {
            proof {
                lemma_first_occurrence_skip(s@, t@, lo as int, j as int);
            }
            Some(j)
        },
        None => {
            proof {
                lemma_absent_skip(s@, t@, lo as int);
            }
            None
        },
    }
}

/// Whether `t` occurs within `s[lo..hi]`.
pub fn contains_in(s: &[char], t: &[char], lo: usize, hi: usize) -> (r: bool)
    requires
        lo <= hi <= s@.len(),
    ensures
        r == contains_seq(s@.subrange(lo as int, hi as int), t@),
{
    let ghost sub = s@.subrange(lo as int, hi as int);
    if t.len() > hi - lo {
        return false;
    }
    let mut i = lo;
    while t.len() <= hi - i
        invariant
            lo <= i <= hi <= s@.len(),
            t@.len() <= hi - lo,
            sub == s@.subrange(lo as int, hi as int),
            forall|k: int| 0 <= k < i - lo ==> !occurs_at(sub, t@, k),
        decreases hi - i,
    {
        if matches_at(s, t, i) {
            assert(sub.subrange(i - lo, i - lo + t@.len()) =~= s@.subrange(i as int, i + t@.len()));
            assert(occurs_at(sub, t@, i - lo));
            return true;
        }
        proof {
            if occurs_at(sub, t@, i - lo) {
                assert(sub.subrange(i - lo, i - lo + t@.len()) =~= s@.subrange(i as int, i + t@.len()));
            }
            if t@.len() == 0 {
                assert(s@.subrange(i as int, i as int) =~= t@);
            }
        }
        i += 1;
    }
    assert forall|k: int| !occurs_at(sub, t@, k) by {
        if 0 <= k < i - lo {
        }
    }
    false
}

/// The length of `s` in bytes of UTF-8 (`str::len`), saturating at
/// `usize::MAX`.
pub fn utf8_len(s: &str) -> (r: usize)
    ensures
        r == byte_len(s@) || (r == usize::MAX && byte_len(s@) >= usize::MAX),
{
    let chars = chars_of(s);
    let mut total: usize = 0;
    let mut i: usize = 0;
    while i < chars.len()
        invariant
            i <= chars@.len(),
            chars@ == s@,
            total == byte_len(chars@.take(i as int)),
        decreases chars.len() - i,
    {
        let c = char_len_utf8(chars[i]);
        proof {
            assert(chars@.take(i + 1) =~= chars@.take(i as int).push(chars@[i as int]));
            lemma_byte_len_push(chars@.take(i as int), chars@[i as int]);
        }
        if total > usize::MAX - c {
            proof {
                lemma_byte_len_prefix(chars@, i + 1);
                assert(chars@.take(chars@.len() as int) =~= chars@);
            }
            return usize::MAX;
        }
        total = total + c;
        i += 1;
    }
    assert(chars@.take(chars@.len() as int) =~= chars@);
    total
}

/// The decimal digit `d` as a character.
pub open spec fn digit_char(d: nat) -> char {
    if d == 0 { '0' } else if d == 1 { '1' } else if d == 2 { '2' } else if d == 3 { '3' }
    else if d == 4 { '4' } else if d == 5 { '5' } else if d == 6 { '6' } else if d == 7 { '7' }
    else if d == 8 { '8' } else { '9' }
}

/// The decimal representation of `n` (what `format!("{}", n)` prints).
pub open spec fn decimal_chars(n: nat) -> Seq<char>
    decreases n,
{
    if n < 10 {
        seq![digit_char(n)]
    } else {
        decimal_chars(n / 10).push(digit_char(n % 10))
    }
}

fn digit_to_char(d: u64) -> (c: char)
    requires
        d < 10,
    ensures
        c == digit_char(d as nat),
{
    if d == 0 { '0' } else if d == 1 { '1' } else if d == 2 { '2' } else if d == 3 { '3' }
    else if d == 4 { '4' } else if d == 5 { '5' } else if d == 6 { '6' } else if d == 7 { '7' }
    else if d == 8 { '8' } else { '9' }
}

fn decimal_vec(n: u64) -> (r: Vec<char>)
    ensures
        r@ == decimal_chars(n as nat),
    decreases n,
{
    if n < 10 {
        let mut v: Vec<char> = Vec::new();
        v.push(digit_to_char(n));
        assert(v@ =~= seq![digit_char(n as nat)]);
        v
    } else {
        let mut v = decimal_vec(n / 10);
        v.push(digit_to_char(n % 10));
        v
    }
}

/// The decimal representation of `n`.
pub fn u64_to_decimal(n: u64) -> (r: String)
    ensures
        r@ == decimal_chars(n as nat),
{
    let v = decimal_vec(n);
    string_of(v.as_slice())
}

/// An ASCII decimal digit.
pub open spec fn is_ascii_digit(c: char) -> bool {
    '0' <= c && c <= '9'
}

/// The number that a string of ASCII decimal digits spells.
pub open spec fn decimal_value(d: Seq<char>) -> int
    decreases d.len(),
{
    if d.len() == 0 {
        0
    } else {
        decimal_value(d.drop_last()) * 10 + (d.last() as u32 - 48)
    }
}

pub proof fn lemma_decimal_nonneg(d: Seq<char>)
    requires
        forall|i: int| 0 <= i < d.len() ==> is_ascii_digit(#[trigger] d[i]),
    ensures
        decimal_value(d) >= 0,
    decreases d.len(),
{
    if d.len() > 0 {
        assert(is_ascii_digit(d[d.len() - 1]));
        lemma_decimal_nonneg(d.drop_last());
    }
}

pub proof fn lemma_decimal_monotone(d: Seq<char>, k: int)
    requires
        0 <= k <= d.len(),
        forall|i: int| 0 <= i < d.len() ==> is_ascii_digit(#[trigger] d[i]),
    ensures
        decimal_value(d.take(k)) <= decimal_value(d),
    decreases d.len(),
{
    if k < d.len() {
        let e = d.drop_last();
        assert forall|i: int| 0 <= i < e.len() implies is_ascii_digit(#[trigger] e[i]) by {
            assert(e[i] == d[i]);
        }
        lemma_decimal_monotone(e, k);
        assert(e.take(k) =~= d.take(k));
        lemma_decimal_nonneg(e);
        assert(is_ascii_digit(d[d.len() - 1]));
    } else {
        assert(d.take(k) =~= d);
    }
}

pub fn digit_value(c: char) -> (r: u64)
    requires
        is_ascii_digit(c),
    ensures
        r == c as u32 - 48,
{
    let v = c as u32;
    (v - 48) as u64
}

} // verus!
