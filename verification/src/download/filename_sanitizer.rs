//! Filename rules that hold on Windows, Android and iOS filesystems.

use vstd::prelude::*;
use crate::text::{
    byte_len, char_byte_len, char_len_utf8, chars_of, concat_str, is_cc, is_control, is_whitespace, is_ws,
    lemma_byte_len_concat, lemma_byte_len_prefix, string_of_range, utf8_len,
    decimal_chars, str_eq, u64_to_decimal,
};

verus! {

/// Maximum filename length in UTF-8 bytes.
pub const MAX_FILENAME_BYTES: usize = 180;

/// Characters invalid on Windows, Android, or iOS filesystems.
pub open spec fn is_invalid_filename_char(c: char) -> bool {
    c == '<' || c == '>' || c == ':' || c == '"' || c == '/' || c == '\\' || c == '|' || c == '?'
        || c == '*'
}

/// A character as it stands in a sanitized name: control characters and
/// invalid filesystem characters become `_`.
pub open spec fn clean_char(c: char) -> char {
    if is_cc(c) || is_invalid_filename_char(c) { '_' } else { c }
}

/// Every character of `s` cleaned.
pub open spec fn clean_seq(s: Seq<char>) -> Seq<char> {
    s.map_values(|c: char| clean_char(c))
}

/// `s` without its trailing dots and spaces.
pub open spec fn trim_end_dots_spaces(s: Seq<char>) -> Seq<char>
    decreases s.len(),
{
    if s.len() > 0 && (s.last() == '.' || s.last() == ' ') {
        trim_end_dots_spaces(s.drop_last())
    } else {
        s
    }
}

/// `s` without its leading Unicode whitespace.
pub open spec fn trim_start_ws(s: Seq<char>) -> Seq<char>
    decreases s.len(),
{
    if s.len() > 0 && is_ws(s[0]) {
        trim_start_ws(s.drop_first())
    } else {
        s
    }
}

/// Every character of `s` is whitespace (so `s.trim()` is empty).
pub open spec fn all_ws(s: Seq<char>) -> bool {
    forall|i: int| 0 <= i < s.len() ==> is_ws(#[trigger] s[i])
}

/// The view of an optional string slice.
pub open spec fn opt_view(e: Option<&str>) -> Option<Seq<char>> {
    match e {
        Some(s) => Some(s@),
        None => None,
    }
}

/// The extension suffix: `.ext` for a non-empty extension, else nothing.
pub open spec fn ext_part(ext: Option<Seq<char>>) -> Seq<char> {
    match ext {
        Some(e) => if e.len() > 0 { "."@ + e } else { Seq::empty() },
        None => Seq::empty(),
    }
}

/// A base name with an optional extension.
pub open spec fn spec_with_extension(base: Seq<char>, ext: Option<Seq<char>>) -> Seq<char> {
    base + ext_part(ext)
}

/// How many leading characters of `s`, counting from `k` with `used` bytes
/// already taken, fit within `budget` bytes.
pub open spec fn fit_count(s: Seq<char>, budget: int, k: int, used: int) -> int
    decreases s.len() - k,
{
    if k < 0 || k >= s.len() || used + char_byte_len(s[k]) > budget {
        k
    } else {
        fit_count(s, budget, k + 1, used + char_byte_len(s[k]))
    }
}

/// The longest prefix of `s` whose UTF-8 encoding fits within `budget` bytes.
pub open spec fn prefix_within(s: Seq<char>, budget: int) -> Seq<char> {
    s.take(fit_count(s, budget, 0, 0))
}

/// The bytes left for the name once the extension suffix is counted.
pub open spec fn name_budget(ext: Option<Seq<char>>) -> int {
    let e = byte_len(ext_part(ext));
    if e >= MAX_FILENAME_BYTES { 0 } else { MAX_FILENAME_BYTES - e }
}

/// `name` cut to fit within `MAX_FILENAME_BYTES` together with the
/// extension suffix: kept whole when it fits; otherwise its longest fitting
/// prefix, without trailing dots and spaces.
pub open spec fn spec_truncate(name: Seq<char>, ext: Option<Seq<char>>) -> Seq<char> {
    if byte_len(name) <= name_budget(ext) {
        name + ext_part(ext)
    } else {
        trim_end_dots_spaces(prefix_within(name, name_budget(ext))) + ext_part(ext)
    }
}

/// The sanitized filename:
/// - whitespace-only input gives `untitled`;
/// - control and invalid characters become `_`;
/// - trailing dots and spaces, then leading whitespace, are trimmed;
/// - the name is cut to the byte limit with the extension kept;
/// - what sanitizes to nothing gives `untitled`.
pub open spec fn spec_sanitize(input: Seq<char>, ext: Option<Seq<char>>) -> Seq<char> {
    if all_ws(input) {
        spec_with_extension("untitled"@, ext)
    } else {
        let t = trim_start_ws(trim_end_dots_spaces(clean_seq(input)));
        if t.len() == 0 {
            spec_with_extension("untitled"@, ext)
        } else {
            let r = spec_truncate(t, ext);
            if r.len() == 0 {
                spec_with_extension("untitled"@, ext)
            } else {
                r
            }
        }
    }
}

/// Format a base name with an optional extension.
pub fn format_with_extension(base: &str, extension: Option<&str>) -> (r: String)
    ensures
        r@ == spec_with_extension(base@, opt_view(extension)),
{
    proof {
        reveal_strlit(".");
    }
    match extension {
        Some(ext) => {
            if !ext.is_empty() {
                let a = concat_str(base, ".");
                concat_str(a.as_str(), ext)
            } else {
                assert(base@ + Seq::<char>::empty() =~= base@);
                base.to_owned()
            }
        },
        None => {
            assert(base@ + Seq::<char>::empty() =~= base@);
            base.to_owned()
        },
    }
}

/// The extension suffix as a string.
fn ext_suffix(extension: Option<&str>) -> (r: String)
    ensures
        r@ == ext_part(opt_view(extension)),
{
    proof {
        reveal_strlit(".");
    }
    match extension {
        Some(ext) => {
            if !ext.is_empty() {
                concat_str(".", ext)
            } else {
                String::new()
            }
        },
        None => String::new(),
    }
}

fn fitting_prefix_len(chars: &[char], budget: usize) -> (k: usize)
    requires
        budget <= MAX_FILENAME_BYTES,
    ensures
        k == fit_count(chars@, budget as int, 0, 0),
        k <= chars@.len(),
{
    let mut k: usize = 0;
    let mut used: usize = 0;
    while k < chars.len()
        invariant
            k <= chars@.len(),
            used <= budget <= MAX_FILENAME_BYTES,
            fit_count(chars@, budget as int, 0, 0) == fit_count(chars@, budget as int, k as int, used as int),
        decreases chars.len() - k,
    {
        let c_len = char_len_utf8(chars[k]);
        if used + c_len > budget {
            return k;
        }
        used = used + c_len;
        k += 1;
    }
    k
}

/// Truncate a string to fit within `MAX_FILENAME_BYTES`, preserving the
/// extension.
pub fn truncate_to_max_bytes(name: &str, extension: Option<&str>) -> (r: String)
    ensures
        r@ == spec_truncate(name@, opt_view(extension)),
{
    let ext_part = ext_suffix(extension);
    let ext_bytes = utf8_len(ext_part.as_str());
    let available_bytes = MAX_FILENAME_BYTES.saturating_sub(ext_bytes);
    assert(available_bytes == name_budget(opt_view(extension)));
    if utf8_len(name) <= available_bytes {
        return concat_str(name, ext_part.as_str());
    }
    let chars = chars_of(name);
    let ghost s = chars@;
    let k = fitting_prefix_len(chars.as_slice(), available_bytes);
    let mut end = k;
    while end > 0 && (chars[end - 1] == '.' || chars[end - 1] == ' ')
        invariant
            end <= k <= chars@.len(),
            s == chars@,
            trim_end_dots_spaces(s.take(k as int)) == trim_end_dots_spaces(s.take(end as int)),
        decreases end,
    {
        assert(s.take(end as int).drop_last() =~= s.take(end - 1));
        end -= 1;
    }
    assert(trim_end_dots_spaces(s.take(end as int)) == s.take(end as int));
    let truncated = string_of_range(chars.as_slice(), 0, end);
    assert(chars@.subrange(0, end as int) =~= s.take(end as int));
    concat_str(truncated.as_str(), ext_part.as_str())
}

fn is_all_whitespace(chars: &Vec<char>) -> (r: bool)
    ensures
        r == all_ws(chars@),
{
    let mut i: usize = 0;
    while i < chars.len()
        invariant
            i <= chars@.len(),
            forall|j: int| 0 <= j < i ==> is_ws(#[trigger] chars@[j]),
        decreases chars.len() - i,
    {
        if !is_whitespace(chars[i]) {
            return false;
        }
        i += 1;
    }
    true
}

fn clean_chars(chars: &Vec<char>) -> (r: Vec<char>)
    ensures
        r@ == clean_seq(chars@),
{
    let mut out: Vec<char> = Vec::new();
    let mut i: usize = 0;
    while i < chars.len()
        invariant
            i <= chars@.len(),
            out@ =~= clean_seq(chars@.take(i as int)),
        decreases chars.len() - i,
    {
        let c = chars[i];
        let d = if is_control(c) || c == '<' || c == '>' || c == ':' || c == '"' || c == '/'
            || c == '\\' || c == '|' || c == '?' || c == '*' {
            '_'
        } else {
            c
        };
        out.push(d);
        assert(chars@.take(i + 1) =~= chars@.take(i as int).push(c));
        i += 1;
    }
    assert(chars@.take(chars@.len() as int) =~= chars@);
    out
}

/// Sanitize a filename for safe use across Windows, Android, and iOS (see
/// `spec_sanitize`). The result always ends with the extension suffix, and
/// fits in `MAX_FILENAME_BYTES` bytes whenever the `untitled` fallback does.
pub fn sanitize(input: &str, extension: Option<&str>) -> (r: String)
    ensures
        r@ == spec_sanitize(input@, opt_view(extension)),
{
    let chars = chars_of(input);
    if is_all_whitespace(&chars) {
        return format_with_extension("untitled", extension);
    }
    let cleaned = clean_chars(&chars);
    let ghost cs = cleaned@;
    let mut end = cleaned.len();
    assert(cs.take(cs.len() as int) =~= cs);
    while end > 0 && (cleaned[end - 1] == '.' || cleaned[end - 1] == ' ')
        invariant
            end <= cleaned@.len(),
            cs == cleaned@,
            trim_end_dots_spaces(cs) == trim_end_dots_spaces(cs.take(end as int)),
        decreases end,
    {
        assert(cs.take(end as int).drop_last() =~= cs.take(end - 1));
        end -= 1;
    }
    assert(cs.take(cs.len() as int) =~= cs);
    let ghost te = cs.take(end as int);
    assert(trim_end_dots_spaces(te) == te);
    let mut start: usize = 0;
    assert(te.subrange(0, end as int) =~= te);
    while start < end && is_whitespace(cleaned[start])
        invariant
            start <= end <= cleaned@.len(),
            cs == cleaned@,
            te == cs.take(end as int),
            trim_start_ws(te) == trim_start_ws(te.subrange(start as int, end as int)),
        decreases end - start,
    {
        assert(te.subrange(start as int, end as int).drop_first() =~= te.subrange(start + 1, end as int));
        start += 1;
    }
    assert(te.subrange(0, end as int) =~= te);
    let ghost t = te.subrange(start as int, end as int);
    assert(trim_start_ws(t) == t);
    if start == end {
        return format_with_extension("untitled", extension);
    }
    let trimmed = string_of_range(cleaned.as_slice(), start, end);
    assert(trimmed@ =~= t);
    let result = truncate_to_max_bytes(trimmed.as_str(), extension);
    if result.as_str().is_empty() {
        format_with_extension("untitled", extension)
    } else {
        result
    }
}

// ---------------------------------------------------------------------------
// Laws
// ---------------------------------------------------------------------------

proof fn lemma_trim_end_shape(s: Seq<char>)
    ensures
        trim_end_dots_spaces(s).len() <= s.len(),
        trim_end_dots_spaces(s) == s.take(trim_end_dots_spaces(s).len() as int),
        trim_end_dots_spaces(s).len() > 0 ==> trim_end_dots_spaces(s).last() != '.'
            && trim_end_dots_spaces(s).last() != ' ',
    decreases s.len(),
{
    if s.len() > 0 && (s.last() == '.' || s.last() == ' ') {
        lemma_trim_end_shape(s.drop_last());
        let r = trim_end_dots_spaces(s.drop_last());
        assert(s.drop_last().take(r.len() as int) =~= s.take(r.len() as int));
    } else {
        assert(s.take(s.len() as int) =~= s);
    }
}

proof fn lemma_trim_start_shape(s: Seq<char>)
    ensures
        trim_start_ws(s).len() <= s.len(),
        trim_start_ws(s) == s.skip(s.len() - trim_start_ws(s).len()),
        trim_start_ws(s).len() > 0 ==> !is_ws(trim_start_ws(s)[0]),
    decreases s.len(),
{
    if s.len() > 0 && is_ws(s[0]) {
        lemma_trim_start_shape(s.drop_first());
        let r = trim_start_ws(s.drop_first());
        assert(s.drop_first().skip(s.drop_first().len() - r.len()) =~= s.skip(s.len() - r.len()));
    } else {
        assert(s.skip(0) =~= s);
    }
}

proof fn lemma_fit_count_bound(s: Seq<char>, budget: int, k: int, used: int)
    requires
        0 <= k <= s.len(),
        0 <= used <= budget,
    ensures
        k <= fit_count(s, budget, k, used) <= s.len(),
        used + byte_len(s.subrange(k, fit_count(s, budget, k, used))) <= budget,
    decreases s.len() - k,
{
    if k >= s.len() || used + char_byte_len(s[k]) > budget {
        assert(s.subrange(k, k) =~= Seq::<char>::empty());
    } else {
        lemma_fit_count_bound(s, budget, k + 1, used + char_byte_len(s[k]));
        let m = fit_count(s, budget, k + 1, used + char_byte_len(s[k]));
        assert(s.subrange(k, m).drop_first() =~= s.subrange(k + 1, m));
    }
}

proof fn lemma_prefix_within_bound(s: Seq<char>, budget: int)
    requires
        budget >= 0,
    ensures
        byte_len(prefix_within(s, budget)) <= budget,
        prefix_within(s, budget).len() <= s.len(),
        prefix_within(s, budget) == s.take(prefix_within(s, budget).len() as int),
{
    lemma_fit_count_bound(s, budget, 0, 0);
    let m = fit_count(s, budget, 0, 0);
    assert(s.subrange(0, m) =~= s.take(m));
}

/// A name that sanitizing leaves as it is: non-empty, not starting with
/// whitespace, free of control and invalid characters, not ending with a
/// dot or a space, and within the byte budget.
pub open spec fn settled_name(x: Seq<char>, ext: Option<Seq<char>>) -> bool {
    &&& x.len() > 0
    &&& !is_ws(x[0])
    &&& forall|i: int| 0 <= i < x.len() ==> clean_char(#[trigger] x[i]) == x[i]
    &&& x.last() != '.'
    &&& x.last() != ' '
    &&& byte_len(x) <= name_budget(ext)
}

proof fn lemma_settled_is_fixed(x: Seq<char>, ext: Option<Seq<char>>)
    requires
        settled_name(x, ext),
    ensures
        spec_sanitize(x, ext) == x + ext_part(ext),
{
    assert(!all_ws(x)) by {
        assert(!is_ws(x[0]));
    }
    assert(clean_seq(x) =~= x);
    assert(trim_end_dots_spaces(x) == x);
    assert(trim_start_ws(x) == x);
}

proof fn lemma_untitled_settled(ext: Option<Seq<char>>)
    requires
        byte_len(ext_part(ext)) + 8 <= MAX_FILENAME_BYTES,
    ensures
        settled_name("untitled"@, ext),
{
    reveal_strlit("untitled");
    let u = "untitled"@;
    assert(u.len() == 8);
    reveal_with_fuel(byte_len, 9);
    assert(byte_len(u) == 8);
}

/// The stem that `spec_sanitize` puts before the extension suffix.
pub open spec fn sanitized_stem(input: Seq<char>, ext: Option<Seq<char>>) -> Seq<char> {
    if all_ws(input) {
        "untitled"@
    } else {
        let t = trim_start_ws(trim_end_dots_spaces(clean_seq(input)));
        if t.len() == 0 {
            "untitled"@
        } else if byte_len(t) <= name_budget(ext) {
            t
        } else {
            let p = trim_end_dots_spaces(prefix_within(t, name_budget(ext)));
            if p.len() + ext_part(ext).len() == 0 {
                "untitled"@
            } else {
                p
            }
        }
    }
}

proof fn lemma_stem_shape(input: Seq<char>, ext: Option<Seq<char>>)
    requires
        byte_len(ext_part(ext)) + 8 <= MAX_FILENAME_BYTES,
    ensures
        spec_sanitize(input, ext) == sanitized_stem(input, ext) + ext_part(ext),
        sanitized_stem(input, ext).len() > 0 ==> settled_name(sanitized_stem(input, ext), ext),
{
    lemma_untitled_settled(ext);
    if !all_ws(input) {
        let c = clean_seq(input);
        let te = trim_end_dots_spaces(c);
        let t = trim_start_ws(te);
        lemma_trim_end_shape(c);
        lemma_trim_start_shape(te);
        assert forall|i: int| 0 <= i < t.len() implies clean_char(#[trigger] t[i]) == t[i] by {
            assert(t[i] == te[te.len() - t.len() + i]);
            assert(te[te.len() - t.len() + i] == c[te.len() - t.len() + i]);
        }
        if t.len() > 0 {
            assert(t.last() == te.last());
            if byte_len(t) <= name_budget(ext) {
            } else {
                let b = name_budget(ext);
                let pw = prefix_within(t, b);
                let p = trim_end_dots_spaces(pw);
                lemma_prefix_within_bound(t, b);
                lemma_trim_end_shape(pw);
                lemma_byte_len_prefix(pw, p.len() as int);
                if p.len() > 0 {
                    assert(p[0] == t[0]);
                    assert forall|i: int| 0 <= i < p.len() implies clean_char(#[trigger] p[i]) == p[i] by {
                        assert(p[i] == pw[i]);
                        assert(pw[i] == t[i]);
                    }
                }
                if p.len() + ext_part(ext).len() == 0 {
                    assert(p + ext_part(ext) =~= Seq::<char>::empty());
                }
            }
        }
    }
}

/// Sanitizing is idempotent: re-sanitizing the stem of a sanitized name
/// (the name without its extension suffix) gives the same name back, when
/// the `untitled` fallback fits within the byte limit and the stem is not
/// empty.
pub proof fn sanitize_idempotent(input: Seq<char>, ext: Option<Seq<char>>, stem: Seq<char>)
    requires
        byte_len(ext_part(ext)) + 8 <= MAX_FILENAME_BYTES,
        spec_sanitize(input, ext) == stem + ext_part(ext),
        stem.len() > 0,
    ensures
        spec_sanitize(stem, ext) == spec_sanitize(input, ext),
{
    lemma_stem_shape(input, ext);
    let st = sanitized_stem(input, ext);
    assert(stem =~= st) by {
        assert(stem + ext_part(ext) == st + ext_part(ext));
        assert((stem + ext_part(ext)).len() == (st + ext_part(ext)).len());
        assert forall|i: int| 0 <= i < stem.len() implies stem[i] == st[i] by {
            assert((stem + ext_part(ext))[i] == (st + ext_part(ext))[i]);
        }
    }
    lemma_settled_is_fixed(stem, ext);
}

/// A sanitized name ends with the extension suffix, and fits within
/// `MAX_FILENAME_BYTES` bytes when the `untitled` fallback does.
pub proof fn sanitize_fits(input: Seq<char>, ext: Option<Seq<char>>)
    requires
        byte_len(ext_part(ext)) + 8 <= MAX_FILENAME_BYTES,
    ensures
        byte_len(spec_sanitize(input, ext)) <= MAX_FILENAME_BYTES,
        spec_sanitize(input, ext) == sanitized_stem(input, ext) + ext_part(ext),
{
    lemma_stem_shape(input, ext);
    let st = sanitized_stem(input, ext);
    lemma_byte_len_concat(st, ext_part(ext));
    if st.len() == 0 {
        assert(byte_len(st) == 0);
    }
}

/// The stem of a sanitized name holds no control character and no
/// character that filesystems refuse.
pub proof fn sanitize_stem_is_clean(input: Seq<char>, ext: Option<Seq<char>>)
    requires
        byte_len(ext_part(ext)) + 8 <= MAX_FILENAME_BYTES,
    ensures
        forall|i: int| 0 <= i < sanitized_stem(input, ext).len() ==>
            !is_cc(#[trigger] sanitized_stem(input, ext)[i])
            && !is_invalid_filename_char(sanitized_stem(input, ext)[i]),
{
    lemma_stem_shape(input, ext);
    let st = sanitized_stem(input, ext);
    assert forall|i: int| 0 <= i < st.len() implies !is_cc(#[trigger] st[i]) && !is_invalid_filename_char(st[i]) by {
        assert(clean_char(st[i]) == st[i]);
    }
}

/// Every character of `x` is its own cleaning.
pub open spec fn all_clean(x: Seq<char>) -> bool {
    forall|i: int| 0 <= i < x.len() ==> clean_char(#[trigger] x[i]) == x[i]
}

proof fn lemma_untitled_clean()
    ensures
        all_clean("untitled"@),
{
    reveal_strlit("untitled");
}

/// A sanitized name is a cleaned stem followed by the extension suffix.
proof fn lemma_sanitize_clean_stem(input: Seq<char>, ext: Option<Seq<char>>)
    ensures
        exists|x: Seq<char>| spec_sanitize(input, ext) == x + ext_part(ext) && all_clean(x),
{
    lemma_untitled_clean();
    let u = "untitled"@;
    if all_ws(input) {
        assert(spec_sanitize(input, ext) == u + ext_part(ext));
    } else {
        let c = clean_seq(input);
        let te = trim_end_dots_spaces(c);
        let t = trim_start_ws(te);
        lemma_trim_end_shape(c);
        lemma_trim_start_shape(te);
        assert(all_clean(t)) by {
            assert forall|i: int| 0 <= i < t.len() implies clean_char(#[trigger] t[i]) == t[i] by {
                assert(t[i] == te[te.len() - t.len() + i]);
                assert(te[te.len() - t.len() + i] == c[te.len() - t.len() + i]);
            }
        }
        if t.len() == 0 {
            assert(spec_sanitize(input, ext) == u + ext_part(ext));
        } else {
            let r = spec_truncate(t, ext);
            if r.len() == 0 {
                assert(spec_sanitize(input, ext) == u + ext_part(ext));
            } else if byte_len(t) <= name_budget(ext) {
                assert(spec_sanitize(input, ext) == t + ext_part(ext));
            } else {
                let b = name_budget(ext);
                let pw = prefix_within(t, b);
                let q = trim_end_dots_spaces(pw);
                lemma_prefix_within_bound(t, b);
                lemma_trim_end_shape(pw);
                assert(all_clean(q)) by {
                    assert forall|i: int| 0 <= i < q.len() implies clean_char(#[trigger] q[i]) == q[i] by {
                        assert(q[i] == pw[i]);
                        assert(pw[i] == t[i]);
                    }
                }
                assert(spec_sanitize(input, ext) == q + ext_part(ext));
            }
        }
    }
}

/// No character of a sanitized name's stem (the name before its extension
/// suffix) is one that file systems refuse, `<` `>` `:` `"` `/` `\` `|`
/// `?` `*`, nor a control character (U+0000 to U+001F, U+007F to U+009F).
pub proof fn sanitized_stem_has_no_refused_char(input: Seq<char>, ext: Option<Seq<char>>, stem: Seq<char>)
    requires
        spec_sanitize(input, ext) == stem + ext_part(ext),
    ensures
        forall|i: int| 0 <= i < stem.len() ==> {
            let c = #[trigger] stem[i];
            &&& c != '<' && c != '>' && c != ':' && c != '"' && c != '/' && c != '\\' && c != '|'
            &&& c != '?' && c != '*'
            &&& !((c as u32) <= 0x1F)
            &&& !(0x7F <= (c as u32) && (c as u32) <= 0x9F)
        },
{
    lemma_sanitize_clean_stem(input, ext);
    let x = choose|x: Seq<char>| spec_sanitize(input, ext) == x + ext_part(ext) && all_clean(x);
    assert((x + ext_part(ext)).len() == (stem + ext_part(ext)).len());
    assert(x.len() == stem.len());
    assert forall|i: int| 0 <= i < stem.len() implies stem[i] == x[i] by {
        assert((x + ext_part(ext))[i] == (stem + ext_part(ext))[i]);
    }
    assert forall|i: int| 0 <= i < stem.len() implies {
        let c = #[trigger] stem[i];
        &&& c != '<' && c != '>' && c != ':' && c != '"' && c != '/' && c != '\\' && c != '|'
        &&& c != '?' && c != '*'
        &&& !((c as u32) <= 0x1F)
        &&& !(0x7F <= (c as u32) && (c as u32) <= 0x9F)
    } by {
        assert(clean_char(x[i]) == x[i]);
        assert(('_' as u32) == 95);
    }
}

/// The stem and extension of a file name as `Path::file_stem` and
/// `Path::extension` give them for a name without separators: split at the
/// last `.` unless that is the first character; `untitled` for names that
/// name no file (empty, `.`, `..`).
pub open spec fn spec_stem_ext(name: Seq<char>) -> (Seq<char>, Seq<char>) {
    if name.len() == 0 || name == "."@ || name == ".."@ {
        ("untitled"@, Seq::empty())
    } else {
        match last_dot(name) {
            Some(i) => if i == 0 { (name, Seq::empty()) } else { (name.take(i), name.skip(i + 1)) },
            None => (name, Seq::empty()),
        }
    }
}

/// The position of the last `.`.
pub open spec fn last_dot(s: Seq<char>) -> Option<int>
    decreases s.len(),
{
    if s.len() == 0 {
        None
    } else if s.last() == '.' {
        Some(s.len() - 1)
    } else {
        last_dot(s.drop_last())
    }
}

fn last_dot_exec(s: &[char]) -> (r: Option<usize>)
    ensures
        match r {
            Some(i) => last_dot(s@) == Some(i as int) && i < s@.len(),
            None => last_dot(s@) is None,
        },
{
    let mut k = s.len();
    assert(s@.take(k as int) =~= s@);
    while k > 0
        invariant
            k <= s@.len(),
            last_dot(s@) == last_dot(s@.take(k as int)),
        decreases k,
    {
        assert(s@.take(k as int).last() == s@[k - 1]);
        if s[k - 1] == '.' {
            return Some(k - 1);
        }
        assert(s@.take(k as int).drop_last() =~= s@.take(k - 1));
        k -= 1;
    }
    None
}

/// The `counter`-th alternative name for a taken file name:
/// `{stem}-{counter}.{ext}`, or `{stem}-{counter}` without an extension.
pub open spec fn spec_collision_candidate(name: Seq<char>, counter: nat) -> Seq<char> {
    let (stem, ext) = spec_stem_ext(name);
    if ext.len() == 0 {
        stem + "-"@ + decimal_chars(counter)
    } else {
        stem + "-"@ + decimal_chars(counter) + "."@ + ext
    }
}

fn stem_ext(name: &str) -> (r: (String, String))
    ensures
        (r.0@, r.1@) == spec_stem_ext(name@),
{
    let c = chars_of(name);
    let n = c.len();
    if n == 0 || str_eq(name, ".") || str_eq(name, "..") {
        return ("untitled".to_owned(), String::new());
    }
    match last_dot_exec(c.as_slice()) {
        Some(i) => {
            if i == 0 {
                (name.to_owned(), String::new())
            } else {
                let stem = string_of_range(c.as_slice(), 0, i);
                let ext = string_of_range(c.as_slice(), i + 1, n);
                assert(c@.subrange(0, i as int) =~= c@.take(i as int));
                assert(c@.subrange(i + 1, n as int) =~= c@.skip(i + 1));
                (stem, ext)
            }
        },
        None => (name.to_owned(), String::new()),
    }
}

/// The `counter`-th alternative name for a taken file name.
pub fn collision_candidate(filename: &str, counter: u32) -> (r: String)
    ensures
        r@ == spec_collision_candidate(filename@, counter as nat),
{
    let (stem, ext) = stem_ext(filename);
    let d = u64_to_decimal(counter as u64);
    let a = concat_str(stem.as_str(), "-");
    let b = concat_str(a.as_str(), d.as_str());
    if ext.as_str().is_empty() {
        b
    } else {
        let c = concat_str(b.as_str(), ".");
        concat_str(c.as_str(), ext.as_str())
    }
}

/// The name used once 10000 alternatives are taken: `{stem}_{id}`.
pub fn collision_fallback(filename: &str, id: &str) -> (r: String)
    ensures
        r@ == spec_stem_ext(filename@).0 + "_"@ + id@,
{
    let (stem, _ext) = stem_ext(filename);
    let a = concat_str(stem.as_str(), "_");
    concat_str(a.as_str(), id)
}

/// The search for a free file name: the name itself, then alternatives
/// 1 to 10000.
#[derive(Debug)]
pub struct CollisionSearch {
    /// The name asked for.
    pub filename: String,
    /// The alternative probed last (0 for the name itself).
    pub counter: u32,
}

/// The last alternative probed before falling back to a random name.
pub const MAX_COLLISION_ATTEMPTS: u32 = 10000;

impl CollisionSearch {
    /// A search that probes `filename` first.
    pub fn new(filename: &str) -> (r: Self)
        ensures
            r.filename@ == filename@,
            r.counter == 0,
    {
        CollisionSearch { filename: filename.to_owned(), counter: 0 }
    }

    /// The name probed last was taken: the next alternative to probe, or
    /// `None` once 10000 alternatives were taken (then the fallback name is
    /// used).
    pub fn on_taken(&mut self) -> (r: Option<String>)
        requires
            old(self).counter <= MAX_COLLISION_ATTEMPTS,
        ensures
            final(self).filename == old(self).filename,
            old(self).counter < MAX_COLLISION_ATTEMPTS ==> {
                &&& final(self).counter == old(self).counter + 1
                &&& r matches Some(c) && c@ == spec_collision_candidate(old(self).filename@, final(self).counter as nat)
            },
            old(self).counter >= MAX_COLLISION_ATTEMPTS ==> r is None && final(self).counter == old(self).counter,
    {
        if self.counter >= MAX_COLLISION_ATTEMPTS {
            return None;
        }
        self.counter = self.counter + 1;
        Some(collision_candidate(self.filename.as_str(), self.counter))
    }
}

} // verus!
