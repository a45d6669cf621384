//! Settings rules: template validation, validation before saving, the
//! key-value form the settings are stored in, and reading them back.

use vstd::prelude::*;
use crate::error::AppError;
use crate::models::{is_default_settings, AppSettings};
use crate::text::{
    chars_of, concat_str, decimal_chars, decimal_value, digit_value, is_ascii_digit, lemma_decimal_monotone,
    str_eq, string_of_range, u64_to_decimal,
};
use crate::web::pairs_view;

verus! {

/// The tokens a filename template may use.
pub open spec fn is_valid_token(t: Seq<char>) -> bool {
    t == "{platform}"@ || t == "{author}"@ || t == "{title}"@ || t == "{date}"@ || t == "{index}"@
        || t == "{ext}"@
}

/// The first `}` at or after `j`, or the end.
pub open spec fn close_brace(c: Seq<char>, j: int) -> int
    decreases c.len() - j,
{
    if j < 0 || j >= c.len() || c[j] == '}' {
        j
    } else {
        close_brace(c, j + 1)
    }
}

/// The first unknown token of the template from position `i`: each `{`
/// opens a token that runs to the next `}`; a `{` never closed ends the
/// scan.
pub open spec fn first_bad_token(c: Seq<char>, i: int) -> Option<Seq<char>>
    decreases c.len() - i,
{
    if i < 0 || i >= c.len() {
        None
    } else if c[i] == '{' {
        let j = close_brace(c, i + 1);
        if i < j < c.len() {
            let tok = c.subrange(i, j + 1);
            if !is_valid_token(tok) { Some(tok) } else { first_bad_token(c, j + 1) }
        } else {
            None
        }
    } else {
        first_bad_token(c, i + 1)
    }
}

fn valid_token(c: &[char], lo: usize, hi: usize) -> (r: bool)
    requires
        lo <= hi <= c@.len(),
    ensures
        r == is_valid_token(c@.subrange(lo as int, hi as int)),
{
    let t = string_of_range(c, lo, hi);
    let s = t.as_str();
    str_eq(s, "{platform}") || str_eq(s, "{author}") || str_eq(s, "{title}") || str_eq(s, "{date}")
        || str_eq(s, "{index}") || str_eq(s, "{ext}")
}

/// Validate a filename template against the supported tokens.
pub fn validate_template(template: &str) -> (r: Result<(), AppError>)
    ensures
        match first_bad_token(template@, 0) {
            None => r is Ok,
            Some(tok) => r matches Err(AppError::InvalidInput { message }) && message@ == "Unknown template token: "@ + tok,
        },
{
    let c = chars_of(template);
    let n = c.len();
    let mut i: usize = 0;
    while i < n
        invariant
            i <= n == c@.len(),
            c@ == template@,
            first_bad_token(c@, 0) == first_bad_token(c@, i as int),
        decreases n - i,
    {
        if c[i] == '{' {
            let start = i;
            let mut j = i + 1;
            while j < n && c[j] != '}'
                invariant
                    start < j <= n == c@.len(),
                    close_brace(c@, start + 1) == close_brace(c@, j as int),
                decreases n - j,
            {
                j += 1;
            }
            if j < n {
                if !valid_token(c.as_slice(), start, j + 1) {
                    let tok = string_of_range(c.as_slice(), start, j + 1);
                    return Err(AppError::InvalidInput { message: concat_str("Unknown template token: ", tok.as_str()) });
                }
                i = j + 1;
            } else {
                return Ok(());
            }
        } else {
            i += 1;
        }
    }
    Ok(())
}

/// `str::parse::<u8>`: an optional `+`, then one or more ASCII digits whose
/// value fits.
pub open spec fn spec_parse_u8(s: Seq<char>) -> Option<u8> {
    if sign_stripped(s).len() > 0 && all_ascii_digits(sign_stripped(s)) && decimal_value(sign_stripped(s)) <= 255 {
        Some(decimal_value(sign_stripped(s)) as u8)
    } else {
        None
    }
}

/// Every character is an ASCII digit.
pub open spec fn all_ascii_digits(d: Seq<char>) -> bool {
    forall|i: int| 0 <= i < d.len() ==> is_ascii_digit(#[trigger] d[i])
}

/// `s` without a leading `+`.
pub open spec fn sign_stripped(s: Seq<char>) -> Seq<char> {
    if s.len() > 0 && s[0] == '+' { s.drop_first() } else { s }
}

/// `str::parse::<u8>`.
pub fn parse_u8(s: &str) -> (r: Option<u8>)
    ensures
        r == spec_parse_u8(s@),
{
    let c = chars_of(s);
    let n = c.len();
    let lo: usize = if n > 0 && c[0] == '+' { 1 } else { 0 };
    let ghost d = sign_stripped(s@);
    assert(d =~= c@.subrange(lo as int, n as int));
    if lo == n {
        return None;
    }
    let mut acc: u64 = 0;
    let mut k = lo;
    while k < n
        invariant
            lo <= k <= n == c@.len(),
            c@ == s@,
            d == sign_stripped(s@),
            d == c@.subrange(lo as int, n as int),
            forall|i: int| 0 <= i < k - lo ==> is_ascii_digit(#[trigger] d[i]),
            acc == decimal_value(d.take(k - lo)),
            acc <= 255,
        decreases n - k,
    {
        let ch = c[k];
        if !('0' <= ch && ch <= '9') {
            assert(!is_ascii_digit(d[k - lo]));
            return None;
        }
        assert(d.take(k - lo + 1).drop_last() =~= d.take(k - lo));
        assert(d.take(k - lo + 1).last() == ch);
        acc = acc * 10 + digit_value(ch);
        if acc > 255 {
            proof {
                if all_ascii_digits(d) {
                    lemma_decimal_monotone(d, k - lo + 1);
                }
            }
            return None;
        }
        k += 1;
    }
    assert(d.take(n - lo) =~= d);
    Some(acc as u8)
}

/// The plain values of settings: download directory, maximum concurrency,
/// filename template, auto clipboard, keep history, debug log, theme,
/// language.
pub type SettingsView = (Seq<char>, u8, Seq<char>, bool, bool, bool, Seq<char>, Seq<char>);

/// The plain values of `s`.
pub open spec fn settings_view(s: AppSettings) -> SettingsView {
    (s.download_dir@, s.max_concurrency, s.filename_template@, s.auto_clipboard, s.keep_history, s.debug_log,
        s.theme@, s.language@)
}

/// `n` clamped to `[1, 8]`.
pub open spec fn clamp_concurrency(n: u8) -> u8 {
    if n < 1 { 1 } else if n > 8 { 8 } else { n }
}

/// One stored key-value pair applied to settings: known keys set their
/// field (numbers parsed, 3 where that fails, then clamped to `[1, 8]`;
/// flags true exactly for `true`); other keys are ignored.
pub open spec fn apply_setting_spec(s: SettingsView, key: Seq<char>, value: Seq<char>) -> SettingsView {
    if key == "download_dir"@ {
        (value, s.1, s.2, s.3, s.4, s.5, s.6, s.7)
    } else if key == "max_concurrency"@ {
        let n = match spec_parse_u8(value) {
            Some(v) => v,
            None => 3u8,
        };
        (s.0, clamp_concurrency(n), s.2, s.3, s.4, s.5, s.6, s.7)
    } else if key == "filename_template"@ {
        (s.0, s.1, value, s.3, s.4, s.5, s.6, s.7)
    } else if key == "auto_clipboard"@ {
        (s.0, s.1, s.2, value == "true"@, s.4, s.5, s.6, s.7)
    } else if key == "keep_history"@ {
        (s.0, s.1, s.2, s.3, value == "true"@, s.5, s.6, s.7)
    } else if key == "debug_log"@ {
        (s.0, s.1, s.2, s.3, s.4, value == "true"@, s.6, s.7)
    } else if key == "theme"@ {
        (s.0, s.1, s.2, s.3, s.4, s.5, value, s.7)
    } else if key == "language"@ {
        (s.0, s.1, s.2, s.3, s.4, s.5, s.6, value)
    } else {
        s
    }
}

/// Apply one stored key-value pair to the settings.
pub fn apply_setting(settings: &mut AppSettings, key: &str, value: &str)
    ensures
        settings_view(*final(settings)) == apply_setting_spec(settings_view(*old(settings)), key@, value@),
{
    if str_eq(key, "download_dir") {
        settings.download_dir = value.to_owned();
    } else if str_eq(key, "max_concurrency") {
        let n = match parse_u8(value) {
            Some(v) => v,
            None => 3,
        };
        settings.max_concurrency = if n < 1 { 1 } else if n > 8 { 8 } else { n };
    } else if str_eq(key, "filename_template") {
        settings.filename_template = value.to_owned();
    } else if str_eq(key, "auto_clipboard") {
        settings.auto_clipboard = str_eq(value, "true");
    } else if str_eq(key, "keep_history") {
        settings.keep_history = str_eq(value, "true");
    } else if str_eq(key, "debug_log") {
        settings.debug_log = str_eq(value, "true");
    } else if str_eq(key, "theme") {
        settings.theme = value.to_owned();
    } else if str_eq(key, "language") {
        settings.language = value.to_owned();
    }
}

/// The pairs applied in order.
pub open spec fn apply_settings_spec(s: SettingsView, rows: Seq<(Seq<char>, Seq<char>)>) -> SettingsView
    decreases rows.len(),
{
    if rows.len() == 0 {
        s
    } else {
        apply_setting_spec(apply_settings_spec(s, rows.drop_last()), rows.last().0, rows.last().1)
    }
}

/// The settings that the stored rows give: the defaults, with each row
/// applied in order.
pub fn settings_from_rows(rows: &Vec<(String, String)>) -> (r: AppSettings)
    ensures
        exists|d: AppSettings| is_default_settings(d)
            && settings_view(r) == apply_settings_spec(settings_view(d), pairs_view(rows@)),
{
    let mut s = AppSettings::default();
    let ghost d = s;
    let ghost rv = pairs_view(rows@);
    let mut i: usize = 0;
    assert(rv.take(0) =~= Seq::<(Seq<char>, Seq<char>)>::empty());
    while i < rows.len()
        invariant
            i <= rows@.len(),
            rv == pairs_view(rows@),
            settings_view(s) == apply_settings_spec(settings_view(d), rv.take(i as int)),
        decreases rows@.len() - i,
    {
        assert(rv.take(i + 1).drop_last() =~= rv.take(i as int));
        assert(rv.take(i + 1).last() == rv[i as int]);
        apply_setting(&mut s, rows[i].0.as_str(), rows[i].1.as_str());
        i += 1;
    }
    assert(rv.take(rows@.len() as int) =~= rv);
    s
}

/// The pairs the settings are stored as, in order.
pub open spec fn spec_settings_pairs(s: SettingsView) -> Seq<(Seq<char>, Seq<char>)> {
    seq![
        ("download_dir"@, s.0),
        ("max_concurrency"@, decimal_chars(s.1 as nat)),
        ("filename_template"@, s.2),
        ("auto_clipboard"@, if s.3 { "true"@ } else { "false"@ }),
        ("keep_history"@, if s.4 { "true"@ } else { "false"@ }),
        ("debug_log"@, if s.5 { "true"@ } else { "false"@ }),
        ("theme"@, s.6),
        ("language"@, s.7),
    ]
}

fn bool_text(b: bool) -> (r: String)
    ensures
        r@ == if b { "true"@ } else { "false"@ },
{
    if b { "true".to_owned() } else { "false".to_owned() }
}

/// The key-value pairs the settings are stored as.
pub fn settings_pairs(s: &AppSettings) -> (r: Vec<(String, String)>)
    ensures
        pairs_view(r@) == spec_settings_pairs(settings_view(*s)),
{
    let mut v: Vec<(String, String)> = Vec::new();
    v.push(("download_dir".to_owned(), s.download_dir.clone()));
    v.push(("max_concurrency".to_owned(), u64_to_decimal(s.max_concurrency as u64)));
    v.push(("filename_template".to_owned(), s.filename_template.clone()));
    v.push(("auto_clipboard".to_owned(), bool_text(s.auto_clipboard)));
    v.push(("keep_history".to_owned(), bool_text(s.keep_history)));
    v.push(("debug_log".to_owned(), bool_text(s.debug_log)));
    v.push(("theme".to_owned(), s.theme.clone()));
    v.push(("language".to_owned(), s.language.clone()));
    assert(pairs_view(v@) =~= spec_settings_pairs(settings_view(*s)));
    v
}

/// Settings that may be saved: concurrency in `[1, 8]` and a template
/// with known tokens only.
pub fn validate_settings(s: &AppSettings) -> (r: Result<(), AppError>)
    ensures
        (s.max_concurrency < 1 || s.max_concurrency > 8) ==> (r matches Err(AppError::InvalidInput { message })
            && message@ == "max_concurrency must be between 1 and 8"@),
        1 <= s.max_concurrency <= 8 ==> match first_bad_token(s.filename_template@, 0) {
            None => r is Ok,
            Some(tok) => r matches Err(AppError::InvalidInput { message }) && message@ == "Unknown template token: "@ + tok,
        },
{
    if s.max_concurrency < 1 || s.max_concurrency > 8 {
        return Err(AppError::InvalidInput { message: "max_concurrency must be between 1 and 8".to_owned() });
    }
    validate_template(s.filename_template.as_str())
}

/// The decimal form of a number spells the number.
pub proof fn lemma_decimal_roundtrip(n: nat)
    ensures
        decimal_chars(n).len() > 0,
        all_ascii_digits(decimal_chars(n)),
        decimal_value(decimal_chars(n)) == n,
    decreases n,
{
    if n < 10 {
        let d = decimal_chars(n);
        assert(d.drop_last() =~= Seq::<char>::empty());
        assert(d.last() == crate::text::digit_char(n));
        assert(decimal_value(d) == decimal_value(d.drop_last()) * 10 + (d.last() as u32 - 48));
        if n == 0 { assert('0' as u32 == 48); } else if n == 1 { assert('1' as u32 == 49); }
        else if n == 2 { assert('2' as u32 == 50); } else if n == 3 { assert('3' as u32 == 51); }
        else if n == 4 { assert('4' as u32 == 52); } else if n == 5 { assert('5' as u32 == 53); }
        else if n == 6 { assert('6' as u32 == 54); } else if n == 7 { assert('7' as u32 == 55); }
        else if n == 8 { assert('8' as u32 == 56); } else { assert('9' as u32 == 57); }
    } else {
        lemma_decimal_roundtrip(n / 10);
        let x = decimal_chars(n / 10);
        let c = crate::text::digit_char(n % 10);
        assert(decimal_chars(n) == x.push(c));
        assert(x.push(c).drop_last() =~= x);
        vstd::arithmetic::div_mod::lemma_fundamental_div_mod(n as int, 10);
        let m = n % 10;
        if m == 0 { assert('0' as u32 == 48); } else if m == 1 { assert('1' as u32 == 49); }
        else if m == 2 { assert('2' as u32 == 50); } else if m == 3 { assert('3' as u32 == 51); }
        else if m == 4 { assert('4' as u32 == 52); } else if m == 5 { assert('5' as u32 == 53); }
        else if m == 6 { assert('6' as u32 == 54); } else if m == 7 { assert('7' as u32 == 55); }
        else if m == 8 { assert('8' as u32 == 56); } else { assert('9' as u32 == 57); }
        assert(decimal_value(x.push(c)) == decimal_value(x) * 10 + (c as u32 - 48));
        assert forall|i: int| 0 <= i < x.push(c).len() implies is_ascii_digit(#[trigger] x.push(c)[i]) by {
            if i < x.len() {
                assert(x.push(c)[i] == x[i]);
            }
        }
    }
}

/// Saved settings read back are the same settings: applying the pairs
/// that valid settings are stored as, to any settings, gives them back.
pub proof fn settings_roundtrip(s: SettingsView, start: SettingsView)
    requires
        1 <= s.1 <= 8,
    ensures
        apply_settings_spec(start, spec_settings_pairs(s)) == s,
{
    reveal_strlit("download_dir");
    reveal_strlit("max_concurrency");
    reveal_strlit("filename_template");
    reveal_strlit("auto_clipboard");
    reveal_strlit("keep_history");
    reveal_strlit("debug_log");
    reveal_strlit("theme");
    reveal_strlit("language");
    reveal_strlit("true");
    reveal_strlit("false");
    lemma_decimal_roundtrip(s.1 as nat);
    let d = decimal_chars(s.1 as nat);
    assert(d.len() > 0 && d[0] != '+') by {
        assert(is_ascii_digit(d[0]));
    }
    assert(sign_stripped(d) == d);
    assert(spec_parse_u8(d) == Some(s.1));
    let p = spec_settings_pairs(s);
    let s0 = start;
    let s1 = apply_setting_spec(s0, p[0].0, p[0].1);
    let s2 = apply_setting_spec(s1, p[1].0, p[1].1);
    let s3 = apply_setting_spec(s2, p[2].0, p[2].1);
    let s4 = apply_setting_spec(s3, p[3].0, p[3].1);
    let s5 = apply_setting_spec(s4, p[4].0, p[4].1);
    let s6 = apply_setting_spec(s5, p[5].0, p[5].1);
    let s7 = apply_setting_spec(s6, p[6].0, p[6].1);
    let s8 = apply_setting_spec(s7, p[7].0, p[7].1);
    assert(apply_settings_spec(s0, p.take(0)) == s0);
    assert(p.take(1).drop_last() =~= p.take(0));
    assert(apply_settings_spec(s0, p.take(1)) == s1);
    assert(p.take(2).drop_last() =~= p.take(1));
    assert(apply_settings_spec(s0, p.take(2)) == s2);
    assert(p.take(3).drop_last() =~= p.take(2));
    assert(apply_settings_spec(s0, p.take(3)) == s3);
    assert(p.take(4).drop_last() =~= p.take(3));
    assert(apply_settings_spec(s0, p.take(4)) == s4);
    assert(p.take(5).drop_last() =~= p.take(4));
    assert(apply_settings_spec(s0, p.take(5)) == s5);
    assert(p.take(6).drop_last() =~= p.take(5));
    assert(apply_settings_spec(s0, p.take(6)) == s6);
    assert(p.take(7).drop_last() =~= p.take(6));
    assert(apply_settings_spec(s0, p.take(7)) == s7);
    assert(p.take(8).drop_last() =~= p.take(7));
    assert(apply_settings_spec(s0, p.take(8)) == s8);
    assert(p.take(8) =~= p);
    assert("download_dir"@.len() == 12);
    assert("max_concurrency"@.len() == 15);
    assert("filename_template"@.len() == 17);
    assert("auto_clipboard"@.len() == 14);
    assert("keep_history"@.len() == 12);
    assert("debug_log"@.len() == 9);
    assert("theme"@.len() == 5);
    assert("language"@.len() == 8);
    assert("max_concurrency"@ != "download_dir"@) by { if "max_concurrency"@.len() == "download_dir"@.len() { assert("max_concurrency"@[0] != "download_dir"@[0]); } }
    assert("filename_template"@ != "download_dir"@) by { if "filename_template"@.len() == "download_dir"@.len() { assert("filename_template"@[0] != "download_dir"@[0]); } }
    assert("filename_template"@ != "max_concurrency"@) by { if "filename_template"@.len() == "max_concurrency"@.len() { assert("filename_template"@[0] != "max_concurrency"@[0]); } }
    assert("auto_clipboard"@ != "download_dir"@) by { if "auto_clipboard"@.len() == "download_dir"@.len() { assert("auto_clipboard"@[0] != "download_dir"@[0]); } }
    assert("auto_clipboard"@ != "max_concurrency"@) by { if "auto_clipboard"@.len() == "max_concurrency"@.len() { assert("auto_clipboard"@[0] != "max_concurrency"@[0]); } }
    assert("auto_clipboard"@ != "filename_template"@) by { if "auto_clipboard"@.len() == "filename_template"@.len() { assert("auto_clipboard"@[0] != "filename_template"@[0]); } }
    assert("keep_history"@ != "download_dir"@) by { if "keep_history"@.len() == "download_dir"@.len() { assert("keep_history"@[0] != "download_dir"@[0]); } }
    assert("keep_history"@ != "max_concurrency"@) by { if "keep_history"@.len() == "max_concurrency"@.len() { assert("keep_history"@[0] != "max_concurrency"@[0]); } }
    assert("keep_history"@ != "filename_template"@) by { if "keep_history"@.len() == "filename_template"@.len() { assert("keep_history"@[0] != "filename_template"@[0]); } }
    assert("keep_history"@ != "auto_clipboard"@) by { if "keep_history"@.len() == "auto_clipboard"@.len() { assert("keep_history"@[0] != "auto_clipboard"@[0]); } }
    assert("debug_log"@ != "download_dir"@) by { if "debug_log"@.len() == "download_dir"@.len() { assert("debug_log"@[0] != "download_dir"@[0]); } }
    assert("debug_log"@ != "max_concurrency"@) by { if "debug_log"@.len() == "max_concurrency"@.len() { assert("debug_log"@[0] != "max_concurrency"@[0]); } }
    assert("debug_log"@ != "filename_template"@) by { if "debug_log"@.len() == "filename_template"@.len() { assert("debug_log"@[0] != "filename_template"@[0]); } }
    assert("debug_log"@ != "auto_clipboard"@) by { if "debug_log"@.len() == "auto_clipboard"@.len() { assert("debug_log"@[0] != "auto_clipboard"@[0]); } }
    assert("debug_log"@ != "keep_history"@) by { if "debug_log"@.len() == "keep_history"@.len() { assert("debug_log"@[0] != "keep_history"@[0]); } }
    assert("theme"@ != "download_dir"@) by { if "theme"@.len() == "download_dir"@.len() { assert("theme"@[0] != "download_dir"@[0]); } }
    assert("theme"@ != "max_concurrency"@) by { if "theme"@.len() == "max_concurrency"@.len() { assert("theme"@[0] != "max_concurrency"@[0]); } }
    assert("theme"@ != "filename_template"@) by { if "theme"@.len() == "filename_template"@.len() { assert("theme"@[0] != "filename_template"@[0]); } }
    assert("theme"@ != "auto_clipboard"@) by { if "theme"@.len() == "auto_clipboard"@.len() { assert("theme"@[0] != "auto_clipboard"@[0]); } }
    assert("theme"@ != "keep_history"@) by { if "theme"@.len() == "keep_history"@.len() { assert("theme"@[0] != "keep_history"@[0]); } }
    assert("theme"@ != "debug_log"@) by { if "theme"@.len() == "debug_log"@.len() { assert("theme"@[0] != "debug_log"@[0]); } }
    assert("language"@ != "download_dir"@) by { if "language"@.len() == "download_dir"@.len() { assert("language"@[0] != "download_dir"@[0]); } }
    assert("language"@ != "max_concurrency"@) by { if "language"@.len() == "max_concurrency"@.len() { assert("language"@[0] != "max_concurrency"@[0]); } }
    assert("language"@ != "filename_template"@) by { if "language"@.len() == "filename_template"@.len() { assert("language"@[0] != "filename_template"@[0]); } }
    assert("language"@ != "auto_clipboard"@) by { if "language"@.len() == "auto_clipboard"@.len() { assert("language"@[0] != "auto_clipboard"@[0]); } }
    assert("language"@ != "keep_history"@) by { if "language"@.len() == "keep_history"@.len() { assert("language"@[0] != "keep_history"@[0]); } }
    assert("language"@ != "debug_log"@) by { if "language"@.len() == "debug_log"@.len() { assert("language"@[0] != "debug_log"@[0]); } }
    assert("language"@ != "theme"@) by { if "language"@.len() == "theme"@.len() { assert("language"@[0] != "theme"@[0]); } }
    assert(s1.0 == s.0);
    assert(s2.1 == s.1);
    assert(s3.2 == s.2);
    assert(s4.3 == s.3);
    assert(s5.4 == s.4);
    assert(s6.5 == s.5);
    assert(s7.6 == s.6);
    assert(s8.7 == s.7);
    assert(s8 == s);
}

/// The keys that settings are stored under.
pub open spec fn is_setting_key(k: Seq<char>) -> bool {
    k == "download_dir"@ || k == "max_concurrency"@ || k == "filename_template"@ || k == "auto_clipboard"@
        || k == "keep_history"@ || k == "debug_log"@ || k == "theme"@ || k == "language"@
}

/// Field `i` (in stored order) of `a` and `b` agree.
pub open spec fn same_field(a: SettingsView, b: SettingsView, i: int) -> bool {
    if i == 0 {
        a.0 == b.0
    } else if i == 1 {
        a.1 == b.1
    } else if i == 2 {
        a.2 == b.2
    } else if i == 3 {
        a.3 == b.3
    } else if i == 4 {
        a.4 == b.4
    } else if i == 5 {
        a.5 == b.5
    } else if i == 6 {
        a.6 == b.6
    } else {
        a.7 == b.7
    }
}

proof fn lemma_setting_keys_distinct()
    ensures
        "download_dir"@.len() == 12,
        "max_concurrency"@.len() == 15,
        "filename_template"@.len() == 17,
        "auto_clipboard"@.len() == 14,
        "keep_history"@.len() == 12,
        "debug_log"@.len() == 9,
        "theme"@.len() == 5,
        "language"@.len() == 8,
        "max_concurrency"@ != "download_dir"@,
        "filename_template"@ != "download_dir"@,
        "filename_template"@ != "max_concurrency"@,
        "auto_clipboard"@ != "download_dir"@,
        "auto_clipboard"@ != "max_concurrency"@,
        "auto_clipboard"@ != "filename_template"@,
        "keep_history"@ != "download_dir"@,
        "keep_history"@ != "max_concurrency"@,
        "keep_history"@ != "filename_template"@,
        "keep_history"@ != "auto_clipboard"@,
        "debug_log"@ != "download_dir"@,
        "debug_log"@ != "max_concurrency"@,
        "debug_log"@ != "filename_template"@,
        "debug_log"@ != "auto_clipboard"@,
        "debug_log"@ != "keep_history"@,
        "theme"@ != "download_dir"@,
        "theme"@ != "max_concurrency"@,
        "theme"@ != "filename_template"@,
        "theme"@ != "auto_clipboard"@,
        "theme"@ != "keep_history"@,
        "theme"@ != "debug_log"@,
        "language"@ != "download_dir"@,
        "language"@ != "max_concurrency"@,
        "language"@ != "filename_template"@,
        "language"@ != "auto_clipboard"@,
        "language"@ != "keep_history"@,
        "language"@ != "debug_log"@,
        "language"@ != "theme"@,
{
    reveal_strlit("download_dir");
    reveal_strlit("max_concurrency");
    reveal_strlit("filename_template");
    reveal_strlit("auto_clipboard");
    reveal_strlit("keep_history");
    reveal_strlit("debug_log");
    reveal_strlit("theme");
    reveal_strlit("language");
    assert("keep_history"@[0] != "download_dir"@[0]);
}

/// Applying the stored pair of field `j` of `s` sets that field as in `s`
/// and leaves the others.
proof fn lemma_apply_stored_pair(v: SettingsView, s: SettingsView, j: int)
    requires
        1 <= s.1 <= 8,
        0 <= j < 8,
    ensures
        same_field(apply_setting_spec(v, spec_settings_pairs(s)[j].0, spec_settings_pairs(s)[j].1), s, j),
        forall|i: int| 0 <= i < 8 && i != j ==> same_field(
            apply_setting_spec(v, spec_settings_pairs(s)[j].0, spec_settings_pairs(s)[j].1), v, i),
{
    lemma_setting_keys_distinct();
    reveal_strlit("true");
    reveal_strlit("false");
    assert("true"@ != "false"@) by {
        assert("true"@.len() != "false"@.len());
    }
    lemma_decimal_roundtrip(s.1 as nat);
    let d = decimal_chars(s.1 as nat);
    assert(d.len() > 0 && d[0] != '+') by {
        assert(is_ascii_digit(d[0]));
    }
    assert(sign_stripped(d) == d);
    assert(spec_parse_u8(d) == Some(s.1));
}

/// Folding the rows over `start`: every field whose stored pair occurs in
/// the rows ends as in `s`, where every row of a known key is a stored pair
/// of `s`.
proof fn lemma_fold_rows(start: SettingsView, s: SettingsView, rows: Seq<(Seq<char>, Seq<char>)>)
    requires
        1 <= s.1 <= 8,
        forall|m: int| 0 <= m < rows.len() && is_setting_key(#[trigger] rows[m].0)
            ==> spec_settings_pairs(s).contains(rows[m]),
    ensures
        forall|i: int| 0 <= i < 8 && rows.contains(#[trigger] spec_settings_pairs(s)[i])
            ==> same_field(apply_settings_spec(start, rows), s, i),
    decreases rows.len(),
{
    if rows.len() > 0 {
        let prev_rows = rows.drop_last();
        assert forall|m: int| 0 <= m < prev_rows.len() && is_setting_key(#[trigger] prev_rows[m].0)
            implies spec_settings_pairs(s).contains(prev_rows[m]) by {
            assert(prev_rows[m] == rows[m]);
        }
        lemma_fold_rows(start, s, prev_rows);
        let prev = apply_settings_spec(start, prev_rows);
        let last = rows.last();
        let res = apply_settings_spec(start, rows);
        let p = spec_settings_pairs(s);
        assert(res == apply_setting_spec(prev, last.0, last.1));
        lemma_setting_keys_distinct();
        if is_setting_key(last.0) {
            assert(rows[rows.len() - 1] == last);
            assert(p.contains(last));
            let j = choose|j: int| 0 <= j < p.len() && p[j] == last;
            lemma_apply_stored_pair(prev, s, j);
            assert forall|i: int| 0 <= i < 8 && rows.contains(#[trigger] p[i]) implies same_field(res, s, i) by {
                if i != j {
                    assert(p[i].0 != p[j].0);
                    let m = choose|m: int| 0 <= m < rows.len() && rows[m] == p[i];
                    assert(m != rows.len() - 1);
                    assert(prev_rows[m] == p[i]);
                    assert(prev_rows.contains(p[i]));
                }
            }
        } else {
            assert(res == prev);
            assert forall|i: int| 0 <= i < 8 && rows.contains(#[trigger] p[i]) implies same_field(res, s, i) by {
                let m = choose|m: int| 0 <= m < rows.len() && rows[m] == p[i];
                assert(is_setting_key(p[i].0));
                assert(m != rows.len() - 1);
                assert(prev_rows[m] == p[i]);
                assert(prev_rows.contains(p[i]));
            }
        }
    }
}

/// Saved settings read back are the same settings, whatever order the
/// stored rows come back in and whatever rows of other keys lie among them:
/// where every stored pair of valid settings `s` is among the rows, and
/// every row of a settings key is one of those pairs, applying the rows to
/// any settings gives `s`.
pub proof fn settings_roundtrip_any_order(s: SettingsView, start: SettingsView, rows: Seq<(Seq<char>, Seq<char>)>)
    requires
        1 <= s.1 <= 8,
        forall|j: int| 0 <= j < 8 ==> rows.contains(#[trigger] spec_settings_pairs(s)[j]),
        forall|m: int| 0 <= m < rows.len() && is_setting_key(#[trigger] rows[m].0)
            ==> spec_settings_pairs(s).contains(rows[m]),
    ensures
        apply_settings_spec(start, rows) == s,
{
    lemma_fold_rows(start, s, rows);
    let r = apply_settings_spec(start, rows);
    let p = spec_settings_pairs(s);
    assert(rows.contains(p[0]) && rows.contains(p[1]) && rows.contains(p[2]) && rows.contains(p[3]));
    assert(rows.contains(p[4]) && rows.contains(p[5]) && rows.contains(p[6]) && rows.contains(p[7]));
    assert(same_field(r, s, 0) && same_field(r, s, 1) && same_field(r, s, 2) && same_field(r, s, 3));
    assert(same_field(r, s, 4) && same_field(r, s, 5) && same_field(r, s, 6) && same_field(r, s, 7));
}

} // verus!
