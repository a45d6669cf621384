//! Where downloads go: `{download_dir}/{platform}/{author}/{date}/{file}`,
//! never outside the download directory.
//!
//! Paths are `/`-separated strings here, read component by component as
//! `std::path::Path` reads them on Unix.

use vstd::prelude::*;
use crate::download::filename_sanitizer::{sanitize, spec_sanitize, opt_view};
use crate::error::AppError;
use crate::models::{spec_platform_name, Platform};
use crate::page::chars_seq;
use crate::text::{before_char, before_char_end, chars_of, concat_str, contains_lit, contains_seq, str_eq, string_of_range};

verus! {

/// `s` split at every `c` (`str::split` with a character).
pub open spec fn split_char(s: Seq<char>, c: char) -> Seq<Seq<char>>
    decreases s.len(),
{
    let b = before_char(s, c);
    if b.len() >= s.len() {
        seq![s]
    } else {
        seq![b] + split_char(s.skip(b.len() + 1int), c)
    }
}

/// The pieces that name something: neither empty nor `.`.
pub open spec fn named_pieces(v: Seq<Seq<char>>) -> Seq<Seq<char>>
    decreases v.len(),
{
    if v.len() == 0 {
        Seq::empty()
    } else {
        let r = named_pieces(v.drop_last());
        if v.last().len() == 0 || v.last() == "."@ { r } else { r.push(v.last()) }
    }
}

/// The components of a path: the root (written `/`) where it starts with
/// `/`, a leading `.` where a relative path starts with one, then every
/// piece between separators other than empty ones and `.`.
pub open spec fn path_components(p: Seq<char>) -> Seq<Seq<char>> {
    let pieces = split_char(p, '/');
    let root = p.len() > 0 && p[0] == '/';
    let cur = !root && pieces.len() > 0 && pieces[0] == "."@;
    (if root { seq!["/"@] } else if cur { seq!["."@] } else { Seq::empty() }) + named_pieces(pieces)
}

/// `target` lies under `base`: the components of `base` begin those of
/// `target` (`Path::starts_with`).
pub open spec fn path_starts_with(target: Seq<char>, base: Seq<char>) -> bool {
    let t = path_components(target);
    let b = path_components(base);
    b.len() <= t.len() && t.take(b.len() as int) == b
}

proof fn lemma_before_char_len(s: Seq<char>, c: char)
    ensures
        before_char(s, c).len() <= s.len(),
        before_char(s, c).len() < s.len() ==> s[before_char(s, c).len() as int] == c,
        before_char(s, c) == s.take(before_char(s, c).len() as int),
    decreases s.len(),
{
    if s.len() > 0 && s[0] != c {
        lemma_before_char_len(s.drop_first(), c);
        let b = before_char(s.drop_first(), c);
        assert(seq![s[0]] + b =~= s.take(b.len() + 1int));
    } else {
        assert(s.take(0) =~= Seq::<char>::empty());
    }
}

/// `str::split('/')`.
pub fn split_slash(s: &str) -> (r: Vec<String>)
    ensures
        chars_seq(r@) == split_char(s@, '/'),
{
    let c = chars_of(s);
    let n = c.len();
    let mut out: Vec<String> = Vec::new();
    let mut lo: usize = 0;
    assert(c@.skip(0) =~= c@);
    assert(chars_seq(out@) + split_char(c@.skip(0), '/') =~= split_char(s@, '/'));
    loop
        invariant
            lo <= n == c@.len(),
            c@ == s@,
            chars_seq(out@) + split_char(c@.skip(lo as int), '/') == split_char(s@, '/'),
        decreases n - lo,
    {
        let ghost rest = c@.skip(lo as int);
        let e = before_char_end(c.as_slice(), lo, n, '/');
        assert(rest =~= c@.subrange(lo as int, n as int));
        proof {
            lemma_before_char_len(rest, '/');
        }
        let piece = string_of_range(c.as_slice(), lo, e);
        let ghost before = out@;
        out.push(piece);
        assert(chars_seq(out@) =~= chars_seq(before).push(piece@));
        if e == n {
            assert(chars_seq(out@) =~= chars_seq(before) + seq![rest]);
            return out;
        }
        assert(rest.skip(before_char(rest, '/').len() + 1int) =~= c@.skip(e + 1));
        assert(chars_seq(out@) + split_char(c@.skip(e + 1), '/')
            =~= chars_seq(before) + (seq![before_char(rest, '/')] + split_char(rest.skip(before_char(rest, '/').len() + 1int), '/')));
        lo = e + 1;
    }
}

/// The components of a path.
pub fn components_of(p: &str) -> (r: Vec<String>)
    ensures
        chars_seq(r@) == path_components(p@),
{
    let pieces = split_slash(p);
    let ghost ps = chars_seq(pieces@);
    let c = chars_of(p);
    let root = c.len() > 0 && c[0] == '/';
    let cur = !root && pieces.len() > 0 && str_eq(pieces[0].as_str(), ".");
    let mut out: Vec<String> = Vec::new();
    if root {
        out.push("/".to_owned());
    } else if cur {
        out.push(".".to_owned());
    }
    let ghost head = chars_seq(out@);
    assert(head =~= (if root { seq!["/"@] } else if cur { seq!["."@] } else { Seq::<Seq<char>>::empty() }));
    let mut i: usize = 0;
    assert(ps.take(0) =~= Seq::<Seq<char>>::empty());
    assert(chars_seq(out@) =~= head + named_pieces(ps.take(0)));
    while i < pieces.len()
        invariant
            i <= pieces@.len(),
            ps == chars_seq(pieces@),
            chars_seq(out@) == head + named_pieces(ps.take(i as int)),
        decreases pieces@.len() - i,
    {
        assert(ps.take(i + 1).drop_last() =~= ps.take(i as int));
        assert(ps.take(i + 1).last() == pieces@[i as int]@);
        if !pieces[i].as_str().is_empty() && !str_eq(pieces[i].as_str(), ".") {
            let x = pieces[i].clone();
            let ghost before = out@;
            out.push(x);
            assert(chars_seq(out@) =~= chars_seq(before).push(x@));
        }
        i += 1;
    }
    assert(ps.take(pieces@.len() as int) =~= ps);
    out
}

/// `Path::starts_with` on `/`-separated paths.
pub fn path_starts_with_exec(target: &str, base: &str) -> (r: bool)
    ensures
        r == path_starts_with(target@, base@),
{
    let t = components_of(target);
    let b = components_of(base);
    let ghost tv = chars_seq(t@);
    let ghost bv = chars_seq(b@);
    if b.len() > t.len() {
        return false;
    }
    let mut i: usize = 0;
    while i < b.len()
        invariant
            i <= b@.len() <= t@.len(),
            tv == chars_seq(t@),
            bv == chars_seq(b@),
            tv == path_components(target@),
            bv == path_components(base@),
            forall|k: int| 0 <= k < i ==> tv[k] == bv[k],
        decreases b@.len() - i,
    {
        if !str_eq(t[i].as_str(), b[i].as_str()) {
            assert(tv.take(bv.len() as int)[i as int] != bv[i as int]);
            return false;
        }
        i += 1;
    }
    assert(tv.take(bv.len() as int) =~= bv);
    true
}

/// Validate that a target path lies within the allowed base directory:
/// no `..` anywhere in it, and under `base`. This reads the text of the
/// paths alone; a path that names something on disk, where a link may lead
/// elsewhere, is checked after resolving with `validate_resolved_path`.
pub fn validate_path_within(base: &str, target: &str) -> (r: Result<(), AppError>)
    ensures
        contains_seq(target@, ".."@) ==> (r matches Err(AppError::PermissionDenied { message })
            && message@ == "Path traversal detected: contains '..'"@),
        !contains_seq(target@, ".."@) && !path_starts_with(target@, base@) ==> (
            r matches Err(AppError::PermissionDenied { message })
            && message@ == "Path is outside the allowed download directory"@),
        !contains_seq(target@, ".."@) && path_starts_with(target@, base@) ==> r is Ok,
{
    let t = chars_of(target);
    if contains_lit(t.as_slice(), "..") {
        return Err(AppError::PermissionDenied { message: "Path traversal detected: contains '..'".to_owned() });
    }
    if !path_starts_with_exec(target, base) {
        return Err(AppError::PermissionDenied { message: "Path is outside the allowed download directory".to_owned() });
    }
    Ok(())
}

/// Validate a path that is opened on disk, once it and the download
/// directory have been resolved (made absolute, every link followed): no
/// `..` in the path as given nor in the resolved one, and the resolved path
/// under the resolved directory. A link under the directory that leads
/// outside it is refused like any other escape.
pub fn validate_resolved_path(target: &str, resolved_base: &str, resolved_target: &str) -> (r: Result<(), AppError>)
    ensures
        contains_seq(target@, ".."@) || contains_seq(resolved_target@, ".."@) ==> (
            r matches Err(AppError::PermissionDenied { message })
            && message@ == "Path traversal detected: contains '..'"@),
        !contains_seq(target@, ".."@) && !contains_seq(resolved_target@, ".."@)
            && !path_starts_with(resolved_target@, resolved_base@) ==> (
            r matches Err(AppError::PermissionDenied { message })
            && message@ == "Path is outside the allowed download directory"@),
        !contains_seq(target@, ".."@) && !contains_seq(resolved_target@, ".."@)
            && path_starts_with(resolved_target@, resolved_base@) ==> r is Ok,
{
    let t = chars_of(target);
    if contains_lit(t.as_slice(), "..") {
        return Err(AppError::PermissionDenied { message: "Path traversal detected: contains '..'".to_owned() });
    }
    validate_path_within(resolved_base, resolved_target)
}

/// `Path::join` with a piece that holds no separator: the piece appended
/// after a `/` unless the base is empty or already ends with one; an
/// absolute piece replaces the base.
pub open spec fn path_join(base: Seq<char>, piece: Seq<char>) -> Seq<char> {
    if piece.len() > 0 && piece[0] == '/' {
        piece
    } else if base.len() == 0 || base.last() == '/' {
        base + piece
    } else {
        base + "/"@ + piece
    }
}

/// `Path::join` on `/`-separated paths.
pub fn join_path(base: &str, piece: &str) -> (r: String)
    ensures
        r@ == path_join(base@, piece@),
{
    let p = chars_of(piece);
    if p.len() > 0 && p[0] == '/' {
        return piece.to_owned();
    }
    let b = chars_of(base);
    if b.len() == 0 || b[b.len() - 1] == '/' {
        concat_str(base, piece)
    } else {
        let a = concat_str(base, "/");
        concat_str(a.as_str(), piece)
    }
}

/// The organized path of a download made on `date`:
/// `{dir}/{platform}/{author or unknown}/{date}/{title}.{ext}`, author and
/// title sanitized.
pub open spec fn spec_organized_path(
    dir: Seq<char>,
    platform: Platform,
    author: Option<Seq<char>>,
    title: Seq<char>,
    ext: Seq<char>,
    date: Seq<char>,
) -> Seq<char> {
    let author_dir = match author {
        Some(a) => spec_sanitize(a, None),
        None => "unknown"@,
    };
    let file = spec_sanitize(title, Some(ext));
    path_join(path_join(path_join(path_join(dir, spec_platform_name(platform)), author_dir), date), file)
}

/// What organizing gives for the path `p` under `dir`: a traversal error
/// where `p` holds `..`, an outside error where it is not under `dir`,
/// else `p`.
pub open spec fn organize_outcome(r: Result<String, AppError>, p: Seq<char>, dir: Seq<char>) -> bool {
    &&& contains_seq(p, ".."@) ==> (r matches Err(AppError::PermissionDenied { message })
        && message@ == "Path traversal detected: contains '..'"@)
    &&& !contains_seq(p, ".."@) && !path_starts_with(p, dir) ==> (
        r matches Err(AppError::PermissionDenied { message })
        && message@ == "Path is outside the allowed download directory"@)
    &&& !contains_seq(p, ".."@) && path_starts_with(p, dir) ==> (r matches Ok(x) && x@ == p)
}

/// Organize a download made on `date` into the directory structure, and
/// check that the result stays within `download_dir`.
pub fn organize_path_on(
    download_dir: &str,
    platform: Platform,
    author: Option<&str>,
    title: &str,
    extension: &str,
    date: &str,
) -> (r: Result<String, AppError>)
    ensures
        organize_outcome(r, spec_organized_path(download_dir@, platform, opt_view(author), title@, extension@, date@), download_dir@),
{
    let author_dir = match author {
        Some(a) => sanitize(a, None),
        None => "unknown".to_owned(),
    };
    let filename = sanitize(title, Some(extension));
    let a = join_path(download_dir, platform.as_str());
    let b = join_path(a.as_str(), author_dir.as_str());
    let c = join_path(b.as_str(), date);
    let full = join_path(c.as_str(), filename.as_str());
    match validate_path_within(download_dir, full.as_str()) {
        Ok(()) => Ok(full),
        Err(e) => Err(e),
    }
}

/// The shape of a date that `%Y-%m-%d` writes: at least ten characters
/// (a year of at least four digits, with a sign beyond 9999, then two-digit
/// month and day), each an ASCII digit, `-` or `+`.
pub open spec fn date_shaped(d: Seq<char>) -> bool {
    d.len() >= 10 && forall|i: int| 0 <= i < d.len() ==> {
        let c = #[trigger] d[i];
        ('0' <= c && c <= '9') || c == '-' || c == '+'
    }
}

/// Today's date in UTC as `YYYY-MM-DD`: `chrono::Utc::now()` formatted
/// with `%Y-%m-%d`. Which date comes back depends on the clock; the
/// contract claims only its shape, as chrono's `strftime` documentation
/// gives it: a year zero-padded to four digits (signed beyond 9999), a
/// two-digit month and a two-digit day, joined by `-`.
#[verifier::external_body]
pub(crate) fn today_utc_date() -> (r: String)
    ensures
        date_shaped(r@),
{
    chrono::Utc::now().format("%Y-%m-%d").to_string()
}

/// Organize a download file into
/// `{download_dir}/{platform}/{author_or_unknown}/{YYYY-MM-DD}/{filename}`,
/// dated today, and check that it stays within `download_dir`.
pub fn organize_path(
    download_dir: &str,
    platform: Platform,
    author: Option<&str>,
    title: &str,
    extension: &str,
) -> (r: Result<String, AppError>)
    ensures
        exists|date: Seq<char>| date_shaped(date)
            && organize_outcome(r, #[trigger] spec_organized_path(download_dir@, platform, opt_view(author), title@, extension@, date), download_dir@),
{
    let date = today_utc_date();
    let r = organize_path_on(download_dir, platform, author, title, extension, date.as_str());
    assert(organize_outcome(r, spec_organized_path(download_dir@, platform, opt_view(author), title@, extension@, date@), download_dir@));
    r
}

} // verus!
