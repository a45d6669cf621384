//! Rules behind the download task commands: the media type and extension a
//! URL suggests, where a task's file is saved, and what a finished download
//! does to its task.

use vstd::prelude::*;
use crate::error::{spec_display, AppError};
use crate::models::{
    is_fresh_task, is_hyphenated_uuid, DownloadTask, MediaType, Platform, TaskCompletedEvent, TaskFailedEvent,
    TaskStatus,
};
use crate::text::{
    byte_len, char_len_utf8, chars_of, concat_str, contains_lit, contains_seq, lemma_byte_len_prefix,
    lemma_byte_len_push, starts_with_seq, str_eq, str_starts_with, string_of, string_of_range, trim, trim_ws,
};
use crate::web::opt_chars;

verus! {

/// The platform a command names; unknown names mean Douyin.
pub open spec fn spec_platform_from_str(s: Seq<char>) -> Platform {
    if s == "douyin"@ {
        Platform::Douyin
    } else if s == "xiaohongshu"@ {
        Platform::Xiaohongshu
    } else {
        Platform::Douyin
    }
}

/// The platform a command names.
pub fn platform_from_str(s: &str) -> (r: Platform)
    ensures
        r == spec_platform_from_str(s@),
{
    if str_eq(s, "douyin") {
        Platform::Douyin
    } else if str_eq(s, "xiaohongshu") {
        Platform::Xiaohongshu
    } else {
        Platform::Douyin
    }
}

/// The file extension a URL and media type suggest: hints in the URL
/// first, then the media type.
pub open spec fn spec_guess_extension(u: Seq<char>, t: MediaType) -> Seq<char> {
    if contains_seq(u, ".jpg"@) || contains_seq(u, "jpeg"@) || contains_seq(u, "image/jpeg"@) {
        "jpg"@
    } else if contains_seq(u, ".png"@) || contains_seq(u, "image/png"@) {
        "png"@
    } else if contains_seq(u, ".gif"@) || contains_seq(u, "image/gif"@) {
        "gif"@
    } else if contains_seq(u, ".webp"@) || contains_seq(u, "image/webp"@) {
        "webp"@
    } else if contains_seq(u, ".mp4"@) || contains_seq(u, "video/mp4"@) || contains_seq(u, "mime_type=video_mp4"@) {
        "mp4"@
    } else {
        match t {
            MediaType::Video => "mp4"@,
            MediaType::Image => "jpg"@,
            MediaType::Gif => "gif"@,
            MediaType::Unknown => "bin"@,
        }
    }
}

/// Guess the file extension from URL and media type.
pub fn guess_extension(url: &str, media_type: &MediaType) -> (r: &'static str)
    ensures
        r@ == spec_guess_extension(url@, *media_type),
{
    let c = chars_of(url);
    let s = c.as_slice();
    if contains_lit(s, ".jpg") || contains_lit(s, "jpeg") || contains_lit(s, "image/jpeg") {
        return "jpg";
    }
    if contains_lit(s, ".png") || contains_lit(s, "image/png") {
        return "png";
    }
    if contains_lit(s, ".gif") || contains_lit(s, "image/gif") {
        return "gif";
    }
    if contains_lit(s, ".webp") || contains_lit(s, "image/webp") {
        return "webp";
    }
    if contains_lit(s, ".mp4") || contains_lit(s, "video/mp4") || contains_lit(s, "mime_type=video_mp4") {
        return "mp4";
    }
    match media_type {
        MediaType::Video => "mp4",
        MediaType::Image => "jpg",
        MediaType::Gif => "gif",
        MediaType::Unknown => "bin",
    }
}

/// The media type a URL suggests.
pub open spec fn spec_guess_media_type(u: Seq<char>) -> MediaType {
    if starts_with_seq(u, "DASH_MERGE||"@) || contains_seq(u, "video"@) || contains_seq(u, ".mp4"@)
        || contains_seq(u, "mime_type=video_mp4"@) {
        MediaType::Video
    } else if contains_seq(u, ".gif"@) || contains_seq(u, "format/gif"@) {
        MediaType::Gif
    } else if contains_seq(u, ".jpg"@) || contains_seq(u, ".png"@) || contains_seq(u, ".webp"@)
        || contains_seq(u, "image"@) || contains_seq(u, "xhscdn"@) {
        MediaType::Image
    } else {
        MediaType::Unknown
    }
}

/// Guess media type from URL patterns.
pub fn guess_media_type(url: &str) -> (r: MediaType)
    ensures
        r == spec_guess_media_type(url@),
{
    let c = chars_of(url);
    let s = c.as_slice();
    if str_starts_with(url, "DASH_MERGE||") || contains_lit(s, "video") || contains_lit(s, ".mp4")
        || contains_lit(s, "mime_type=video_mp4") {
        MediaType::Video
    } else if contains_lit(s, ".gif") || contains_lit(s, "format/gif") {
        MediaType::Gif
    } else if contains_lit(s, ".jpg") || contains_lit(s, ".png") || contains_lit(s, ".webp")
        || contains_lit(s, "image") || contains_lit(s, "xhscdn") {
        MediaType::Image
    } else {
        MediaType::Unknown
    }
}

/// Whether `char::is_alphanumeric` holds of a character.
pub uninterp spec fn unicode_alphanumeric(c: char) -> bool;

/// `char::is_alphanumeric`: Unicode Alphabetic or Numeric, which among
/// ASCII characters holds exactly of letters and digits.
#[verifier::external_body]
fn is_alphanumeric(c: char) -> (r: bool)
    ensures
        r == unicode_alphanumeric(c),
        (c as u32) < 0x80 ==> (r <==> (('a' <= c && c <= 'z') || ('A' <= c && c <= 'Z') || ('0' <= c && c <= '9'))),
{
    c.is_alphanumeric()
}

/// A character kept in a folder name: alphanumeric, `-`, `_`, space, or
/// beyond U+2E80 (CJK and later); others become `_`.
pub open spec fn folder_char(c: char) -> char {
    if unicode_alphanumeric(c) || c == '-' || c == '_' || c == ' ' || (c as u32) > 0x2E80 { c } else { '_' }
}

/// The first `n` characters (all where there are fewer).
pub open spec fn first_chars(s: Seq<char>, n: int) -> Seq<char> {
    if s.len() <= n { s } else { s.take(n) }
}

/// The folder a title gives: its first 60 characters, cleaned and trimmed;
/// `未知标题` where nothing is left.
pub open spec fn spec_folder_name(title: Seq<char>) -> Seq<char> {
    let cleaned = first_chars(title, 60).map_values(|c: char| folder_char(c));
    let t = trim_ws(cleaned);
    if t.len() == 0 { "未知标题"@ } else { t }
}

/// The first eight bytes of an identifier, where they end on a character
/// boundary.
pub open spec fn has_id_prefix(id: Seq<char>) -> bool {
    exists|k: int| 0 <= k <= id.len() && byte_len(#[trigger] id.take(k)) == 8
}

/// The characters of the first eight bytes of an identifier.
pub open spec fn id_prefix(id: Seq<char>) -> Seq<char> {
    id.take(choose|k: int| 0 <= k <= id.len() && byte_len(#[trigger] id.take(k)) == 8)
}

/// Where a task's file goes: the folder named by its title (`未知标题`
/// without one), and the file named by the folder's first 30 characters,
/// `_`, the first eight bytes of the task id, and the extension.
pub open spec fn spec_task_file(title: Option<Seq<char>>, id: Seq<char>, url: Seq<char>, t: MediaType) -> (Seq<char>, Seq<char>) {
    let title_text = match title {
        Some(x) => x,
        None => "未知标题"@,
    };
    let folder = spec_folder_name(title_text);
    let base = first_chars(folder, 30) + "_"@ + id_prefix(id);
    (folder, trim_ws(base) + "."@ + spec_guess_extension(url, t))
}

proof fn lemma_byte_len_monotone(s: Seq<char>, j: int, k: int)
    requires
        0 <= j <= k <= s.len(),
    ensures
        byte_len(s.take(j)) <= byte_len(s.take(k)),
{
    lemma_byte_len_prefix(s.take(k), j);
    assert(s.take(k).take(j) =~= s.take(j));
}

fn id_prefix_len(id: &[char]) -> (k: usize)
    requires
        has_id_prefix(id@),
    ensures
        k <= id@.len(),
        id@.take(k as int) == id_prefix(id@),
{
    let mut total: usize = 0;
    let mut i: usize = 0;
    while total < 8
        invariant
            i <= id@.len(),
            total == byte_len(id@.take(i as int)),
            total <= 8,
            has_id_prefix(id@),
            forall|j: int| 0 <= j < i ==> byte_len(#[trigger] id@.take(j)) < 8,
        decreases 8 - total,
    {
        if i == id.len() {
            proof {
                let w = choose|k: int| 0 <= k <= id@.len() && byte_len(#[trigger] id@.take(k)) == 8;
                if w == i {
                } else {
                    assert(byte_len(id@.take(w)) < 8);
                }
            }
            return 0;
        }
        let c = char_len_utf8(id[i]);
        proof {
            assert(id@.take(i + 1) =~= id@.take(i as int).push(id@[i as int]));
            lemma_byte_len_push(id@.take(i as int), id@[i as int]);
        }
        if total + c > 8 {
            proof {
                let w = choose|k: int| 0 <= k <= id@.len() && byte_len(#[trigger] id@.take(k)) == 8;
                if w <= i {
                    if w < i {
                        assert(byte_len(id@.take(w)) < 8);
                    }
                } else {
                    lemma_byte_len_monotone(id@, i + 1, w);
                }
            }
            return 0;
        }
        total = total + c;
        i += 1;
    }
    proof {
        let w = choose|k: int| 0 <= k <= id@.len() && byte_len(#[trigger] id@.take(k)) == 8;
        if w < i {
            assert(byte_len(id@.take(w)) < 8);
        } else if w > i {
            if i < id@.len() {
                assert(id@.take(i + 1) =~= id@.take(i as int).push(id@[i as int]));
                lemma_byte_len_push(id@.take(i as int), id@[i as int]);
                lemma_byte_len_monotone(id@, i + 1, w);
            }
        }
    }
    i
}

fn first_chars_exec(s: &[char], n: usize) -> (r: Vec<char>)
    ensures
        r@ == first_chars(s@, n as int),
{
    let m = if s.len() <= n { s.len() } else { n };
    let mut out: Vec<char> = Vec::new();
    let mut i: usize = 0;
    while i < m
        invariant
            i <= m <= s@.len(),
            m == if s@.len() <= n { s@.len() } else { n as nat },
            out@ == s@.take(i as int),
        decreases m - i,
    {
        out.push(s[i]);
        assert(s@.take(i + 1) =~= s@.take(i as int).push(s@[i as int]));
        i += 1;
    }
    assert(s@.take(m as int) =~= first_chars(s@, n as int));
    out
}

fn folder_name(title: &str) -> (r: String)
    ensures
        r@ == spec_folder_name(title@),
{
    let t = chars_of(title);
    let head = first_chars_exec(t.as_slice(), 60);
    let mut cleaned: Vec<char> = Vec::new();
    let mut i: usize = 0;
    while i < head.len()
        invariant
            i <= head@.len(),
            cleaned@ == head@.take(i as int).map_values(|c: char| folder_char(c)),
        decreases head@.len() - i,
    {
        let c = head[i];
        let keep = is_alphanumeric(c) || c == '-' || c == '_' || c == ' ' || (c as u32) > 0x2E80;
        cleaned.push(if keep { c } else { '_' });
        assert(head@.take(i + 1).map_values(|c: char| folder_char(c))
            =~= head@.take(i as int).map_values(|c: char| folder_char(c)).push(folder_char(c)));
        i += 1;
    }
    assert(head@.take(head@.len() as int) =~= head@);
    let s = string_of(cleaned.as_slice());
    let trimmed = trim(s.as_str());
    if trimmed.as_str().is_empty() {
        "未知标题".to_owned()
    } else {
        trimmed
    }
}

/// Generate where a task's file is saved: the folder named after its title
/// and the file name within it.
pub fn generate_filename(task: &DownloadTask) -> (r: (String, String))
    requires
        has_id_prefix(task.id@),
    ensures
        (r.0@, r.1@) == spec_task_file(opt_chars(task.title), task.id@, task.url@, task.media_type),
{
    let ext = guess_extension(task.url.as_str(), &task.media_type);
    let folder = match &task.title {
        Some(t) => folder_name(t.as_str()),
        None => folder_name("未知标题"),
    };
    let fc = chars_of(folder.as_str());
    let head = first_chars_exec(fc.as_slice(), 30);
    let head_s = string_of(head.as_slice());
    let idc = chars_of(task.id.as_str());
    let k = id_prefix_len(idc.as_slice());
    let idp = string_of_range(idc.as_slice(), 0, k);
    assert(idc@.subrange(0, k as int) =~= idc@.take(k as int));
    let a = concat_str(head_s.as_str(), "_");
    let base = concat_str(a.as_str(), idp.as_str());
    let tb = trim(base.as_str());
    let b = concat_str(tb.as_str(), ".");
    let filename = concat_str(b.as_str(), ext);
    (folder, filename)
}

/// The task that adding a download creates: waiting, for the named
/// platform (Douyin for unknown names), with the media type the URL
/// suggests.
pub fn new_download_task(url: String, platform: &str) -> (r: DownloadTask)
    ensures
        is_fresh_task(r, url@, spec_platform_from_str(platform@), spec_guess_media_type(url@)),
        is_hyphenated_uuid(r.id@),
{
    let plat = platform_from_str(platform);
    let media_type = guess_media_type(url.as_str());
    DownloadTask::new(url, plat, media_type)
}

/// What a finished download announces.
#[derive(Debug)]
pub enum DownloadOutcome {
    Completed(TaskCompletedEvent),
    Failed(TaskFailedEvent),
}

/// The status a finished download moves its task to, and the event it
/// announces: completion with the saved path, or failure with code
/// `DownloadFailed` and the error's text.
pub fn download_outcome(id: &str, result: &Result<String, AppError>) -> (r: (TaskStatus, DownloadOutcome))
    ensures
        match result {
            Ok(path) => {
                &&& r.0 == TaskStatus::Completed
                &&& r.1 matches DownloadOutcome::Completed(ev)
                &&& ev.id@ == id@
                &&& ev.save_path@ == path@
            },
            Err(e) => {
                &&& r.0 == TaskStatus::Failed
                &&& r.1 matches DownloadOutcome::Failed(ev)
                &&& ev.id@ == id@
                &&& ev.error_code@ == "DownloadFailed"@
                &&& ev.error_message@ == "下载失败: "@ + spec_display(*e)
            },
        },
{
    match result {
        Ok(path) => (
            TaskStatus::Completed,
            DownloadOutcome::Completed(TaskCompletedEvent { id: id.to_owned(), save_path: path.clone() }),
        ),
        Err(e) => {
            let text = e.to_display_string();
            (
                TaskStatus::Failed,
                DownloadOutcome::Failed(TaskFailedEvent {
                    id: id.to_owned(),
                    error_code: "DownloadFailed".to_owned(),
                    error_message: concat_str("下载失败: ", text.as_str()),
                }),
            )
        },
    }
}

/// The failure announced when the download directory cannot be created:
/// code `DiskFullOrIoError` and the reason given.
pub fn directory_failure(id: &str, reason: &str) -> (r: TaskFailedEvent)
    ensures
        r.id@ == id@,
        r.error_code@ == "DiskFullOrIoError"@,
        r.error_message@ == "无法创建下载目录: "@ + reason@,
{
    TaskFailedEvent {
        id: id.to_owned(),
        error_code: "DiskFullOrIoError".to_owned(),
        error_message: concat_str("无法创建下载目录: ", reason),
    }
}

} // verus!
