//! Domain types: platforms, media, download tasks and their state machine,
//! settings, and event payloads.

use vstd::prelude::*;
use crate::error::AppError;
use crate::text::{clone_opt_string, concat_str};
use crate::web::opt_chars;

verus! {

/// Supported platforms for media resolution.
#[derive(Debug, Clone, Copy, PartialEq, Eq, Structural)]
pub enum Platform {
    Douyin,
    Xiaohongshu,
}

/// The platform's lowercase name.
pub open spec fn spec_platform_name(p: Platform) -> Seq<char> {
    match p {
        Platform::Douyin => "douyin"@,
        Platform::Xiaohongshu => "xiaohongshu"@,
    }
}

impl Platform {
    /// The platform's lowercase name (what `Display` prints).
    pub fn as_str(&self) -> (r: &'static str)
        ensures
            r@ == spec_platform_name(*self),
    {
        match self {
            Platform::Douyin => "douyin",
            Platform::Xiaohongshu => "xiaohongshu",
        }
    }
}

/// Media type classification.
#[derive(Debug, Clone, Copy, PartialEq, Eq, Structural)]
pub enum MediaType {
    Video,
    Image,
    Gif,
    Unknown,
}

/// Download task status with state machine semantics.
#[derive(Debug, Clone, Copy, PartialEq, Eq, Structural)]
pub enum TaskStatus {
    Waiting,
    Parsing,
    Downloading,
    Paused,
    Completed,
    Failed,
    Cancelled,
}

/// The transitions of the task state machine:
/// waiting → parsing | cancelled;
/// parsing → downloading | failed | cancelled;
/// downloading → paused | completed | failed | cancelled;
/// paused → downloading | cancelled;
/// failed → waiting (retry) | cancelled;
/// completed and cancelled are terminal.
pub open spec fn valid_transition(from: TaskStatus, to: TaskStatus) -> bool {
    match from {
        TaskStatus::Waiting => to == TaskStatus::Parsing || to == TaskStatus::Cancelled,
        TaskStatus::Parsing => to == TaskStatus::Downloading || to == TaskStatus::Failed
            || to == TaskStatus::Cancelled,
        TaskStatus::Downloading => to == TaskStatus::Paused || to == TaskStatus::Completed
            || to == TaskStatus::Failed || to == TaskStatus::Cancelled,
        TaskStatus::Paused => to == TaskStatus::Downloading || to == TaskStatus::Cancelled,
        TaskStatus::Failed => to == TaskStatus::Waiting || to == TaskStatus::Cancelled,
        TaskStatus::Completed => false,
        TaskStatus::Cancelled => false,
    }
}

/// Completed and cancelled are the terminal states.
pub open spec fn spec_is_terminal(s: TaskStatus) -> bool {
    s == TaskStatus::Completed || s == TaskStatus::Cancelled
}

/// The status's variant name, as `Debug` prints it.
pub open spec fn spec_status_debug_name(s: TaskStatus) -> Seq<char> {
    match s {
        TaskStatus::Waiting => "Waiting"@,
        TaskStatus::Parsing => "Parsing"@,
        TaskStatus::Downloading => "Downloading"@,
        TaskStatus::Paused => "Paused"@,
        TaskStatus::Completed => "Completed"@,
        TaskStatus::Failed => "Failed"@,
        TaskStatus::Cancelled => "Cancelled"@,
    }
}

/// The status's lowercase name, as stored and sent to the frontend.
pub open spec fn spec_status_name(s: TaskStatus) -> Seq<char> {
    match s {
        TaskStatus::Waiting => "waiting"@,
        TaskStatus::Parsing => "parsing"@,
        TaskStatus::Downloading => "downloading"@,
        TaskStatus::Paused => "paused"@,
        TaskStatus::Completed => "completed"@,
        TaskStatus::Failed => "failed"@,
        TaskStatus::Cancelled => "cancelled"@,
    }
}

impl TaskStatus {
    /// The status's lowercase name.
    pub fn as_str(&self) -> (r: &'static str)
        ensures
            r@ == spec_status_name(*self),
    {
        match self {
            TaskStatus::Waiting => "waiting",
            TaskStatus::Parsing => "parsing",
            TaskStatus::Downloading => "downloading",
            TaskStatus::Paused => "paused",
            TaskStatus::Completed => "completed",
            TaskStatus::Failed => "failed",
            TaskStatus::Cancelled => "cancelled",
        }
    }

    /// The status's variant name, as `Debug` prints it.
    pub fn debug_name(&self) -> (r: &'static str)
        ensures
            r@ == spec_status_debug_name(*self),
    {
        match self {
            TaskStatus::Waiting => "Waiting",
            TaskStatus::Parsing => "Parsing",
            TaskStatus::Downloading => "Downloading",
            TaskStatus::Paused => "Paused",
            TaskStatus::Completed => "Completed",
            TaskStatus::Failed => "Failed",
            TaskStatus::Cancelled => "Cancelled",
        }
    }

    /// Check if a transition from the current state to the target state is valid.
    /// Returns `Ok(())` if valid, `Err(InvalidTransition)` if not.
    pub fn can_transition_to(&self, target: &TaskStatus) -> (r: Result<(), AppError>)
        ensures
            r is Ok <==> valid_transition(*self, *target),
            r matches Err(e) ==> e matches AppError::InvalidTransition { message, from, to }
                && message@ == "Cannot transition from "@ + spec_status_debug_name(*self) + " to "@
                    + spec_status_debug_name(*target)
                && from@ == spec_status_name(*self)
                && to@ == spec_status_name(*target),
    {
        let valid = match self {
            TaskStatus::Waiting => matches!(target, TaskStatus::Parsing | TaskStatus::Cancelled),
            TaskStatus::Parsing => matches!(
                target,
                TaskStatus::Downloading | TaskStatus::Failed | TaskStatus::Cancelled
            ),
            TaskStatus::Downloading => matches!(
                target,
                TaskStatus::Paused | TaskStatus::Completed | TaskStatus::Failed | TaskStatus::Cancelled
            ),
            TaskStatus::Paused => matches!(target, TaskStatus::Downloading | TaskStatus::Cancelled),
            TaskStatus::Failed => matches!(target, TaskStatus::Waiting | TaskStatus::Cancelled),
            TaskStatus::Completed | TaskStatus::Cancelled => false,
        };
        if valid {
            Ok(())
        } else {
            let a = concat_str("Cannot transition from ", self.debug_name());
            let b = concat_str(a.as_str(), " to ");
            let message = concat_str(b.as_str(), target.debug_name());
            let from = self.as_str().to_owned();
            let to = target.as_str().to_owned();
            Err(AppError::InvalidTransition { message, from, to })
        }
    }

    /// Check if this is a terminal state.
    pub fn is_terminal(&self) -> (r: bool)
        ensures
            r == spec_is_terminal(*self),
    {
        matches!(self, TaskStatus::Completed | TaskStatus::Cancelled)
    }
}

/// A state is terminal exactly when no transition leaves it.
pub proof fn terminal_iff_no_exit(s: TaskStatus)
    ensures
        spec_is_terminal(s) <==> forall|t: TaskStatus| !valid_transition(s, t),
{
    if !spec_is_terminal(s) {
        assert(valid_transition(s, TaskStatus::Cancelled));
    }
}

/// Every non-terminal state can be cancelled.
pub proof fn cancel_reachable_from_live_states(s: TaskStatus)
    requires
        !spec_is_terminal(s),
    ensures
        valid_transition(s, TaskStatus::Cancelled),
{
}

/// No state transitions to itself.
pub proof fn no_self_transition(s: TaskStatus)
    ensures
        !valid_transition(s, s),
{
}

/// A lowercase hexadecimal digit.
pub open spec fn is_lower_hex(c: char) -> bool {
    ('0' <= c && c <= '9') || ('a' <= c && c <= 'f')
}

/// The hyphenated text form of a UUID: 36 characters, hyphens at positions
/// 8, 13, 18 and 23, lowercase hexadecimal digits elsewhere.
pub open spec fn is_hyphenated_uuid(s: Seq<char>) -> bool {
    &&& s.len() == 36
    &&& forall|i: int| 0 <= i < 36 ==> if i == 8 || i == 13 || i == 18 || i == 23 {
        s[i] == '-'
    } else {
        is_lower_hex(#[trigger] s[i])
    }
}

/// A fresh random identifier: `uuid::Uuid::new_v4()` rendered by its
/// `Display` impl, which writes the lowercase hyphenated form. Which
/// identifier comes back is chance; only its shape is claimed.
#[verifier::external_body]
fn new_uuid_v4_string() -> (r: String)
    ensures
        is_hyphenated_uuid(r@),
{
    uuid::Uuid::new_v4().to_string()
}

/// The current time as milliseconds since the Unix epoch:
/// `chrono::Utc::now().timestamp_millis()`. The value depends on the clock,
/// so nothing is claimed of it.
#[verifier::external_body]
pub(crate) fn now_unix_millis() -> (r: i64) {
    chrono::Utc::now().timestamp_millis()
}

/// A single media item within a resolved media result.
#[derive(Debug, Clone)]
pub struct MediaItem {
    pub media_type: MediaType,
    pub url: String,
    pub filename_hint: Option<String>,
    pub mime_type: Option<String>,
    pub size: Option<u64>,
    /// Bitrate in kbps (from URL parameters such as `br=`).
    pub bitrate: Option<u32>,
    /// Human-readable quality label (e.g. "1080p").
    pub quality_label: Option<String>,
}

/// The plain values of a media item: type, URL, filename hint, MIME type,
/// size, bitrate, quality label.
pub type MediaItemView = (
    MediaType,
    Seq<char>,
    Option<Seq<char>>,
    Option<Seq<char>>,
    Option<u64>,
    Option<u32>,
    Option<Seq<char>>,
);

/// The plain values of `m`.
pub open spec fn media_item_view(m: MediaItem) -> MediaItemView {
    (m.media_type, m.url@, opt_chars(m.filename_hint), opt_chars(m.mime_type), m.size, m.bitrate, opt_chars(m.quality_label))
}

/// The plain values of each item.
pub open spec fn media_items_view(v: Seq<MediaItem>) -> Seq<MediaItemView> {
    v.map_values(|m: MediaItem| media_item_view(m))
}

/// Result of resolving a URL to its media content.
#[derive(Debug, Clone)]
pub struct ResolvedMedia {
    pub platform: Platform,
    pub source_url: String,
    pub canonical_url: String,
    pub title: Option<String>,
    pub author: Option<String>,
    pub media_items: Vec<MediaItem>,
    pub cover: Option<String>,
    /// Publication time in milliseconds since the Unix epoch, when known.
    pub created_at: Option<i64>,
}

/// A download task entity with full state.
#[derive(Debug)]
pub struct DownloadTask {
    pub id: String,
    pub url: String,
    pub platform: Platform,
    pub status: TaskStatus,
    /// Progress in hundredths of a percent (0 to 10000).
    pub progress_hundredths: u32,
    pub speed: u64,
    pub downloaded_size: u64,
    pub total_size: Option<u64>,
    pub save_path: Option<String>,
    pub error: Option<String>,
    pub title: Option<String>,
    pub author: Option<String>,
    pub media_type: MediaType,
    /// Creation time in milliseconds since the Unix epoch.
    pub created_at: i64,
    /// Last update time in milliseconds since the Unix epoch.
    pub updated_at: i64,
}

/// A task as created: waiting, no progress, nothing downloaded yet.
pub open spec fn is_fresh_task(
    t: DownloadTask,
    url: Seq<char>,
    platform: Platform,
    media_type: MediaType,
) -> bool {
    &&& t.url@ == url
    &&& t.platform == platform
    &&& t.media_type == media_type
    &&& t.status == TaskStatus::Waiting
    &&& t.progress_hundredths == 0
    &&& t.speed == 0
    &&& t.downloaded_size == 0
    &&& t.total_size is None
    &&& t.save_path is None
    &&& t.error is None
    &&& t.title is None
    &&& t.author is None
    &&& t.created_at == t.updated_at
}

impl DownloadTask {
    /// Create a new download task in waiting state, with a fresh random
    /// identifier and the current time.
    pub fn new(url: String, platform: Platform, media_type: MediaType) -> (r: Self)
        ensures
            is_fresh_task(r, url@, platform, media_type),
            is_hyphenated_uuid(r.id@),
    {
        let id = new_uuid_v4_string();
        let now = now_unix_millis();
        Self::with_identity(id, url, platform, media_type, now)
    }

    /// Create a new download task in waiting state with the given identifier
    /// and creation time.
    pub fn with_identity(
        id: String,
        url: String,
        platform: Platform,
        media_type: MediaType,
        now: i64,
    ) -> (r: Self)
        ensures
            is_fresh_task(r, url@, platform, media_type),
            r.id == id,
            r.created_at == now,
    {
        DownloadTask {
            id,
            url,
            platform,
            status: TaskStatus::Waiting,
            progress_hundredths: 0,
            speed: 0,
            downloaded_size: 0,
            total_size: None,
            save_path: None,
            error: None,
            title: None,
            author: None,
            media_type,
            created_at: now,
            updated_at: now,
        }
    }

    /// A task with the same fields as this one.
    pub fn duplicate(&self) -> (r: Self)
        ensures
            r == *self,
    {
        DownloadTask {
            id: self.id.clone(),
            url: self.url.clone(),
            platform: self.platform,
            status: self.status,
            progress_hundredths: self.progress_hundredths,
            speed: self.speed,
            downloaded_size: self.downloaded_size,
            total_size: self.total_size,
            save_path: clone_opt_string(&self.save_path),
            error: clone_opt_string(&self.error),
            title: clone_opt_string(&self.title),
            author: clone_opt_string(&self.author),
            media_type: self.media_type,
            created_at: self.created_at,
            updated_at: self.updated_at,
        }
    }
}

/// Application settings.
#[derive(Debug, Clone)]
pub struct AppSettings {
    pub download_dir: String,
    pub max_concurrency: u8,
    pub filename_template: String,
    pub auto_clipboard: bool,
    pub keep_history: bool,
    pub debug_log: bool,
    pub theme: String,
    pub language: String,
}

/// The default settings.
pub open spec fn is_default_settings(s: AppSettings) -> bool {
    &&& s.download_dir@ == Seq::<char>::empty()
    &&& s.max_concurrency == 3
    &&& s.filename_template@ == "{platform}/{author}/{date}/{title}_{index}.{ext}"@
    &&& !s.auto_clipboard
    &&& s.keep_history
    &&& !s.debug_log
    &&& s.theme@ == "system"@
    &&& s.language@ == "zh-CN"@
}

impl Default for AppSettings {
    fn default() -> (r: Self)
        ensures
            is_default_settings(r),
    {
        AppSettings {
            download_dir: String::new(),
            max_concurrency: 3,
            filename_template: "{platform}/{author}/{date}/{title}_{index}.{ext}".to_owned(),
            auto_clipboard: false,
            keep_history: true,
            debug_log: false,
            theme: "system".to_owned(),
            language: "zh-CN".to_owned(),
        }
    }
}

/// Event payload for task completion.
#[derive(Debug, Clone)]
pub struct TaskCompletedEvent {
    pub id: String,
    pub save_path: String,
}

/// Event payload for task failure.
#[derive(Debug, Clone)]
pub struct TaskFailedEvent {
    pub id: String,
    pub error_code: String,
    pub error_message: String,
}

} // verus!
