//! Download history rules: the stored names of platforms and statuses,
//! reading them back, and the history query.

use vstd::prelude::*;
use crate::models::{spec_platform_name, spec_status_name, Platform, TaskStatus};
use crate::page::chars_seq;
use crate::text::{concat_str, str_eq};

verus! {

/// A download recorded in the history.
#[derive(Debug, Clone)]
pub struct HistoryEntry {
    pub id: String,
    pub url: String,
    pub platform: Platform,
    pub author: Option<String>,
    pub title: Option<String>,
    pub status: TaskStatus,
    pub save_path: Option<String>,
    /// Creation time in milliseconds since the Unix epoch.
    pub created_at: i64,
}

/// The platform a stored name stands for; unknown names read as Douyin.
pub open spec fn spec_parse_platform(s: Seq<char>) -> Platform {
    if s == "douyin"@ {
        Platform::Douyin
    } else if s == "xiaohongshu"@ {
        Platform::Xiaohongshu
    } else {
        Platform::Douyin
    }
}

/// Read a stored platform name back.
pub fn parse_platform(s: &str) -> (r: Platform)
    ensures
        r == spec_parse_platform(s@),
{
    if str_eq(s, "douyin") {
        Platform::Douyin
    } else if str_eq(s, "xiaohongshu") {
        Platform::Xiaohongshu
    } else {
        Platform::Douyin
    }
}

/// The status a stored name stands for; unknown names read as failed.
pub open spec fn spec_parse_status(s: Seq<char>) -> TaskStatus {
    if s == "completed"@ {
        TaskStatus::Completed
    } else if s == "failed"@ {
        TaskStatus::Failed
    } else if s == "cancelled"@ {
        TaskStatus::Cancelled
    } else {
        TaskStatus::Failed
    }
}

/// Read a stored status name back.
pub fn parse_status(s: &str) -> (r: TaskStatus)
    ensures
        r == spec_parse_status(s@),
{
    if str_eq(s, "completed") {
        TaskStatus::Completed
    } else if str_eq(s, "failed") {
        TaskStatus::Failed
    } else if str_eq(s, "cancelled") {
        TaskStatus::Cancelled
    } else {
        TaskStatus::Failed
    }
}

/// Stored names read back as what was stored: every platform, and the
/// statuses a finished download can have.
pub proof fn stored_names_read_back(p: Platform, s: TaskStatus)
    requires
        s == TaskStatus::Completed || s == TaskStatus::Failed || s == TaskStatus::Cancelled,
    ensures
        spec_parse_platform(spec_platform_name(p)) == p,
        spec_parse_status(spec_status_name(s)) == s,
{
    reveal_strlit("douyin");
    reveal_strlit("xiaohongshu");
    reveal_strlit("completed");
    reveal_strlit("failed");
    reveal_strlit("cancelled");
    assert("failed"@ != "completed"@) by { assert("failed"@.len() != "completed"@.len()); }
    assert("cancelled"@ != "completed"@) by { assert("cancelled"@[1] != "completed"@[1]); }
    assert("cancelled"@ != "failed"@) by { assert("failed"@.len() != "cancelled"@.len()); }
    assert("xiaohongshu"@ != "douyin"@) by { assert("douyin"@.len() != "xiaohongshu"@.len()); }
}

/// A history query: its SQL text and its parameters, in order.
#[derive(Debug)]
pub struct HistoryQuery {
    pub sql: String,
    pub params: Vec<String>,
}

/// The base of the history query.
pub open spec fn history_select() -> Seq<char> {
    "SELECT id, url, platform, author, title, status, save_path, created_at FROM history WHERE 1=1"@
}

/// The history query for an optional search term and status filter (each
/// ignored when empty): entries whose title, author or URL contain the
/// term, with the given status, newest first.
pub open spec fn spec_history_query(search: Option<Seq<char>>, status: Option<Seq<char>>) -> (Seq<char>, Seq<Seq<char>>) {
    let use_search = search is Some && search.unwrap().len() > 0;
    let use_status = status is Some && status.unwrap().len() > 0;
    let sql1 = if use_search {
        history_select() + " AND (title LIKE ?1 OR author LIKE ?1 OR url LIKE ?1)"@
    } else {
        history_select()
    };
    let params1: Seq<Seq<char>> = if use_search { seq!["%"@ + search.unwrap() + "%"@] } else { Seq::empty() };
    let sql2 = if use_status {
        sql1 + (if use_search { " AND status = ?2"@ } else { " AND status = ?1"@ })
    } else {
        sql1
    };
    let params2 = if use_status { params1.push(status.unwrap()) } else { params1 };
    (sql2 + " ORDER BY created_at DESC"@, params2)
}

/// An optional string slice as an optional character sequence.
pub open spec fn opt_slice_chars(o: Option<&str>) -> Option<Seq<char>> {
    match o {
        Some(x) => Some(x@),
        None => None,
    }
}

/// Build the history query for an optional search term and status filter.
pub fn history_query(search: Option<&str>, status_filter: Option<&str>) -> (r: HistoryQuery)
    ensures
        (r.sql@, chars_seq(r.params@)) == spec_history_query(opt_slice_chars(search), opt_slice_chars(status_filter)),
{
    let mut sql = "SELECT id, url, platform, author, title, status, save_path, created_at FROM history WHERE 1=1".to_owned();
    let mut params: Vec<String> = Vec::new();
    let mut use_search = false;
    match search {
        Some(term) => {
            if !term.is_empty() {
                sql = concat_str(sql.as_str(), " AND (title LIKE ?1 OR author LIKE ?1 OR url LIKE ?1)");
                let a = concat_str("%", term);
                params.push(concat_str(a.as_str(), "%"));
                use_search = true;
            }
        },
        None => {},
    }
    match status_filter {
        Some(st) => {
            if !st.is_empty() {
                if use_search {
                    sql = concat_str(sql.as_str(), " AND status = ?2");
                } else {
                    sql = concat_str(sql.as_str(), " AND status = ?1");
                }
                params.push(st.to_owned());
            }
        },
        None => {},
    }
    sql = concat_str(sql.as_str(), " ORDER BY created_at DESC");
    let ghost want = spec_history_query(opt_slice_chars(search), opt_slice_chars(status_filter));
    assert(chars_seq(params@) =~= want.1);
    HistoryQuery { sql, params }
}

} // verus!
