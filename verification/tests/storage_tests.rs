use clipsave::error::AppError;
use clipsave::models::{AppSettings, Platform, TaskStatus};
use clipsave::storage::history::{history_query, parse_platform, parse_status, HistoryEntry};
use clipsave::storage::settings::{
    apply_setting, parse_u8, settings_from_rows, settings_pairs, validate_settings, validate_template,
};
use rusqlite::Connection;

#[test]
fn test_validate_template_valid() {
    assert!(validate_template("{platform}/{author}/{date}/{title}_{index}.{ext}").is_ok());
    assert!(validate_template("{title}.{ext}").is_ok());
    assert!(validate_template("plain_text").is_ok());
}

#[test]
fn test_validate_template_invalid() {
    assert!(validate_template("{unknown_token}").is_err());
    assert!(validate_template("{platform}/{invalid}").is_err());
}

fn settings_db() -> Connection {
    let conn = Connection::open_in_memory().unwrap();
    conn.execute_batch("CREATE TABLE settings (key TEXT PRIMARY KEY, value TEXT NOT NULL);").unwrap();
    conn
}

fn save_settings(conn: &Connection, settings: &AppSettings) -> Result<(), AppError> {
    validate_settings(settings)?;
    for (key, value) in settings_pairs(settings) {
        conn.execute("INSERT OR REPLACE INTO settings (key, value) VALUES (?1, ?2)", (key.as_str(), value.as_str()))
            .unwrap();
    }
    Ok(())
}

fn load_settings(conn: &Connection) -> AppSettings {
    let mut stmt = conn.prepare("SELECT key, value FROM settings").unwrap();
    let rows: Vec<(String, String)> = stmt
        .query_map([], |row| Ok((row.get::<_, String>(0)?, row.get::<_, String>(1)?)))
        .unwrap()
        .map(|r| r.unwrap())
        .collect();
    settings_from_rows(&rows)
}

#[test]
fn test_settings_roundtrip() {
    let conn = settings_db();
    let settings = AppSettings {
        download_dir: "/tmp/downloads".to_string(),
        max_concurrency: 5,
        filename_template: "{title}.{ext}".to_string(),
        auto_clipboard: true,
        keep_history: false,
        debug_log: true,
        theme: "dark".to_string(),
        language: "en-US".to_string(),
    };
    save_settings(&conn, &settings).unwrap();
    let loaded = load_settings(&conn);
    assert_eq!(loaded.download_dir, "/tmp/downloads");
    assert_eq!(loaded.max_concurrency, 5);
    assert_eq!(loaded.auto_clipboard, true);
    assert_eq!(loaded.keep_history, false);
    assert_eq!(loaded.theme, "dark");
    assert_eq!(loaded.language, "en-US");
}

#[test]
fn test_settings_validation_rejects_invalid_concurrency() {
    let conn = settings_db();
    let mut settings = AppSettings::default();
    settings.max_concurrency = 10;
    assert!(save_settings(&conn, &settings).is_err());
    settings.max_concurrency = 0;
    assert!(save_settings(&conn, &settings).is_err());
}

#[test]
fn test_template_error_names_token() {
    match validate_template("{title}{bad}x") {
        Err(AppError::InvalidInput { message }) => assert_eq!(message, "Unknown template token: {bad}"),
        other => panic!("unexpected {:?}", other),
    }
    assert!(validate_template("{title").is_ok());
    assert!(validate_template("{a{title}").is_err());
}

#[test]
fn test_stored_concurrency_is_parsed_and_clamped() {
    let mut s = AppSettings::default();
    apply_setting(&mut s, "max_concurrency", "12");
    assert_eq!(s.max_concurrency, 8);
    apply_setting(&mut s, "max_concurrency", "0");
    assert_eq!(s.max_concurrency, 1);
    apply_setting(&mut s, "max_concurrency", "abc");
    assert_eq!(s.max_concurrency, 3);
    apply_setting(&mut s, "max_concurrency", "+6");
    assert_eq!(s.max_concurrency, 6);
    apply_setting(&mut s, "auto_clipboard", "TRUE");
    assert!(!s.auto_clipboard);
    apply_setting(&mut s, "unknown", "x");
    assert_eq!(s.max_concurrency, 6);
    assert_eq!(parse_u8("255"), Some(255));
    assert_eq!(parse_u8("256"), None);
    assert_eq!(parse_u8("+"), None);
    assert_eq!(parse_u8("-1"), None);
}

fn history_db() -> Connection {
    let conn = Connection::open_in_memory().unwrap();
    conn.execute_batch(
        "CREATE TABLE history (id TEXT PRIMARY KEY, url TEXT NOT NULL, platform TEXT NOT NULL, author TEXT, title TEXT,
         status TEXT NOT NULL, save_path TEXT, created_at TEXT NOT NULL);",
    )
    .unwrap();
    conn
}

fn make_entry(id: &str, status: TaskStatus) -> HistoryEntry {
    HistoryEntry {
        id: id.to_string(),
        url: format!("https://example.com/{}", id),
        platform: Platform::Douyin,
        author: Some("test_author".to_string()),
        title: Some("test_title".to_string()),
        status,
        save_path: Some("/downloads/test.mp4".to_string()),
        created_at: 1_700_000_000_000,
    }
}

fn save_history_entry(conn: &Connection, e: &HistoryEntry) {
    conn.execute(
        "INSERT OR REPLACE INTO history (id, url, platform, author, title, status, save_path, created_at)
         VALUES (?1, ?2, ?3, ?4, ?5, ?6, ?7, ?8)",
        (
            e.id.as_str(),
            e.url.as_str(),
            e.platform.as_str(),
            e.author.as_deref(),
            e.title.as_deref(),
            e.status.as_str(),
            e.save_path.as_deref(),
            e.created_at.to_string(),
        ),
    )
    .unwrap();
}

fn get_history(conn: &Connection, search: Option<&str>, status: Option<&str>) -> Vec<HistoryEntry> {
    let q = history_query(search, status);
    let mut stmt = conn.prepare(&q.sql).unwrap();
    let rows = stmt
        .query_map(rusqlite::params_from_iter(q.params.iter()), |row| {
            let platform: String = row.get(2)?;
            let status: String = row.get(5)?;
            let created: String = row.get(7)?;
            Ok(HistoryEntry {
                id: row.get(0)?,
                url: row.get(1)?,
                platform: parse_platform(&platform),
                author: row.get(3)?,
                title: row.get(4)?,
                status: parse_status(&status),
                save_path: row.get(6)?,
                created_at: created.parse().unwrap_or(0),
            })
        })
        .unwrap();
    rows.map(|r| r.unwrap()).collect()
}

#[test]
fn test_save_and_get_history() {
    let conn = history_db();
    save_history_entry(&conn, &make_entry("1", TaskStatus::Completed));
    let results = get_history(&conn, None, None);
    assert_eq!(results.len(), 1);
    assert_eq!(results[0].id, "1");
}

#[test]
fn test_search_history() {
    let conn = history_db();
    save_history_entry(&conn, &make_entry("1", TaskStatus::Completed));
    let mut entry2 = make_entry("2", TaskStatus::Failed);
    entry2.title = Some("unique_title".to_string());
    save_history_entry(&conn, &entry2);
    let results = get_history(&conn, Some("unique"), None);
    assert_eq!(results.len(), 1);
    assert_eq!(results[0].id, "2");
}

#[test]
fn test_filter_by_status() {
    let conn = history_db();
    save_history_entry(&conn, &make_entry("1", TaskStatus::Completed));
    save_history_entry(&conn, &make_entry("2", TaskStatus::Failed));
    save_history_entry(&conn, &make_entry("3", TaskStatus::Cancelled));
    let results = get_history(&conn, None, Some("completed"));
    assert_eq!(results.len(), 1);
    assert_eq!(results[0].id, "1");
}

#[test]
fn test_clear_history() {
    let conn = history_db();
    save_history_entry(&conn, &make_entry("1", TaskStatus::Completed));
    save_history_entry(&conn, &make_entry("2", TaskStatus::Failed));
    conn.execute("DELETE FROM history", []).unwrap();
    assert!(get_history(&conn, None, None).is_empty());
}

#[test]
fn test_history_query_text() {
    let q = history_query(Some("cat"), Some("failed"));
    assert_eq!(
        q.sql,
        "SELECT id, url, platform, author, title, status, save_path, created_at FROM history WHERE 1=1 AND (title LIKE ?1 OR author LIKE ?1 OR url LIKE ?1) AND status = ?2 ORDER BY created_at DESC"
    );
    assert_eq!(q.params, vec!["%cat%".to_string(), "failed".to_string()]);
    let q = history_query(Some(""), Some("completed"));
    assert!(q.sql.ends_with("WHERE 1=1 AND status = ?1 ORDER BY created_at DESC"));
    assert_eq!(q.params, vec!["completed".to_string()]);
}

#[test]
fn test_parse_stored_names() {
    assert_eq!(parse_platform("xiaohongshu"), Platform::Xiaohongshu);
    assert_eq!(parse_platform("other"), Platform::Douyin);
    assert_eq!(parse_status("cancelled"), TaskStatus::Cancelled);
    assert_eq!(parse_status("waiting"), TaskStatus::Failed);
}

#[test]
fn test_settings_read_back_in_any_order() {
    let s = AppSettings {
        download_dir: "/dl".to_string(),
        max_concurrency: 5,
        filename_template: "{title}".to_string(),
        auto_clipboard: true,
        keep_history: false,
        debug_log: true,
        theme: "dark".to_string(),
        language: "en".to_string(),
    };
    let mut rows = settings_pairs(&s);
    rows.reverse();
    rows.insert(3, ("legacy_key".to_string(), "x".to_string()));
    rows.push(("another".to_string(), "y".to_string()));
    let back = settings_from_rows(&rows);
    assert_eq!(back.download_dir, s.download_dir);
    assert_eq!(back.max_concurrency, s.max_concurrency);
    assert_eq!(back.filename_template, s.filename_template);
    assert_eq!(back.auto_clipboard, s.auto_clipboard);
    assert_eq!(back.keep_history, s.keep_history);
    assert_eq!(back.debug_log, s.debug_log);
    assert_eq!(back.theme, s.theme);
    assert_eq!(back.language, s.language);
}
