use issuer::attachments::{decoded_path, image_data_url, mime_for_extension};
use issuer::config::{get_sync_dir, join_path, merge_lock_path, settings_path, AppConfig};
use issuer::entities::{normalize_labels, MilestoneProgress, ReactionEntry};
use issuer::lock::{is_zombie_lock, startup_status, LockData, LockInfo, LockStatus, MarkerFile, MarkerUpkeep};
use issuer::mail::{client_mailto, mailto_url, normalize_body, start_process};
use issuer::text::{non_blank, split_text};
use issuer::themes::{active_theme_id, contains_parent_ref, delete_theme_refusal, is_valid_theme_id, theme_from_repo};
use issuer::version::{parse_version, version_ge};

#[test]
fn versions_parse_and_compare() {
    assert_eq!(parse_version("1.2.3"), vec![1, 2, 3]);
    assert_eq!(parse_version("1.x.+7"), vec![1, 0, 7]);
    assert_eq!(parse_version(""), vec![0]);
    assert_eq!(parse_version("2..99999999999999999999"), vec![2, 0, 0]);
    assert_eq!(parse_version("18446744073709551615"), vec![u64::MAX]);
    assert!(version_ge("1.2.3", "1.2.3"));
    assert!(version_ge("1.2", "1.2.0"));
    assert!(version_ge("1.10", "1.9.9"));
    assert!(!version_ge("1.2.3", "1.2.4"));
    assert!(!version_ge("0.9", "1"));
}

#[test]
fn body_line_breaks_become_crlf() {
    assert_eq!(normalize_body("a\nb\r\nc\rd"), "a\r\nb\r\nc\r\nd");
    assert_eq!(normalize_body("\r\r\n\n"), "\r\n\r\n\r\n");
    assert_eq!(normalize_body(""), "");
    assert_eq!(normalize_body("日本\n"), "日本\r\n");
}

#[test]
fn mail_links_are_encoded() {
    assert_eq!(mailto_url("a b@x.jp", "Hi & bye", "l1\r\nl2"), "mailto:a%20b%40x.jp?subject=Hi%20%26%20bye&body=l1%0D%0Al2");
    assert_eq!(client_mailto("a@x.jp", "s t", "b"), "mailto:a@x.jp?subject=s%20t&body=b");
    assert_eq!(start_process("mailto:it's"), "Start-Process 'mailto:it''s'");
}

#[test]
fn blank_settings_are_dropped() {
    assert_eq!(non_blank(Some("  ".to_string())), None);
    assert_eq!(non_blank(Some(" Ann ".to_string())), Some(" Ann ".to_string()));
    assert_eq!(non_blank(None), None);
}

#[test]
fn labels_are_normalized() {
    let input: Vec<String> = vec![" bug ", "", "ui", "bug", "  "].into_iter().map(String::from).collect();
    assert_eq!(normalize_labels(&input), vec!["bug".to_string(), "ui".to_string()]);
}

#[test]
fn reaction_users_split() {
    let e = ReactionEntry::new("+1".to_string(), 2, 1, "alice,bob");
    assert_eq!(e.users, vec!["alice".to_string(), "bob".to_string()]);
    assert!(e.reacted);
    let none = ReactionEntry::new("+1".to_string(), 0, 0, "");
    assert!(none.users.is_empty());
    assert!(!none.reacted);
    assert_eq!(split_text("a,,b", ','), vec!["a".to_string(), String::new(), "b".to_string()]);
}

#[test]
fn milestone_percent() {
    assert_eq!(MilestoneProgress::new(1, 3, 1).percent, 33);
    assert_eq!(MilestoneProgress::new(1, 4, 4).percent, 100);
    assert_eq!(MilestoneProgress::new(1, 0, 0).percent, 0);
}

#[test]
fn config_paths() {
    let c = AppConfig::new("/opt/app", Some("//share/issues"), "/home/u/.local/share", false);
    assert_eq!(c.original_dir, "//share/issues");
    assert_eq!(c.local_dir, "/home/u/.local/share/Issuer");
    assert_eq!(c.db_path, "//share/issues/data.db");
    assert_eq!(get_sync_dir(&c), "//share/issues/.sync_temp");
    assert_eq!(settings_path(&c), "/home/u/.local/share/Issuer/settings.json");
    assert_eq!(merge_lock_path(&c), "//share/issues/merge.lock");
    let local = AppConfig::new("C:\\app\\", None, "C:\\Users\\u\\AppData\\Local", true);
    assert_eq!(local.original_dir, "C:\\app\\");
    assert_eq!(local.db_path, "C:\\Users\\u\\AppData\\Local/Issuer/data.db");
    assert_eq!(join_path("", "x"), "x");
}

#[test]
fn theme_ids() {
    assert!(contains_parent_ref("a/../b"));
    assert!(!contains_parent_ref("a/./b"));
    assert!(is_valid_theme_id("nordic"));
    assert!(!is_valid_theme_id("a/b"));
    assert!(!is_valid_theme_id("a\\b"));
    assert_eq!(delete_theme_refusal("default"), Some("Cannot delete default theme"));
    assert_eq!(delete_theme_refusal(".."), Some("Invalid theme ID"));
    assert_eq!(delete_theme_refusal("nordic"), None);
    assert_eq!(active_theme_id(Some("default".to_string())), None);
    assert_eq!(active_theme_id(Some(String::new())), None);
    assert_eq!(active_theme_id(Some("nordic".to_string())), Some("nordic".to_string()));
    let installed = vec!["nordic".to_string()];
    let m = theme_from_repo("theme-nordic", Some("Nordic"), None, &installed).unwrap();
    assert_eq!(m.id, "nordic");
    assert_eq!(m.name, "Nordic");
    assert_eq!(m.author, "IssuerTheme");
    assert!(m.installed);
    let m = theme_from_repo("theme-dark", None, Some("someone"), &installed).unwrap();
    assert_eq!(m.name, "theme-dark");
    assert_eq!(m.description, "");
    assert!(!m.installed);
    assert!(theme_from_repo("website", None, None, &installed).is_none());
}

#[test]
fn presence_marker_decisions() {
    let hour_ms: i64 = 3_600_000;
    let stamp_ms: i64 = 1_704_067_200_000;
    let data = LockData::fresh("alice".to_string(), "2024-01-01T00:00:00Z".to_string());
    assert!(!is_zombie_lock(&data, stamp_ms + hour_ms));
    assert!(is_zombie_lock(&data, stamp_ms + hour_ms + 1));
    let garbled = LockData { user: "x".to_string(), locked_at: "soon".to_string(), updated_at: String::new() };
    assert!(is_zombie_lock(&garbled, stamp_ms));
    let (status, upkeep) = startup_status(MarkerFile::Holds(data), "alice", stamp_ms + 1000);
    assert!(matches!(status, LockStatus::Edit));
    assert!(upkeep == MarkerUpkeep::Refresh);
    let other = LockData::fresh("bob".to_string(), "2024-01-01T09:00:00+09:00".to_string());
    let (status, _) = startup_status(MarkerFile::Holds(other), "alice", stamp_ms);
    assert!(matches!(status, LockStatus::ReadOnly(ref u) if u == "bob"));
    let (status, upkeep) = startup_status(MarkerFile::Missing, "alice", 0);
    assert!(matches!(status, LockStatus::Edit) && upkeep == MarkerUpkeep::WriteNew);
    let (status, _) = startup_status(MarkerFile::Unreadable, "alice", 0);
    let info = LockInfo::from_status(&status, "alice".to_string(), "Alice".to_string());
    assert_eq!(info.mode, "readonly");
    assert_eq!(info.locked_by.as_deref(), Some("Unknown"));
}

#[test]
fn draft_script_escapes() {
    let script = issuer::mail::draft_script("a\"b", "s", "x\r\ny \"q\"\nz");
    assert!(script.starts_with("On Error Resume Next\n"));
    assert!(script.contains("mail.To = \"a\"\"b\"\n"));
    assert!(script.contains("mail.Subject = \"s\"\n"));
    assert!(script.contains("mail.Body = \"x\" & vbCrLf & \"y \"\"q\"\"\" & vbCrLf & \"z\"\nmail.Display\n"));
    assert!(script.ends_with("End If\n"));
}

#[test]
fn image_urls() {
    assert_eq!(mime_for_extension(Some("jpeg")), "image/jpeg");
    assert_eq!(mime_for_extension(Some("svg")), "image/svg+xml");
    assert_eq!(mime_for_extension(Some("tiff")), "image/png");
    assert_eq!(mime_for_extension(None), "image/png");
    assert_eq!(image_data_url(Some("gif"), &b"hi".to_vec()), "data:image/gif;base64,aGk=");
    assert_eq!(decoded_path("C:/a%20b/%E6%97%A5.png"), "C:/a b/日.png");
    assert_eq!(decoded_path("%FF"), "%FF");
    assert_eq!(decoded_path("plain.png"), "plain.png");
}
