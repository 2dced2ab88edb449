use snipdesk::backup::{
    backups_dir, copied_text, is_outdated, not_copied_text, prune_old, pruned_text, snapshot_name, todays_snapshot,
    BackupFile, Moment,
};
use snipdesk::encoding::wide_text;
use snipdesk::json::Json;
use snipdesk::logging::{
    error_line_at, info_line_at, log_error, log_info, log_places, panic_line_text, session_header, wipes, Log,
};
use snipdesk::paste::{
    capture_selection_windows, captured, is_chromium_class, next_route, paste_route, puts_back, restore_foreground,
    retry_ms, settle_ms, write_clipboard_unicode, Route,
};
use snipdesk::settings::{
    default_format_rules, default_server_url, managed_server_url, url_of_config, Settings, SettingsPath,
};

fn at(secs: i64) -> Moment {
    Moment { secs, nanos: 0 }
}

fn file(name: &str, secs: i64) -> BackupFile {
    BackupFile { name: Some(name.into()), modified: Some(at(secs)) }
}

#[test]
fn fresh_settings() {
    let s = Settings::default();
    assert_eq!(s.hotkey, "Alt+Space");
    assert_eq!(s.paste_mode, "auto_paste");
    assert_eq!(s.auto_paste_delay_ms, 120);
    assert_eq!(s.quick_add_hotkey, "Alt+Shift+Space");
    assert_eq!(s.team_library_folder_name, "Team Library");
    assert!(s.minimize_to_tray && s.auto_check_updates && !s.always_on_top);
    assert_eq!(s.server_url, "");
    assert_eq!((s.backup_retention_days, s.log_retention_days, s.local_trash_retention_days), (14, 7, 30));
    assert_eq!(s.format_rules.len(), 4);
    let rules = default_format_rules();
    assert_eq!((rules[3].prefix.as_str(), rules[3].suffix.as_str()), ("[", "](https://)"));
    assert_eq!(SettingsPath("p".into()).0, "p");
}

#[test]
fn built_in_urls() {
    assert_eq!(default_server_url("", " https://a.test// "), "https://a.test");
    assert_eq!(default_server_url("https://b.test/", "https://a.test"), "https://b.test");
    assert_eq!(default_server_url("", ""), "");
    assert_eq!(Settings::fresh("u".into()).server_url, "u");
}

#[test]
fn managed_urls() {
    let file = "\u{feff}{ \"server_url\": \" https://c.test/ \" }";
    assert_eq!(managed_server_url(Some("https://e.test/"), Some(file)).as_deref(), Some("https://e.test"));
    assert_eq!(managed_server_url(Some(" / "), Some(file)).as_deref(), Some("https://c.test"));
    assert_eq!(managed_server_url(None, Some(file)).as_deref(), Some("https://c.test"));
    assert!(managed_server_url(None, Some("{\"server_url\": 5}")).is_none());
    assert!(managed_server_url(None, Some("not json")).is_none());
    assert!(managed_server_url(None, None).is_none());
    let j = Json::Object(vec![("server_url".into(), Json::Text("https://d.test".into()))], String::new());
    assert_eq!(url_of_config(Some(&j)).as_deref(), Some("https://d.test"));
    assert!(url_of_config(None).is_none());
}

#[test]
fn copies_by_day() {
    assert_eq!(snapshot_name("20250314"), "snippets-20250314.db");
    let today = todays_snapshot();
    assert!(today.starts_with("snippets-") && today.ends_with(".db"));
    assert_eq!(today.len(), "snippets-20250314.db".len());
    assert_eq!(backups_dir("/data", '/'), "/data/backups");
    assert_eq!(backups_dir("/data/", '/'), "/data/backups");
    assert_eq!(backups_dir("C:\\data", '\\'), "C:\\data\\backups");
    assert_eq!(backups_dir("", '/'), "backups");
}

#[test]
fn old_copies_go_and_other_files_stay() {
    let day = 86400;
    let now = at(100 * day);
    let l = vec![
        file("snippets-1.db", 100 * day - 14 * day - 1),
        file("snippets-2.db", 100 * day - 14 * day),
        file("notes.txt", 0),
        file("snippets-3.txt", 0),
        BackupFile { name: None, modified: Some(at(0)) },
        BackupFile { name: Some("snippets-4.db".into()), modified: None },
        file("snippets-5.db", 0),
    ];
    assert_eq!(prune_old(&l, now, 14), vec![0, 6]);
    assert!(is_outdated(&file("snippets-9.db", 100 * day - 1), now, 0));
    assert!(!is_outdated(&file("snippets-9.db", 100 * day), now, 0));
}

#[test]
fn backup_lines() {
    assert_eq!(copied_text("p", "12"), "backup: snapshot p (12 bytes)");
    assert_eq!(not_copied_text("a", "b", "e"), "backup: failed to copy a \u{2192} b: e");
    assert_eq!(pruned_text("p"), "backup: pruned p");
}

#[test]
fn log_lines() {
    assert_eq!(error_line_at("T", "m"), "T ERROR m");
    assert_eq!(info_line_at("T", "m"), "T INFO  m");
    assert_eq!(panic_line_text("f:1", "w"), "PANIC @ f:1: w");
    assert!(log_error("boom").ends_with(" ERROR boom"));
    let line = log_info("hello");
    assert!(line.ends_with(" INFO  hello"));
    assert_eq!(line.len(), "2025-03-14T09:26:53 INFO  hello".len());
    assert!(session_header().starts_with("=== SnipDesk session started at "));
}

#[test]
fn logs_open_once() {
    let (dir, path) = log_places("/d", '/');
    assert_eq!((dir.as_str(), path.as_str()), ("/d/logs", "/d/logs/snipdesk.log"));
    let mut log = Log::closed();
    assert!(log.log_path().is_none());
    log.open(&path);
    log.open("/elsewhere");
    assert_eq!(log.log_path().as_deref(), Some("/d/logs/snipdesk.log"));
    assert!(wipes(at(0), at(8 * 86400), 7));
    assert!(!wipes(at(0), at(7 * 86400), 7));
    assert!(!wipes(at(100), at(0), 0));
}

#[test]
fn paste_routes() {
    assert!(is_chromium_class("Chrome_WidgetWin_1"));
    assert!(is_chromium_class("MozillaWindowClass"));
    assert!(!is_chromium_class("Notepad"));
    assert!(paste_route(0, &None) == Route::Keys);
    assert!(paste_route(5, &Some("Chrome_WidgetWin_0".into())) == Route::Keys);
    assert!(paste_route(5, &Some("Edit".into())) == Route::Message);
    assert!(paste_route(5, &None) == Route::Message);
    assert!(next_route(Route::Message, false) == Some(Route::Keys));
    assert!(next_route(Route::Message, true).is_none());
    assert!(next_route(Route::Keys, false).is_none());
    assert_eq!((settle_ms(true), settle_ms(false)), (40, 0));
    assert_eq!((retry_ms(0), retry_ms(7)), (5, 40));
}

#[test]
fn selections() {
    assert_eq!(captured(true, Some("x".into())).as_deref(), Some("x"));
    assert!(captured(true, Some(String::new())).is_none());
    assert!(captured(false, Some("x".into())).is_none());
    assert!(captured(true, None).is_none());
    assert!(puts_back(true, &Some("p".into())));
    assert!(!puts_back(true, &None));
    assert!(!puts_back(false, &Some("p".into())));
}

#[test]
fn elsewhere_the_calls_are_refused() {
    assert!(!restore_foreground(3));
    assert_eq!(write_clipboard_unicode("x").unwrap_err(), "write_clipboard_unicode is Windows-only");
    assert_eq!(capture_selection_windows().unwrap_err(), "capture_selection_windows is Windows-only");
}

#[test]
fn clipboard_text_ends_in_zero() {
    let text = "a\u{1F600}\u{e9}";
    let mut want: Vec<u16> = text.encode_utf16().collect();
    want.push(0);
    assert_eq!(wide_text(text), want);
}
