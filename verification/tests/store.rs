use std::time::{Duration, SystemTime};

use snipdesk::csv::{csv_field, eq_ignore_ascii_case, export_csv, parse_import_csv, parse_import_file, strip_bom, ImportFile};
use snipdesk::db::{
    create, duplicate_of, find_by_key, find_by_title, found_or_missing, import, key_of_title, list_folders,
    list_query, list_tags, plan_create, plan_create_folder, plan_delete, plan_delete_folder, plan_import,
    apply_remote_delete, plan_rename_folder, plan_replace_team, reset_sync_metadata, plan_update, plan_upsert_from_remote,
    plan_upsert_library, row_to_dirty, row_to_snippet, suffix_start, team_row_to_snippet, Change, NewSnippet, Query,
    SortOrder, UpdateSnippet,
};
use snipdesk::db::ops::{
    clear_library_snippets, clear_pending_delete, create_folder, delete, delete_folder, delete_library_snippet,
    duplicate, mark_synced, record_use, record_variable_values, rename_folder, replace_team_snippets, update,
    upsert_from_remote, upsert_library_snippet,
};
use snipdesk::library::{
    any_holds, filter_by_needle, filter_library_query, filter_library_rows, is_in_view, is_under, is_unfiled, library_selected_folder,
    library_visible_rows, LibraryRow, FOLDER_ALL, FOLDER_UNFILED,
};
use snipdesk::order::{comes_before, insert_sorted, sort_distinct};
use snipdesk::paths::{ancestors_of_all, normalize_folder, normalize_folder_path};
use snipdesk::shared_library::{system_time_to_unix, unix_seconds, TeamSnippet};
use snipdesk::tags::{decode_tags, decode_tags_for_form, encode_tags};
use snipdesk::validate::{validate_folder, validate_snippet, validate_tags, validate_title, FOLDER_MAX_CHARS};

fn texts(l: &[&str]) -> Vec<String> {
    l.iter().map(|t| t.to_string()).collect()
}

fn new_snippet(title: &str, body: &str, tags: &[&str], folder: Option<&str>) -> NewSnippet {
    NewSnippet {
        title: title.to_string(),
        body: body.to_string(),
        tags: texts(tags),
        folder_path: folder.map(|f| f.to_string()),
    }
}

fn row(id: &str, title: &str, body: &str, tags: &str, folder: Option<&str>) -> LibraryRow {
    LibraryRow {
        id: id.to_string(),
        title: title.to_string(),
        body: body.to_string(),
        tags: tags.to_string(),
        folder_path: folder.map(|f| f.to_string()),
        version: 1,
        updated_at: 0,
        use_count: 0,
        last_used: None,
    }
}

fn ids(rows: &[&LibraryRow]) -> Vec<String> {
    rows.iter().map(|r| r.id.clone()).collect()
}

fn shown(l: &[Change]) -> Vec<String> {
    l.iter().map(|c| format!("{c:?}")).collect()
}

/// A database with the columns that the queries name.
fn filled() -> rusqlite::Connection {
    let conn = rusqlite::Connection::open_in_memory().unwrap();
    conn.execute_batch(
        "CREATE TABLE snippets (id TEXT PRIMARY KEY, title TEXT NOT NULL, body TEXT NOT NULL, \
         tags TEXT NOT NULL, folder_path TEXT, usage_count INTEGER NOT NULL, last_used INTEGER, \
         created_at INTEGER NOT NULL, updated_at INTEGER NOT NULL);\
         INSERT INTO snippets VALUES ('a', 'Welcome', 'Hello there', ',greeting,', NULL, 1, NULL, 1, 1);\
         INSERT INTO snippets VALUES ('b', 'refund', 'Money back', ',billing,refund,', 'Billing', 5, 9, 1, 2);\
         INSERT INTO snippets VALUES ('c', 'Late refund', 'Sorry', ',billing,', 'Billing/Late', 3, 9, 1, 3);\
         INSERT INTO snippets VALUES ('d', 'Other', 'refunded', '', 'Billings', 0, NULL, 1, 4);",
    )
    .unwrap();
    conn
}

fn run(conn: &rusqlite::Connection, q: &Query) -> Vec<String> {
    let mut stmt = conn.prepare(&q.sql).unwrap();
    let found = stmt.query_map(rusqlite::params_from_iter(q.params.iter()), |r| r.get::<_, String>(0)).unwrap();
    found.map(|r| r.unwrap()).collect()
}

#[test]
fn a_new_snippet_lists_its_folders_first() {
    let plan = plan_create(&new_snippet("T", "B", &["One", " two "], Some(" Billing // Late ")), "id1", 7);
    assert_eq!(
        shown(&plan),
        vec![
            "AddFolder { path: \"Billing\", at: 7 }",
            "AddFolder { path: \"Billing/Late\", at: 7 }",
            "InsertSnippet { id: \"id1\", title: \"T\", body: \"B\", tags: \",one,two,\", \
             folder: Some(\"Billing/Late\"), at: 7 }",
        ]
    );
    let bare = plan_create(&new_snippet("T", "B", &[], Some(" / ")), "id1", 7);
    assert_eq!(
        shown(&bare),
        vec!["InsertSnippet { id: \"id1\", title: \"T\", body: \"B\", tags: \"\", folder: None, at: 7 }"]
    );
}

#[test]
fn a_created_snippet_gets_an_id_of_its_own() {
    let (id, plan) = create(&new_snippet("T", "B", &[], None));
    let (other, _) = create(&new_snippet("T", "B", &[], None));
    assert_ne!(id, other);
    assert_eq!(id.len(), 36);
    assert!(uuid::Uuid::parse_str(&id).is_ok());
    assert_eq!(plan.len(), 1);
    assert!(matches!(&plan[0], Change::InsertSnippet { id: stored, at, .. } if *stored == id && *at > 1_600_000_000));
}

#[test]
fn an_edit_overwrites_the_content() {
    let input = UpdateSnippet { title: "T2".into(), body: "B2".into(), tags: texts(&["X"]), folder_path: Some("F".into()) };
    assert_eq!(
        shown(&plan_update("id1", &input, 8)),
        vec![
            "AddFolder { path: \"F\", at: 8 }",
            "UpdateSnippet { id: \"id1\", title: \"T2\", body: \"B2\", tags: \",x,\", folder: Some(\"F\"), at: 8 }",
        ]
    );
}

#[test]
fn only_pushed_snippets_leave_a_queued_deletion() {
    assert_eq!(
        shown(&plan_delete("x", Some(3), 9)),
        vec![
            "ForgetHistory { id: \"x\" }",
            "RemoveSnippet { id: \"x\" }",
            "QueueDelete { id: \"x\", at: 9 }"
        ]
    );
    assert_eq!(
        shown(&plan_delete("x", None, 9)),
        vec!["ForgetHistory { id: \"x\" }", "RemoveSnippet { id: \"x\" }"]
    );
}

#[test]
fn the_server_overwrites_and_removes() {
    let plan = plan_upsert_from_remote("x", "T", "B", &texts(&["A"]), Some("F/G"), 4, 1, 2, 3);
    assert_eq!(
        shown(&plan),
        vec![
            "AddFolder { path: \"F\", at: 3 }",
            "AddFolder { path: \"F/G\", at: 3 }",
            "UpsertRemote { id: \"x\", title: \"T\", body: \"B\", tags: \",a,\", folder: Some(\"F/G\"), version: 4, \
             created_at: 1, updated_at: 2 }",
        ]
    );
    let gone = shown(&apply_remote_delete("x"));
    assert!(gone.contains(&"RemoveSnippet { id: \"x\" }".to_string()));
    assert!(!gone.iter().any(|c| c.starts_with("QueueDelete")));
}

#[test]
fn signing_out_resets_and_drops_the_team_rows() {
    assert_eq!(shown(&reset_sync_metadata()), vec!["ResetSync", "ClearTeam"]);
}

#[test]
fn folders_are_made_renamed_and_removed() {
    assert_eq!(
        shown(&plan_create_folder(" A / B ", 1).unwrap()),
        vec!["AddFolder { path: \"A\", at: 1 }", "AddFolder { path: \"A/B\", at: 1 }"]
    );
    assert_eq!(plan_create_folder(" / ", 1).unwrap_err(), "folder path cannot be empty");
    assert_eq!(
        shown(&plan_rename_folder("A/B", "C", 2).unwrap()),
        vec![
            "RenameFolders { old: \"A/B\", new: \"C\" }",
            "RenameSnippets { old: \"A/B\", new: \"C\" }",
            "AddFolder { path: \"C\", at: 2 }"
        ]
    );
    assert!(plan_rename_folder("A", " A /", 2).unwrap().is_empty());
    assert_eq!(plan_rename_folder("", "C", 2).unwrap_err(), "folder paths cannot be empty");
    assert_eq!(plan_rename_folder("A", "//", 2).unwrap_err(), "folder paths cannot be empty");
    assert_eq!(
        shown(&plan_delete_folder("A", true, 3).unwrap()),
        vec![
            "QueueDeletesUnder { path: \"A\", at: 3 }",
            "ForgetHistoryUnder { path: \"A\" }",
            "RemoveSnippetsUnder { path: \"A\" }",
            "RemoveFoldersUnder { path: \"A\" }"
        ]
    );
    assert_eq!(
        shown(&plan_delete_folder("A", false, 3).unwrap()),
        vec!["UnfileUnder { path: \"A\" }", "RemoveFoldersUnder { path: \"A\" }"]
    );
    assert_eq!(plan_delete_folder(" ", true, 3).unwrap_err(), "folder path cannot be empty");
    assert_eq!(suffix_start("caf\u{e9}"), 5);
}

#[test]
fn an_import_takes_each_title_once() {
    let items = vec![
        new_snippet("Hello", "1", &[], None),
        new_snippet(" hello ", "2", &[], None),
        new_snippet("   ", "3", &[], None),
        new_snippet("World", "4", &[], Some("F")),
        new_snippet("Kept", "5", &[], None),
    ];
    let (plan, result) = plan_import(&texts(&["KEPT"]), &items, &texts(&["i0", "i1", "i2", "i3", "i4"]), 5);
    assert_eq!(result.imported, 2);
    assert_eq!(result.skipped_duplicates, 3);
    assert_eq!(
        shown(&plan),
        vec![
            "InsertSnippet { id: \"i0\", title: \"Hello\", body: \"1\", tags: \"\", folder: None, at: 5 }",
            "AddFolder { path: \"F\", at: 5 }",
            "InsertSnippet { id: \"i1\", title: \"World\", body: \"4\", tags: \"\", folder: Some(\"F\"), at: 5 }",
        ]
    );
    let (plan, result) = import(&texts(&[]), &items);
    assert_eq!((result.imported, result.skipped_duplicates), (3, 2));
    assert_eq!(plan.len(), 4);
    assert_eq!(key_of_title("  \u{c9}T\u{c9} "), "\u{e9}t\u{e9}");
}

#[test]
fn the_team_library_is_replaced_as_a_whole() {
    let l = vec![
        TeamSnippet { id: Some("t1".into()), title: "A".into(), body: "b".into(), tags: texts(&["X"]), folder: Some("/F/".into()) },
        TeamSnippet { id: None, title: " Some Title ".into(), body: "c".into(), tags: vec![], folder: None },
    ];
    let (plan, n) = plan_replace_team(&l, 6);
    assert_eq!(n, 2);
    assert_eq!(
        shown(&plan),
        vec![
            "ClearTeam",
            "PutTeam { team_id: \"t1\", title: \"A\", body: \"b\", tags: \",x,\", folder: Some(\"F\"), at: 6, version: 0 }",
            "PutTeam { team_id: \"auto:some title\", title: \" Some Title \", body: \"c\", tags: \"\", folder: None, \
             at: 6, version: 0 }",
        ]
    );
    assert_eq!(
        format!("{:?}", plan_upsert_library("t1", "A", "b", &texts(&["Y"]), Some("F"), 12, 6)),
        "PutTeam { team_id: \"t1\", title: \"A\", body: \"b\", tags: \",y,\", folder: Some(\"F\"), at: 6, version: 12 }"
    );
}

#[test]
fn list_queries_run_and_find() {
    let conn = filled();
    let all = list_query(None, None, None, SortOrder::Alphabetical);
    assert!(all.params.is_empty());
    assert_eq!(run(&conn, &all), vec!["c", "d", "b", "a"]);
    assert_eq!(run(&conn, &list_query(Some("  "), Some(""), None, SortOrder::Usage)), vec!["b", "c", "a", "d"]);
    assert_eq!(run(&conn, &list_query(Some("REFUND"), None, None, SortOrder::Usage)), vec!["b", "c", "d"]);
    assert_eq!(run(&conn, &list_query(None, Some("Refund"), None, SortOrder::Usage)), vec!["b"]);
    assert_eq!(run(&conn, &list_query(None, None, Some("Billing"), SortOrder::Usage)), vec!["b", "c"]);
    assert_eq!(run(&conn, &list_query(None, None, Some("__root__"), SortOrder::Usage)), vec!["a"]);
    let each = list_query(Some("Sorry"), Some("billing"), Some("Billing"), SortOrder::Alphabetical);
    assert_eq!(each.params, texts(&["%sorry%", "%,billing,%", "Billing", "Billing/%"]));
    assert_eq!(run(&conn, &each), vec!["c"]);
}

#[test]
fn titles_are_looked_up_without_case() {
    let ids = texts(&["a", "b", "c"]);
    let titles = texts(&["Welcome", "\u{c9}cole", " welcome "]);
    assert_eq!(find_by_title(&ids, &titles, "  WELCOME ", None), Some(0));
    assert_eq!(find_by_title(&ids, &titles, "Welcome", Some("a")), Some(2));
    assert_eq!(find_by_title(&ids, &titles, "\u{c9}cole", None), Some(1));
    assert_eq!(find_by_title(&ids, &titles, "\u{e9}COLE", None), Some(1));
    assert_eq!(find_by_title(&ids, &titles, "\u{c9}cole", Some("b")), None);
    assert_eq!(find_by_title(&ids, &titles, "   ", None), None);
    assert_eq!(find_by_title(&texts(&["x"]), &texts(&["  "]), "", None), None);
    assert_eq!(find_by_key(&ids, &texts(&["k", "l", "l"]), "l", Some("b")), Some(2));
    assert_eq!(find_by_key(&ids, &texts(&["", "l", "l"]), "", None), None);
}

#[test]
fn rows_become_snippets() {
    let s = row_to_snippet("x".into(), "T".into(), "B".into(), ",a,b,", Some("F".into()), 2, Some(3), 4, 5);
    assert_eq!(s.tags, texts(&["a", "b"]));
    assert_eq!((s.usage_count, s.last_used, s.created_at, s.updated_at), (2, Some(3), 4, 5));
    assert_eq!(s.folder_path.as_deref(), Some("F"));
    let copy = duplicate_of(&s);
    assert_eq!(copy.title, "T (copy)");
    assert_eq!((copy.body, copy.tags, copy.folder_path), ("B".to_string(), texts(&["a", "b"]), Some("F".to_string())));
    let blank = row_to_snippet("x".into(), "T".into(), "B".into(), "", Some(String::new()), 0, None, 0, 0);
    assert!(blank.folder_path.is_none());
    let d = row_to_dirty("x".into(), "T".into(), "B".into(), ",a,", None, Some(9));
    assert_eq!((d.tags, d.server_version), (texts(&["a"]), Some(9)));
    let t = team_row_to_snippet("t1", "T".into(), "B".into(), ",a,", None, 8);
    assert_eq!((t.id.as_str(), t.usage_count, t.created_at, t.updated_at), ("team:t1", 0, 8, 8));
}

#[test]
fn stored_tags_are_listed_once_in_order() {
    assert_eq!(list_tags(&texts(&[",b,a,", "", ",c,a,"])), texts(&["a", "b", "c"]));
    assert_eq!(encode_tags(&texts(&["Foo", " bar "])), ",foo,bar,");
    assert_eq!(encode_tags(&texts(&[])), "");
    assert_eq!(encode_tags(&texts(&[" "])), ",");
    assert_eq!(decode_tags(&encode_tags(&texts(&["Foo", " bar "]))), texts(&["foo", "bar"]));
    assert_eq!(decode_tags_for_form(",foo,, bar,"), "foo,  bar");
}

#[test]
fn folders_are_listed_with_their_parents() {
    let l = list_folders(&texts(&["B"]), &vec![("A/X".to_string(), 2), ("A".to_string(), 1)]);
    let got: Vec<(String, bool, i64)> = l.iter().map(|f| (f.path.clone(), f.has_snippets, f.count)).collect();
    assert_eq!(
        got,
        vec![("A".to_string(), true, 1), ("A/X".to_string(), true, 2), ("B".to_string(), false, 0)]
    );
    assert_eq!(ancestors_of_all(&texts(&["A/B", "C"])), texts(&["A", "A/B", "C"]));
}

#[test]
fn outcomes_of_single_row_writes() {
    assert!(found_or_missing(1, "x").is_ok());
    assert_eq!(found_or_missing(0, "x").unwrap_err(), "snippet not found: x");
    let pair = |a: &str, b: &str| (a.to_string(), b.to_string());
    let kept = record_variable_values(&vec![pair("name", "  v "), pair("other", "  "), pair("x", "y")]);
    assert_eq!(kept, vec![pair("name", "v"), pair("x", "y")]);
}

#[test]
fn system_times_count_from_the_epoch() {
    assert_eq!(system_time_to_unix(SystemTime::UNIX_EPOCH + Duration::from_secs(90)), 90);
    assert_eq!(system_time_to_unix(SystemTime::UNIX_EPOCH - Duration::from_secs(90)), 0);
    assert_eq!(unix_seconds(Some(7)), 7);
    assert_eq!(unix_seconds(None), 0);
}

#[test]
fn names_sort_by_their_scalars() {
    assert!(comes_before("B", "a"));
    assert!(comes_before("a", "ab"));
    assert!(!comes_before("a", "a"));
    assert_eq!(sort_distinct(&texts(&["b", "a", "b", "\u{e9}"])), texts(&["a", "b", "\u{e9}"]));
    let mut l = texts(&["a", "c"]);
    insert_sorted(&mut l, "b".to_string());
    assert_eq!(l, texts(&["a", "b", "c"]));
}

#[test]
fn folder_paths_are_checked() {
    assert_eq!(normalize_folder_path(" /Replies / Billing/ "), Ok("Replies/Billing".to_string()));
    assert_eq!(normalize_folder_path(" // "), Err("path required"));
    assert_eq!(normalize_folder_path("a\u{7}b"), Err("path contains invalid characters"));
    assert_eq!(normalize_folder_path(&"x".repeat(FOLDER_MAX_CHARS + 1)), Err("path is too long"));
    assert_eq!(normalize_folder_path("a//b"), Ok("a/b".to_string()));
    assert_eq!(normalize_folder_path("a/ /b"), Err("path contains an empty segment (double slash?)"));
    assert_eq!(normalize_folder(Some(" / ")), None);
    assert_eq!(normalize_folder(Some("a//b")), Some("a/b".to_string()));
    assert_eq!(normalize_folder(None), None);
}

#[test]
fn every_part_of_a_snippet_is_checked() {
    assert!(validate_title("ok").is_ok());
    assert!(validate_tags(&[]).is_ok());
    assert!(validate_folder(None).is_ok());
    assert!(validate_folder(Some(&"x".repeat(FOLDER_MAX_CHARS))).is_ok());
    assert!(validate_folder(Some(&"x".repeat(FOLDER_MAX_CHARS + 1))).is_err());
    let first = validate_snippet("", "", &[], None).unwrap_err();
    assert_eq!(first, validate_title("").unwrap_err());
}

#[test]
fn the_library_is_narrowed_by_folder() {
    let rows = vec![
        row("a", "Alpha", "x", "", None),
        row("b", "Beta", "y", ",tag,", Some("F")),
        row("c", "Gamma", "z", "", Some("F/G")),
        row("d", "Delta", "w", "", Some("FG")),
        row("e", "Eps", "v", "", Some("")),
    ];
    assert_eq!(ids(&filter_library_rows(&rows, FOLDER_ALL)), texts(&["a", "b", "c", "d", "e"]));
    assert_eq!(ids(&filter_library_rows(&rows, FOLDER_UNFILED)), texts(&["a", "e"]));
    assert_eq!(ids(&filter_library_rows(&rows, "F")), texts(&["b", "c"]));
    assert!(is_unfiled(&rows[0]) && is_unfiled(&rows[4]) && !is_unfiled(&rows[1]));
    assert!(is_under(&rows[2], "F") && !is_under(&rows[3], "F"));
    assert!(is_in_view(&rows[1], "F") && !is_in_view(&rows[0], "F"));
    assert_eq!(library_selected_folder(&None), FOLDER_ALL);
    assert_eq!(library_selected_folder(&Some(" ".to_string())), FOLDER_ALL);
    assert_eq!(library_selected_folder(&Some("F".to_string())), "F");
}

#[test]
fn a_search_spans_the_whole_library() {
    let rows = vec![
        row("a", "Alpha", "one", "", None),
        row("b", "Beta", "ALPHABET", ",tag,", Some("F")),
        row("c", "Gamma", "z", ",alphas,", Some("F/G")),
        row("d", "Delta", "w", "", Some("F")),
    ];
    let q = Some(" alpha ".to_string());
    assert_eq!(ids(&filter_library_query(rows.iter().collect(), &q)), texts(&["a", "b", "c"]));
    assert_eq!(ids(&filter_library_query(rows.iter().collect(), &Some("  ".to_string()))), texts(&["a", "b", "c", "d"]));
    assert_eq!(ids(&filter_library_query(rows.iter().collect(), &None)), texts(&["a", "b", "c", "d"]));
    assert_eq!(ids(&filter_by_needle(rows.iter().collect(), "")), texts(&["a", "b", "c", "d"]));
    assert!(filter_by_needle(rows.iter().collect(), "no such text").is_empty());
    assert!(any_holds("x", "ab", "y", "b") && !any_holds("x", "ab", "y", "z"));
    assert_eq!(ids(&library_visible_rows(&rows, "F", &q)), texts(&["a", "b", "c"]));
    assert_eq!(ids(&library_visible_rows(&rows, "F", &None)), texts(&["b", "c", "d"]));
}

#[test]
fn an_export_reads_back() {
    let rows = vec![
        row("a", "Plain", "body", ",x,y,", Some("F/G")),
        row("b", "Comma, \"quoted\"", "two\nlines", "", None),
    ];
    let csv = export_csv(&rows.iter().collect());
    let back = match parse_import_file(&csv) {
        Ok(ImportFile::Entries(l)) => l,
        other => panic!("{other:?}"),
    };
    assert_eq!(back.len(), 2);
    assert_eq!((back[0].title.as_str(), back[0].body.as_str()), ("Plain", "body"));
    assert_eq!(back[0].tags, texts(&["x", "y"]));
    assert_eq!(back[0].folder_path.as_deref(), Some("F/G"));
    assert_eq!((back[1].title.as_str(), back[1].body.as_str()), ("Comma, \"quoted\"", "two\nlines"));
    assert!(back[1].tags.is_empty());
    assert!(back[1].folder_path.is_none());
}

#[test]
fn fields_are_quoted_where_needed() {
    assert_eq!(csv_field("plain"), "plain");
    assert_eq!(csv_field("a,b"), "\"a,b\"");
    assert_eq!(csv_field("say \"hi\""), "\"say \"\"hi\"\"\"");
    assert_eq!(csv_field("two\nlines"), "\"two\nlines\"");
    assert_eq!(csv_field(""), "");
    assert_eq!(csv_field("a\rb"), "\"a\rb\"");
    assert!(eq_ignore_ascii_case("TiTle", "title"));
    assert!(!eq_ignore_ascii_case("\u{c9}", "\u{e9}"));
    assert_eq!(strip_bom("\u{feff}x"), "x");
    assert_eq!(strip_bom("x"), "x");
}

#[test]
fn import_files_are_told_apart() {
    match parse_import_file("  [1]") {
        Ok(ImportFile::Json(text)) => assert_eq!(text.trim(), "[1]"),
        other => panic!("{other:?}"),
    }
    let json = "\u{feff} [{\"title\":\"A\",\"more\":[{}]},{\"title\":\"B\",\"body\":\"b\",\"tags\":[\"x\"],\"folder_path\":null}]";
    match parse_import_file(json) {
        Ok(ImportFile::Entries(l)) => {
            assert_eq!((l[0].title.as_str(), l[0].body.as_str(), l[0].tags.len()), ("A", "", 0));
            assert_eq!((l[1].body.as_str(), l[1].tags.clone(), l[1].folder_path.clone()), ("b", texts(&["x"]), None));
        }
        other => panic!("{other:?}"),
    }
    let odd = [
        "{\"title\":\"A\"}",
        "[{\"body\":\"b\"}]",
        "[{\"title\":1}]",
        "[{\"title\":\"A\",\"body\":null}]",
        "[{\"title\":\"A\",\"tags\":[1]}]",
        "[{\"title\":\"A\",\"folder_path\":1}]",
        "[{\"title\":\"A\",\"title\":\"B\"}]",
        "[{\"title\":\"A\"}",
    ];
    for text in odd {
        assert!(matches!(parse_import_file(text), Ok(ImportFile::Json(_))), "{text}");
    }
    match parse_import_file("title,body\nA,B\n") {
        Ok(ImportFile::Entries(l)) => {
            assert_eq!(l.len(), 1);
            assert_eq!((l[0].title.as_str(), l[0].body.as_str()), ("A", "B"));
        }
        other => panic!("{other:?}"),
    }
    assert!(parse_import_csv("").unwrap().is_empty());
    assert!(parse_import_csv("name,text\nA,B\n").is_err());
}

#[test]
fn operations_carry_the_time_of_day() {
    let input = UpdateSnippet { title: "T".into(), body: "B".into(), tags: vec![], folder_path: None };
    let plan = update("x", &input);
    assert!(matches!(&plan[0], Change::UpdateSnippet { id, at, .. } if id == "x" && *at > 1_600_000_000));
    assert_eq!(delete("x", None).len(), 2);
    assert!(matches!(&delete("x", Some(1))[2], Change::QueueDelete { at, .. } if *at > 1_600_000_000));
    assert_eq!(create_folder("A/B").unwrap().len(), 2);
    assert!(create_folder("/").is_err());
    assert_eq!(rename_folder("A", "B").unwrap().len(), 3);
    assert!(rename_folder("A", "").is_err());
    assert_eq!(delete_folder("A", false).unwrap().len(), 2);
    assert!(delete_folder("", false).is_err());
    assert_eq!(upsert_from_remote("x", "T", "B", &vec![], None, 1, 2, 3).len(), 1);
    assert_eq!(replace_team_snippets(&vec![]).1, 0);
    assert!(matches!(upsert_library_snippet("t", "T", "B", &vec![], None, 4), Change::PutTeam { version: 4, .. }));
    let src = row_to_snippet("x".into(), "T".into(), "B".into(), ",a,", None, 0, None, 0, 0);
    let (id, plan) = duplicate(&src);
    assert_ne!(id, "x");
    assert!(matches!(&plan[0], Change::InsertSnippet { title, .. } if title == "T (copy)"));
}

#[test]
fn what_the_server_acknowledges_is_noted() {
    assert!(matches!(mark_synced("x", 7), Change::MarkSynced { id, version: 7 } if id == "x"));
    assert!(matches!(clear_pending_delete("x"), Change::ClearQueued { id } if id == "x"));
    assert!(matches!(delete_library_snippet("t"), Change::RemoveTeam { team_id } if team_id == "t"));
    assert!(matches!(clear_library_snippets(), Change::ClearTeam));
    assert!(matches!(record_use("x"), Change::RecordUse { id, at } if id == "x" && at > 1_600_000_000));
}
