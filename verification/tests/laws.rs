use snipdesk::audit::{build_where, record_at, Actor, AuditFilter};
use snipdesk::csv::{csv_field, parse_import_csv, parse_import_file, ImportFile};
use snipdesk::dashboard::audit_page::{total_pages, AUDIT_MAX_PAGES};
use snipdesk::dashboard::audit_text::{humanize_audit_details, render_library_update_diff};
use snipdesk::dashboard::folders::{
    check_delete, check_move, library_folder_delete, library_folder_move, moved_path, plan_move, FolderMove, Located,
};
use snipdesk::dashboard::forms::{FolderDeleteForm, FolderMoveForm};
use snipdesk::dashboard::transfer::{
    build_library_export, finish_library_export, start_import, ExportContents, ExportScope,
};
use snipdesk::decimal::{format_thousands, i64_text};
use snipdesk::diff::{line_diff, DiffKind};
use snipdesk::encoding::{decode_utf16, wide_text};
use snipdesk::highlight::{highlight_matches, MATCH_CLOSE, MATCH_OPEN};
use snipdesk::html::{escape_html, render};
use snipdesk::json::keys::{count_name, keys_of, names_of};
use snipdesk::json::Json;
use snipdesk::library::LibraryRow;
use snipdesk::order::sort_distinct;
use snipdesk::paths::{normalize_folder_path, normalize_path, path_ancestors};
use snipdesk::preview::render_body_with_vars;
use snipdesk::tags::{decode_tags, encode_tags};
use snipdesk::trim::{join, split};

fn texts(l: &[&str]) -> Vec<String> {
    l.iter().map(|s| s.to_string()).collect()
}

fn admin() -> Actor {
    Actor { id: "a1".to_string(), email: "ann@example.com".to_string() }
}

#[test]
fn joining_and_splitting_undo_each_other() {
    for s in ["", ",", "a,b,,c", "plain"] {
        assert_eq!(join(&split(s, ','), ","), s);
    }
    let parts = texts(&["a", "", "b c"]);
    assert_eq!(split(&join(&parts, ","), ','), parts);
}

#[test]
fn wide_text_reads_back() {
    for s in ["", "plain", "grüße 😀"] {
        let mut units = wide_text(s);
        assert_eq!(units.pop(), Some(0));
        assert_eq!(decode_utf16(&units), Some(s.to_string()));
    }
}

#[test]
fn normalizing_twice_changes_nothing() {
    for p in ["", " a // b /", "x/y", "/ /"] {
        let once = normalize_path(p);
        assert_eq!(normalize_path(&once), once);
    }
}

#[test]
fn each_ancestor_continues_the_one_before() {
    let l = path_ancestors("a/b/c");
    assert_eq!(l.last().unwrap(), "a/b/c");
    for w in l.windows(2) {
        assert!(w[1].starts_with(&format!("{}/", w[0])));
    }
}

#[test]
fn sorting_keeps_each_text_once() {
    assert_eq!(sort_distinct(&texts(&["b", "a", "b", "B"])), texts(&["B", "a", "b"]));
}

#[test]
fn stored_tags_read_back() {
    let stored = encode_tags(&texts(&[" Refund ", "", "VIP"]));
    assert_eq!(stored, ",refund,vip,");
    assert_eq!(decode_tags(&stored), texts(&["refund", "vip"]));
}

#[test]
fn a_stored_tag_is_found_between_commas() {
    let stored = encode_tags(&texts(&["Refund", "vip"]));
    assert!(stored.contains(",refund,") && stored.contains(",vip,"));
    assert!(!stored.contains(",fund,"));
}

#[test]
fn a_checked_path_is_accepted_unchanged() {
    for p in [" /Replies / Billing/ ", "a//b", "x"] {
        let once = normalize_folder_path(p).unwrap();
        assert_eq!(normalize_folder_path(&once), Ok(once));
    }
}

#[test]
fn marks_are_all_that_highlighting_adds() {
    let text = "a <b> & \"Ab\"";
    for q in ["", "  ", "a", "B", "<b>", "strong"] {
        let bare = highlight_matches(text, q).replace(MATCH_OPEN, "").replace(MATCH_CLOSE, "");
        assert_eq!(bare, escape_html(text));
    }
    assert_eq!(highlight_matches(text, "\t"), escape_html(text));
}

#[test]
fn a_plain_body_is_previewed_as_it_is_highlighted() {
    for q in ["", "pay", "<"] {
        assert_eq!(render_body_with_vars("Pay <now>, please ", q), highlight_matches("Pay <now>, please ", q));
    }
}

#[test]
fn a_row_reads_back_from_a_csv() {
    for (title, body) in [("plain", "text"), ("a,b", "say \"hi\"\r\nbye"), ("t\r", "x\ry")] {
        let file = format!("title,body\n{},{}\n", csv_field(title), csv_field(body));
        let rows = parse_import_csv(&file).unwrap();
        assert_eq!(rows.len(), 1);
        assert_eq!((rows[0].title.as_str(), rows[0].body.as_str()), (title, body));
    }
}

#[test]
fn escaped_texts_stay_apart_and_hold_no_markup() {
    let all = ["<b>", "&lt;b&gt;", "\"x\"", "'x'", "plain"];
    for a in all {
        let e = escape_html(a);
        assert!(!e.contains(['<', '>', '"', '\'']));
        for b in all {
            assert_eq!(a == b, e == escape_html(b));
        }
        assert_eq!(escape_html(&format!("{a}x")), format!("{e}x"));
    }
    assert_eq!(render("no holes", &[("X", "y")]), "no holes");
}

#[test]
fn separators_are_all_that_is_added() {
    for n in [0, 7, -999, 1000, -1_234_567, i64::MAX, i64::MIN] {
        assert_eq!(format_thousands(n).replace(',', ""), n.to_string());
        assert_eq!(i64_text(n).parse::<i64>().unwrap(), n);
    }
}

#[test]
fn a_difference_tells_both_texts_and_keeps_the_most() {
    let d = line_diff("a\nb\nc\nd", "b\nx\nd\ne");
    let side = |drop: DiffKind| {
        d.iter().filter(|(k, _)| *k != drop).map(|(_, l)| l.as_str()).collect::<Vec<_>>().join("\n")
    };
    assert_eq!(side(DiffKind::Add), "a\nb\nc\nd");
    assert_eq!(side(DiffKind::Del), "b\nx\nd\ne");
    let same: Vec<&str> = d.iter().filter(|(k, _)| *k == DiffKind::Same).map(|(_, l)| l.as_str()).collect();
    assert_eq!(same, ["b", "d"]);
}

#[test]
fn every_placeholder_has_its_value() {
    let given = |s: &str| Some(s.to_string());
    let filters = [
        AuditFilter { q: None, action_verb: None, actor_id: None, since_ts: None },
        AuditFilter { q: given("?"), action_verb: None, actor_id: given("a"), since_ts: None },
        AuditFilter { q: given("a"), action_verb: given("create"), actor_id: given("b"), since_ts: Some(1) },
    ];
    for f in &filters {
        let (clause, binds) = build_where(f);
        assert_eq!(clause.matches('?').count(), binds.len());
    }
}

#[test]
fn what_is_searched_for_is_not_in_the_query() {
    let clause = |q: &str| {
        build_where(&AuditFilter { q: Some(q.to_string()), action_verb: None, actor_id: None, since_ts: None }).0
    };
    assert_eq!(clause("a"), clause("'; --"));
}

#[test]
fn the_last_entry_is_on_the_last_page() {
    for total in [1, 25, 26, 5024, 5025, 5026] {
        let pages = total_pages(total, 25);
        assert!((pages - 1) * 25 < total);
        assert!(pages * 25 >= total || pages == AUDIT_MAX_PAGES + 1);
    }
    assert_eq!(total_pages(0, 25), 1);
}

#[test]
fn a_move_there_and_back_changes_nothing() {
    for path in ["Büro", "Büro/a", "Büro/a/b"] {
        let there = moved_path(path, "Büro", "Archive/2024");
        assert_eq!(moved_path(&there, "Archive/2024", "Büro"), path);
    }
    assert_eq!(moved_path("Büro/a/b", "Büro", ""), "a/b");
}

#[test]
fn a_json_export_reads_back() {
    let row = |id: &str, title: &str, tags: &str, folder: Option<&str>| LibraryRow {
        id: id.to_string(),
        title: title.to_string(),
        body: "say \"hi\",\n{x} [y] \\".to_string(),
        tags: tags.to_string(),
        folder_path: folder.map(|f| f.to_string()),
        version: 1,
        updated_at: 0,
        use_count: 0,
        last_used: None,
    };
    let rows = [row("1", "Grüße \"title\":", ",a,b,", Some("F/G")), row("2", "}", "", Some(""))];
    for l in [rows.iter().collect::<Vec<_>>(), Vec::new()] {
        let text = match build_library_export(&l, "json").contents {
            ExportContents::Json(t) => t,
            ExportContents::Csv(_) => panic!("not JSON"),
        };
        let back = match parse_import_file(&text) {
            Ok(ImportFile::Entries(e)) => e,
            other => panic!("{other:?}"),
        };
        assert_eq!(back.len(), l.len());
        for (e, r) in back.iter().zip(&l) {
            assert_eq!((&e.title, &e.body, &e.tags), (&r.title, &r.body, &decode_tags(&r.tags)));
            assert_eq!(e.folder_path, r.folder_path.clone().filter(|f| !f.is_empty()));
        }
    }
}

#[test]
fn a_key_is_counted_as_often_as_it_stands() {
    let text = "{ \"a\": {\"b\": [\"c\", {\"a\": 1}]}, \"b\": \"a,\\\"b\", \"\\u0061\": \"b\" }";
    assert_eq!(keys_of(text), texts(&["\"a\"", "\"b\"", "\"\\u0061\""]));
    let names = names_of(text);
    assert_eq!((count_name(&names, "a"), count_name(&names, "b"), count_name(&names, "c")), (2, 1, 0));
}

#[test]
fn details_are_written_in_the_order_of_their_keys() {
    let m = FolderMove { old: "a".to_string(), new: "b".to_string() };
    let rows = vec![Located { id: "1".to_string(), path: "a".to_string() }];
    let work = library_folder_move(&m, &rows, &vec![], &vec![], 1, &admin()).unwrap();
    let entry = record_at(work.event, 5);
    assert_eq!(entry.details.as_deref(), Some("{\"from\":\"a\",\"snippets_moved\":1,\"to\":\"b\"}"));
}

#[test]
fn moved_snippets_get_new_versions() {
    let rows = vec![
        Located { id: "1".to_string(), path: "a".to_string() },
        Located { id: "2".to_string(), path: "ab".to_string() },
        Located { id: "3".to_string(), path: "a/b".to_string() },
    ];
    let m = FolderMove { old: "a".to_string(), new: "z".to_string() };
    let plan = plan_move(&rows, &m, 40);
    let got: Vec<(&str, Option<&str>, i64)> =
        plan.iter().map(|r| (r.id.as_str(), r.path.as_deref(), r.version)).collect();
    assert_eq!(got, [("1", Some("z"), 41), ("3", Some("z/b"), 42)]);
}

#[test]
fn the_log_tells_of_a_move() {
    let form = FolderMoveForm { old: "Billing".to_string(), new: "Old/Billing".to_string() };
    let rows = vec![Located { id: "1".to_string(), path: "Billing/Late".to_string() }];
    let work =
        library_folder_move(&check_move(&form).unwrap(), &rows, &Vec::new(), &Vec::new(), 1, &admin()).unwrap();
    let entry = record_at(work.event, 9);
    assert_eq!(entry.at, 9);
    assert_eq!(entry.actor_email, "ann@example.com");
    assert_eq!(entry.target_id.as_deref(), Some("Old/Billing"));
    let told = humanize_audit_details(entry.action, entry.details.as_deref());
    assert!(told.contains("Billing") && told.contains("Old/Billing") && told.contains('1'));
}

#[test]
fn the_log_tells_of_a_folder_deletion() {
    let form = FolderDeleteForm { path: "Billing".to_string(), mode: "delete".to_string() };
    let rows = vec![Located { id: "1".to_string(), path: "Billing".to_string() }];
    let work = library_folder_delete(&check_delete(&form).unwrap(), &rows, 1, &admin());
    let entry = record_at(work.event, 9);
    let told = humanize_audit_details(entry.action, entry.details.as_deref());
    assert!(told.contains("Billing") && told.contains('1'));
    assert!(work.landing.ends_with("&deleted=1"));
}

#[test]
fn the_log_tells_of_an_export_and_an_import() {
    let scope = ExportScope::Filter { q: "late".to_string(), folder: "Billing".to_string() };
    let (_, event) = finish_library_export(&Vec::new(), "csv", &scope, &admin());
    let entry = record_at(event, 9);
    let told = humanize_audit_details(entry.action, entry.details.as_deref());
    assert!(told.contains('0') && told.to_lowercase().contains("csv"));

    let mut run = start_import(Vec::new());
    run.imported = 3;
    run.skipped = 2;
    let entry = record_at(run.event(&admin()), 9);
    let told = humanize_audit_details(entry.action, entry.details.as_deref());
    assert!(told.contains('3') && told.contains('2'));
}

#[test]
fn an_edit_that_changes_nothing_shows_no_difference() {
    let snippet = |title: &str| {
        Json::Object(vec![("title".to_string(), Json::Text(title.to_string()))], String::new())
    };
    let edit = |before: &str, after: &str| {
        Json::Object(
            vec![("before".to_string(), snippet(before)), ("after".to_string(), snippet(after))],
            String::new(),
        )
    };
    assert!(render_library_update_diff(&edit("a", "a")).is_none());
    assert!(render_library_update_diff(&edit("a", "b")).is_some());
}
