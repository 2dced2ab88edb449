use snipdesk::audit::{record, record_at, Actor, AuditRow, Detail};
use snipdesk::csv::ImportFileEntry;
use snipdesk::dashboard::ages::{format_last_seen, format_relative, format_relative_at};
use snipdesk::dashboard::audit_page::{
    audit_filter_query, audit_page, audit_page_size, audit_view, filter_of_view, snippets_by_id_query, target_ids,
    total_pages, users_by_id_query, AuditView, Known,
};
use snipdesk::dashboard::audit_text::{
    capitalize, details_of_json, humanize_audit_action, humanize_audit_details, humanize_audit_target,
    render_library_update_diff, user_target_label, KnownSnippet, KnownUser,
};
use snipdesk::dashboard::cards::{
    render_library_cards_inner, render_library_editor, render_library_editor_create, render_library_row_highlighted,
};
use snipdesk::dashboard::folder_tree::{render_library_folder_tree, FolderRow};
use snipdesk::dashboard::folders::{
    anything_to_move, check_delete, check_move, deletable_path, delete_landing, library_folder_create,
    library_folder_delete, library_folder_delete_confirm, library_folder_move, library_folder_reorder, moved_target,
    plan_delete, plan_folder_rows, plan_move, strip_path, FolderMove, Located, REORDER_LIMIT,
};
use snipdesk::dashboard::forms::{
    AuditPageQuery, CreateUserForm, FolderCreateForm, FolderDeleteForm, FolderMoveForm, FolderReorderBody, IndexQuery,
    LibraryCreateForm, LibraryEditForm, LibraryMoveForm, LibraryPageQuery, LoginForm, SetupForm, UpdateFlag,
};
use snipdesk::dashboard::insights::{
    find_top_user, insight_sort, insight_tile, library_insights_page, library_snippet_tickets_page, sort_insights,
    InsightRow, InsightSort, TicketRow, UsageRow,
};
use snipdesk::dashboard::layout::{render_page, render_update_banner, Frame, NavTab, UpdateStatus};
use snipdesk::dashboard::library_forms::{library_create, library_move, library_update, saved_row};
use snipdesk::dashboard::library_page::{library_cards, library_folders, library_page};
use snipdesk::dashboard::onboarding::{onboarding_page, NudgeRow, Onboarding, Stage};
use snipdesk::dashboard::selection_tree::{render_selection_tree, TreeItem};
use snipdesk::dashboard::tree_order::sort_tree;
use snipdesk::dashboard::sign_in::{
    check_setup, configured_dashboard_sso, index, login_submit, render_dashboard_sso_buttons, render_setup_page,
    setup_landed, setup_submit, setup_welcome, sign_in_page, strip_sso_divider, FrontPage, LoginRow, SignIn,
    SignInSite,
};
use snipdesk::dashboard::stats::{
    stat_card, stats_page, total_chars, Ranked, RecentLibrary, RecentSignup, Stats, StatsCounts,
};
use snipdesk::dashboard::transfer::{
    build_library_export, build_library_export_on, content_disposition, entries_selected, export_format, export_items,
    finish_library_export, import_items, import_landing, indices_below, keys_of_library, library_export_picker,
    library_import_preview, rows_for_export, rows_selected, selected_rows, start_import, ExportContents, ExportScope,
};
use snipdesk::dashboard::user_detail::{detail_pair, user_detail_page, Telemetry};
use snipdesk::dashboard::users::{
    created_row, find_signals, new_account, normalize_email, onboarding_pips, render_error_row,
    render_user_row, user_create_row, user_view, users_page, users_rows, AdminUserView, Signals, UserRow,
};
use snipdesk::entries::entries_of_json;
use snipdesk::diff::{line_diff, render_diff_field, DiffKind};
use snipdesk::json::Json;
use snipdesk::library::LibraryRow;

const NOW: i64 = 1_700_000_000;

fn texts(l: &[&str]) -> Vec<String> {
    l.iter().map(|t| t.to_string()).collect()
}

fn row(id: &str, title: &str, folder: Option<&str>) -> LibraryRow {
    LibraryRow {
        id: id.to_string(),
        title: title.to_string(),
        body: format!("body of {title}"),
        tags: ",one,two,".to_string(),
        folder_path: folder.map(|f| f.to_string()),
        version: 7,
        updated_at: NOW - 120,
        use_count: 3,
        last_used: Some(NOW - 7200),
    }
}

fn admin_user(id: &str) -> AdminUserView {
    AdminUserView {
        id: id.to_string(),
        email: format!("{id}@example.com"),
        display_name: format!("<{id}>"),
        role: "admin".to_string(),
        is_disabled: false,
        created_at: NOW - 86_400,
        last_seen_at: None,
        snippet_count: 4,
    }
}

fn library_query(folder: Option<&str>, q: Option<&str>) -> LibraryPageQuery {
    LibraryPageQuery {
        folder: folder.map(|f| f.to_string()),
        q: q.map(|f| f.to_string()),
        imported: None,
        skipped: None,
        folder_deleted: None,
        moved: None,
        deleted: None,
    }
}

fn site(google: bool, keycloak: Option<Option<&str>>) -> SignInSite {
    SignInSite {
        brand_name: "Acme <Desk>".to_string(),
        password_enabled: true,
        google,
        keycloak: keycloak.map(|k| k.map(|t| t.to_string())),
    }
}

fn object(pairs: Vec<(&str, Json)>) -> Json {
    Json::Object(pairs.into_iter().map(|(k, v)| (k.to_string(), v)).collect(), String::new())
}

fn text(t: &str) -> Json {
    Json::Text(t.to_string())
}

fn insight(id: &str, title: &str, uses: i64, created_at: i64, last_used: Option<i64>) -> InsightRow {
    InsightRow { id: id.into(), title: title.into(), folder: None, created_at, uses, last_used, top_user: None }
}

fn actor() -> Actor {
    Actor { id: "admin1".into(), email: "boss@example.com".into() }
}

/// What the page says of an event once it is recorded.
fn told(e: snipdesk::audit::AuditEvent) -> String {
    let entry = record_at(e, NOW);
    assert_eq!(entry.at, NOW);
    humanize_audit_details(entry.action, entry.details.as_deref())
}

fn order(l: &[InsightRow]) -> Vec<String> {
    l.iter().map(|r| r.id.clone()).collect()
}

#[test]
fn ages_grow_coarser() {
    assert_eq!(format_relative_at(NOW, NOW), "just now");
    assert_eq!(format_relative_at(NOW, NOW + 50), "just now");
    assert_eq!(format_relative_at(NOW, NOW - 59), "just now");
    assert_eq!(format_relative_at(NOW, NOW - 60), "1m ago");
    assert_eq!(format_relative_at(NOW, NOW - 3599), "59m ago");
    assert_eq!(format_relative_at(NOW, NOW - 3600), "1h ago");
    assert_eq!(format_relative_at(NOW, NOW - 86_400), "1d ago");
    assert_eq!(format_relative_at(NOW, NOW - 7 * 86_400 + 1), "6d ago");
    assert_eq!(format_relative_at(NOW, NOW - 7 * 86_400), "Nov 7");
    assert_eq!(format_relative_at(NOW, i64::MIN), "-");
    assert_eq!(format_relative_at(i64::MIN, i64::MAX), "just now");
    assert_eq!(format_last_seen(NOW, None), "never");
    assert_eq!(format_last_seen(NOW, Some(NOW - 60)), "1m ago");
    assert_eq!(format_relative(0), "Jan 1");
}

#[test]
fn pips_count_the_steps() {
    assert_eq!(
        onboarding_pips(Signals { saved: true, tried: false, pasted: true }),
        "<span class=\"ob-pips\" aria-label=\"3 of 4 onboarding steps\">\
         <span class=\"ob-pip on\" title=\"Signed up\"></span>\
         <span class=\"ob-pip on\" title=\"Saved a snippet\"></span>\
         <span class=\"ob-pip\" title=\"Tried the shortcut\"></span>\
         <span class=\"ob-pip on\" title=\"Pasted a snippet\"></span></span>"
    );
    let known = vec![("a".to_string(), Signals { saved: true, tried: true, pasted: true })];
    assert!(find_signals(&known, "a").pasted);
    assert!(!find_signals(&known, "b").saved);
}

#[test]
fn user_rows_show_the_account() {
    let u = admin_user("u1");
    let own = render_user_row(&u, "u1", "PIPS", NOW);
    let other = render_user_row(&u, "u2", "PIPS", NOW);
    for html in [&own, &other] {
        assert!(html.contains("&lt;u1&gt;"));
        assert!(html.contains("u1@example.com"));
        assert!(html.contains("PIPS"));
        assert!(html.contains("never"));
    }
    assert_ne!(own, other);
    let rows = vec![admin_user("u1"), admin_user("u2")];
    let list = users_rows(&rows, "u1", &vec![], NOW);
    assert!(list.find("u1@example.com").unwrap() < list.find("u2@example.com").unwrap());
    let page = users_page(Some(&rows), "u1", &vec![], NOW);
    assert!(page.starts_with("<h1>Users</h1>"));
    assert!(page.contains(&list));
    assert!(!users_page(None, "u1", &vec![], NOW).contains("<table"));
    assert_eq!(
        render_error_row("a & b"),
        "<tr><td colspan=\"7\" class=\"banner error\">a &amp; b</td></tr>"
    );
    let v = user_view(UserRow {
        id: "x".into(),
        email: "e".into(),
        display_name: "d".into(),
        role: "member".into(),
        is_disabled: 1,
        created_at: 5,
        last_seen_at: Some(6),
        snippet_count: 7,
    });
    assert!(v.is_disabled);
    assert_eq!((v.created_at, v.last_seen_at, v.snippet_count), (5, Some(6), 7));
}

#[test]
fn accounts_need_an_address_a_name_and_a_password() {
    let form = |email: &str, name: &str, password: &str, role: &str| CreateUserForm {
        email: email.to_string(),
        display_name: name.to_string(),
        password: password.to_string(),
        role: role.to_string(),
    };
    let a = new_account(&form(" Ann@Example.COM ", " Ann ", "0123456789", "admin")).unwrap();
    assert_eq!((a.email.as_str(), a.display_name.as_str(), a.role.as_str()), ("ann@example.com", "Ann", "admin"));
    assert_eq!(new_account(&form("a@b", "n", "0123456789", "owner")).unwrap().role, "member");
    assert!(new_account(&form("ab", "n", "0123456789", "admin")).is_none());
    assert!(new_account(&form("a@b", "  ", "0123456789", "admin")).is_none());
    assert!(new_account(&form("a@b", "n", "012345678", "admin")).is_none());
    assert_eq!(normalize_email("  A@B "), "a@b");
    let made = user_create_row(&form("x@y", "X", "0123456789", ""), false, &actor()).unwrap();
    assert_eq!((made.account.email.as_str(), made.account.role.as_str()), ("x@y", "member"));
    assert!(snipdesk::auth::verify_password_constant_time("0123456789", Some(&made.password_hash)));
    assert!(made.row.contains("x@y") && made.row.contains(&made.id));
    assert_eq!(told(made.event), "Created <strong>x@y</strong> as member");
    let taken = user_create_row(&form("x@y", "X", "0123456789", ""), true, &actor()).unwrap_err();
    assert_eq!(taken.status, 409);
    assert!(taken.row.contains("already exists"));
    assert_eq!(user_create_row(&form("xy", "X", "0123456789", ""), false, &actor()).unwrap_err().status, 400);
    let html = created_row("u9", &a, NOW);
    assert!(html.contains("ann@example.com") && html.contains("1 of 4 onboarding steps"));
}

#[test]
fn update_flags_read_as_booleans() {
    assert_eq!(UpdateFlag::Bool(true).as_bool(), Some(true));
    assert_eq!(UpdateFlag::Str("true".into()).as_bool(), Some(true));
    assert_eq!(UpdateFlag::Str("false".into()).as_bool(), Some(false));
    assert_eq!(UpdateFlag::Str("maybe".into()).as_bool(), None);
}

#[test]
fn user_detail_shows_the_figures() {
    let t = Telemetry {
        chars: 12_345,
        pastes: 1_000,
        hours_saved: "4.2".into(),
        money_whole: 210,
        wpm: "40".into(),
        wage: "50".into(),
        currency: "AUD".into(),
        favourites: vec![Ranked { name: "Fav <1>".into(), count: 12 }],
    };
    let html = user_detail_page(&admin_user("u1"), 2, &t, "u2", NOW);
    for part in ["&lt;u1&gt;", "12,345", "1,000", "4.2", "210", "AUD", "Fav &lt;1&gt;", "1d ago"] {
        assert!(html.contains(part), "{part} is missing in {html}");
    }
    assert_eq!(
        detail_pair("A & B", "<b>x</b>"),
        "<div class=\"detail-row\"><span class=\"detail-label\">A &amp; B</span>\
         <span class=\"detail-value\"><b>x</b></span></div>"
    );
}

#[test]
fn the_frame_marks_its_tab_and_escapes() {
    let frame = |newer: bool| Frame {
        brand_name: "Acme & Co".into(),
        version: "1.0.0".into(),
        update: UpdateStatus {
            is_newer: newer,
            latest_version: Some("1.1.0".into()),
            html_url: Some("https://example.com/r".into()),
        },
        user: "<me>".into(),
        role: "admin".into(),
    };
    let layout = "{{TITLE}}|{{BRAND_NAME}}|{{BRAND_INITIAL}}|{{LIBRARY_ACTIVE}}|{{USERS_ACTIVE}}|{{NAV_USER}}|{{CONTENT}}";
    let page = render_page(layout, &frame(false), "Library", NavTab::Library, "<p>{{NAV_USER}}</p>");
    let parts: Vec<&str> = page.split('|').collect();
    assert_eq!(parts[0], "Library");
    assert_eq!(parts[1], "Acme &amp; Co");
    assert_eq!(parts[2], "A");
    assert_ne!(parts[3], "");
    assert_eq!(parts[4], "");
    assert_eq!(parts[5], "&lt;me&gt;");
    assert!(!parts[6].contains("&lt;me&gt;"));
    assert_eq!(render_update_banner(&frame(false)), "");
    let banner = render_update_banner(&frame(true));
    assert!(banner.contains("1.1.0") && banner.contains("1.0.0") && banner.contains("https://example.com/r"));
}

#[test]
fn library_rows_become_cards() {
    let r = row("s1", "Refund <now>", Some("Billing"));
    let html = render_library_row_highlighted(&r, "refund", NOW);
    assert!(html.contains("<strong class=\"search-match\">Refund</strong> &lt;now&gt;"));
    let inner = render_library_cards_inner(&vec![&r], "", NOW);
    assert!(inner.contains("Refund &lt;now&gt;"));
    assert!(!render_library_cards_inner(&vec![], "", NOW).contains("Refund"));
    let editor = render_library_editor(&r, NOW);
    assert!(editor.contains("one, two") && editor.contains("value=\"7\""));
    assert!(render_library_editor_create("Billing/Late").contains("Billing/Late"));
    assert!(!render_library_editor_create("__all__").contains("__all__"));
}

#[test]
fn the_folder_tree_counts_below() {
    let rows = vec![row("a", "A", Some("F/G")), row("b", "B", None), row("c", "C", Some("F"))];
    let folders = vec![FolderRow { path: "Z".into(), sort_order: 0 }, FolderRow { path: "F".into(), sort_order: 2 }];
    let html = render_library_folder_tree(&rows, &folders, "F");
    let all = html.find("All snippets").unwrap();
    let unfiled = html.find("Unfiled").unwrap();
    let z = html.find("?folder=Z").unwrap();
    let f = html.find("?folder=F\"").unwrap();
    let g = html.find("?folder=F/G\"").unwrap();
    assert!(all < unfiled && unfiled < f && f < g && g < z);
    let q = library_query(Some("F"), None);
    assert_eq!(library_folders(&rows, &folders, &q), html);
}

#[test]
fn subfolders_follow_their_folder() {
    let folder = |path: &str| FolderRow { path: path.into(), sort_order: 0 };
    let folders = vec![folder("A-x"), folder("A/B"), folder("B"), folder("A"), folder("A/B/C"), folder("A/B-c")];
    let html = render_library_folder_tree(&vec![], &folders, "");
    let at = |path: &str| html.find(&format!("?folder={path}\"")).unwrap();
    let order = ["A", "A/B", "A/B/C", "A/B-c", "A-x", "B"];
    for w in order.windows(2) {
        assert!(at(w[0]) < at(w[1]), "{} before {}", w[0], w[1]);
    }
    assert_eq!(sort_tree(&texts(&["A-x", "A/B", "B", "A", "A/B/C", "A/B-c", "A"])), texts(&order));
}

#[test]
fn the_library_page_shows_what_happened() {
    let rows = vec![row("a", "Alpha", Some("F")), row("b", "Beta", None)];
    let mut q = library_query(Some("F"), None);
    q.imported = Some(2);
    q.skipped = Some(1);
    let page = library_page(&rows, &vec![], &q, "SCRIPT", NOW);
    assert!(page.contains("SCRIPT"));
    assert!(page.contains("Alpha") && !page.contains("Beta"));
    let cards = library_cards(&rows, &library_query(None, Some("beta")), NOW);
    assert!(cards.contains("Beta") || cards.contains("search-match"));
    assert!(!cards.contains("Alpha"));
}

#[test]
fn a_picker_nests_its_folders() {
    let item = |key: &str, title: &str, folder: &str| TreeItem {
        key: key.into(),
        title: title.into(),
        folder: folder.into(),
        checked: true,
        badge: false,
    };
    let html = render_selection_tree(&[item("1", "One", "A/B"), item("2", "Two", ""), item("3", "<Three>", "A")]);
    assert!(html.contains("&lt;Three&gt;"));
    assert!(html.contains("(no folder)"));
    for key in ["data-idx=\"1\"", "data-idx=\"2\"", "data-idx=\"3\""] {
        assert_eq!(html.matches(key).count(), 1);
    }
    assert_eq!(render_selection_tree(&[]), "");
}

#[test]
fn exports_carry_the_rows() {
    let rows = vec![row("a", "Alpha", Some("F")), row("b", "Beta", None)];
    let all: Vec<&LibraryRow> = rows.iter().collect();
    let csv = build_library_export_on(&all, "csv", "2026-01-02");
    assert_eq!(csv.filename, "library-2026-01-02.csv");
    assert_eq!(csv.content_type, "text/csv; charset=utf-8");
    assert!(matches!(csv.contents, ExportContents::Csv(t) if t.starts_with("\u{feff}title,body,tags,folder_path\n")));
    let json = build_library_export(&all, "json");
    assert!(json.filename.starts_with("library-20") && json.filename.ends_with(".json"));
    match json.contents {
        ExportContents::Json(t) => {
            assert!(t.starts_with("[\n  {\n    \"title\": \"Alpha\",\n    \"body\": "));
            let l = entries_of_json(&t).unwrap();
            assert_eq!(l.len(), 2);
            assert_eq!((l[0].title.as_str(), l[0].folder_path.as_deref()), ("Alpha", Some("F")));
            assert_eq!(l[1].tags, texts(&["one", "two"]));
        }
        ExportContents::Csv(_) => panic!("not JSON"),
    }
    let scope = ExportScope::Filter { q: "re\"f".into(), folder: "F".into() };
    let (file, event) = finish_library_export(&all, "csv", &scope, &actor());
    assert!(file.filename.ends_with(".csv"));
    assert_eq!(
        told(event),
        "Exported <strong>2</strong> snippets as CSV (search \"re&quot;f\", folder <em>F</em>)"
    );
    let (_, event) = finish_library_export(&all, "json", &ExportScope::Selection, &actor());
    assert!(matches!(&event.details, Some(l) if matches!(l[0].1, Detail::Count(2))));
    assert!(record(event).at > 1_600_000_000);
    assert_eq!(content_disposition("x.csv"), "attachment; filename=\"x.csv\"");
    assert_eq!(export_format(&None), "json");
    assert_eq!(export_format(&Some("csv".into())), "csv");
    let ids = |l: Vec<&LibraryRow>| l.iter().map(|r| r.id.clone()).collect::<Vec<String>>();
    assert_eq!(ids(rows_selected(&rows, "[\"zz\", \"b\"]")), texts(&["b"]));
    for none in ["", "[]", "[1]", "{}", "[\"b\""] {
        assert!(rows_selected(&rows, none).is_empty());
    }
    assert_eq!(entries_selected(3, "[2, 3, 0, 2]"), vec![2, 0, 2]);
    for none in ["", "[]", "[-1]", "[\"0\"]", "0"] {
        assert!(entries_selected(3, none).is_empty());
    }
    assert_eq!(indices_below(&vec![5, 1, 4], 5), vec![1, 4]);
    let only: Vec<String> = selected_rows(&rows, &texts(&["b", "zz"])).iter().map(|r| r.id.clone()).collect();
    assert_eq!(only, texts(&["b"]));
    assert_eq!(rows_for_export(&rows, "F", &None).len(), 1);
    assert_eq!(export_items(&rows).len(), 2);
    assert!(library_export_picker(&rows).contains("Alpha"));
}

#[test]
fn an_upload_is_taken_title_by_title() {
    let entry = |title: &str, body: &str| ImportFileEntry {
        title: title.to_string(),
        body: body.to_string(),
        tags: texts(&["t"]),
        folder_path: None,
    };
    let rows = vec![row("a", "Alpha", None)];
    let keys = keys_of_library(&rows);
    assert_eq!(keys, texts(&["alpha"]));
    let l = vec![entry(" ALPHA ", "x"), entry("New", "y"), entry("new", "z"), entry("Blank", " ")];
    let items = import_items(&l, &keys);
    assert!(items[0].badge && !items[0].checked);
    assert!(!items[1].badge && items[1].checked);
    let preview = library_import_preview(Ok(&l), &keys, "[payload]");
    assert!(preview.contains("New") && preview.contains("[payload]"));
    assert!(library_import_preview(Err("no <good>"), &keys, "").contains("no &lt;good&gt;"));
    let none: Vec<ImportFileEntry> = vec![];
    assert_ne!(library_import_preview(Ok(&none), &keys, ""), library_import_preview(Ok(&l), &keys, ""));
    let mut run = start_import(keys);
    assert!(run.next(&l[0]).is_none());
    run.done(&l[0], false);
    let request = run.next(&l[1]).unwrap();
    assert_eq!(request.payload.title, "New");
    assert_eq!(request.id.len(), 36);
    run.done(&l[1], true);
    assert!(run.next(&l[2]).is_none());
    run.done(&l[2], false);
    assert_eq!((run.imported, run.skipped), (1, 2));
    assert_eq!(told(run.event(&actor())), "Imported <strong>1</strong> snippet, skipped 2 duplicates");
    assert_eq!(import_landing(run.imported, run.skipped), "/dashboard/library?imported=1&skipped=2");
}

#[test]
fn forms_become_payloads() {
    let form = |title: &str, body: &str| LibraryCreateForm {
        title: title.into(),
        body: body.into(),
        tags: " a, ,B ".into(),
        folder_path: "  F ".into(),
    };
    let c = library_create(&form("  T ", "B ")).unwrap();
    assert_eq!((c.payload.title.as_str(), c.payload.body.as_str()), ("T", "B "));
    assert_eq!(c.payload.tags, texts(&["a", "B"]));
    assert_eq!(c.payload.folder_path.as_deref(), Some("F"));
    assert!(uuid::Uuid::parse_str(&c.id).is_ok());
    assert!(library_create(&form(" ", "B")).is_none());
    assert!(library_create(&form("T", "\n")).is_none());
    let edit = |title: &str| LibraryEditForm {
        title: title.into(),
        body: "B".into(),
        tags: String::new(),
        folder_path: String::new(),
        expected_version: 9,
    };
    assert_eq!(library_update(&edit("T")).unwrap().expected_version, 9);
    assert!(library_update(&edit("")).is_none());
    let saved = saved_row(c.payload, "s1".into(), 3, NOW, 0, None);
    assert_eq!((saved.tags.as_str(), saved.version, saved.updated_at), (",a,b,", 3, NOW));
    let moved = library_move(&saved, &LibraryMoveForm { folder_path: " ".into() });
    assert_eq!((moved.payload.title.as_str(), moved.payload.folder_path.as_deref()), ("T", None));
    assert_eq!((moved.payload.tags, moved.expected_version), (texts(&["a", "b"]), 3));
}

#[test]
fn folders_reorder_from_one() {
    let body = FolderReorderBody { parent: "P".into(), paths: texts(&["b", "a"]) };
    let plan = library_folder_reorder(&body).unwrap();
    let got: Vec<(String, i64)> = plan.iter().map(|p| (p.path.clone(), p.order)).collect();
    assert_eq!(got, vec![("b".to_string(), 1), ("a".to_string(), 2)]);
    let empty = FolderReorderBody { parent: String::new(), paths: vec![] };
    assert_eq!(library_folder_reorder(&empty).unwrap_err(), "no paths supplied");
    let many = FolderReorderBody { parent: String::new(), paths: vec!["x".to_string(); REORDER_LIMIT + 1] };
    assert_eq!(library_folder_reorder(&many).unwrap_err(), "too many paths in one reorder");
    let full = FolderReorderBody { parent: String::new(), paths: vec!["x".to_string(); REORDER_LIMIT] };
    assert_eq!(library_folder_reorder(&full).unwrap().len(), REORDER_LIMIT);
}

#[test]
fn a_moved_folder_takes_its_subtree() {
    let form = |old: &str, new: &str| FolderMoveForm { old: old.into(), new: new.into() };
    assert_eq!(check_move(&form(" / ", "x")).unwrap_err(), "old path required");
    assert_eq!(check_move(&form("a", "x//y")).unwrap_err(), "invalid new path");
    assert_eq!(check_move(&form("a", "x\u{1}y")).unwrap_err(), "invalid new path");
    assert_eq!(check_move(&form("a", &"x".repeat(301))).unwrap_err(), "invalid new path");
    let into = "can't move a folder into itself or one of its descendants";
    assert_eq!(check_move(&form("a", "/a/")).unwrap_err(), into);
    assert_eq!(check_move(&form("a", "a/b")).unwrap_err(), into);
    assert!(check_move(&form("a", "ab")).is_ok());
    let m = check_move(&form("/R/B/", "S")).unwrap();
    assert_eq!((m.old.as_str(), m.new.as_str()), ("R/B", "S"));
    let at = |id: &str, path: &str| Located { id: id.into(), path: path.into() };
    let rows = vec![at("1", "R/B"), at("2", "R/B/C"), at("3", "R/Bx"), at("4", "r/b/c")];
    let got: Vec<(String, Option<String>, i64)> =
        plan_move(&rows, &m, 10).into_iter().map(|r| (r.id, r.path, r.version)).collect();
    assert_eq!(
        got,
        vec![("1".to_string(), Some("S".to_string()), 11), ("2".to_string(), Some("S/C".to_string()), 12)]
    );
    let root = FolderMove { old: "R/B".into(), new: String::new() };
    let got: Vec<Option<String>> = plan_move(&rows, &root, 0).into_iter().map(|r| r.path).collect();
    assert_eq!(got, vec![None, Some("C".to_string())]);
    assert_eq!(
        plan_folder_rows(&texts(&["R/B", "R/B/C", "R"]), &root),
        vec![("R/B".to_string(), None), ("R/B/C".to_string(), Some("C".to_string()))]
    );
    let taken = texts(&["R/B", "R/B/C", "R/B/D", "S", "S/C"]);
    assert_eq!(
        plan_folder_rows(&taken, &m),
        vec![
            ("R/B".to_string(), None),
            ("R/B/C".to_string(), None),
            ("R/B/D".to_string(), Some("S/D".to_string())),
        ]
    );
    let up = FolderMove { old: "R/B".into(), new: "R".into() };
    assert_eq!(
        plan_folder_rows(&texts(&["R", "R/B", "R/B/B"]), &up),
        vec![("R/B".to_string(), None), ("R/B/B".to_string(), Some("R/B".to_string()))]
    );
    assert_eq!(moved_target("R/B/C", &m), "S/C");
    assert_eq!(moved_target("R/B", &root), "");
    assert_eq!(moved_target("other", &m), "other");
    assert!(anything_to_move(0, 1) && anything_to_move(1, 0) && !anything_to_move(0, 0));
    let work = library_folder_move(&m, &rows, &texts(&["R", "R/B"]), &texts(&["R/B/C", "Q"]), 10, &actor()).unwrap();
    assert_eq!(work.snippets.len(), 2);
    assert_eq!(work.folders, vec![("R/B".to_string(), Some("S".to_string()))]);
    assert_eq!(work.targets, vec![("R/B/C".to_string(), "S/C".to_string())]);
    assert_eq!(work.event.target_id.as_deref(), Some("S"));
    assert_eq!(told(work.event), "Moved folder <strong>R/B</strong> to <em>S</em> (2 snippets)");
    assert!(library_folder_move(&m, &vec![], &texts(&["R"]), &vec![], 10, &actor()).is_none());
    assert!(library_folder_move(&m, &vec![], &texts(&["R/B"]), &vec![], 10, &actor()).is_some());
}

#[test]
fn a_folder_is_deleted_on_request() {
    assert_eq!(deletable_path(" /F/ "), Some("F".to_string()));
    assert_eq!(strip_path(" /F/ "), "F");
    for special in ["", "__all__", "__unfiled__"] {
        assert_eq!(deletable_path(special), None);
    }
    assert!(library_folder_delete_confirm(None, 0).contains("can't be deleted"));
    assert!(library_folder_delete_confirm(Some("<F>"), 0).contains("<em>&lt;F&gt;</em> is empty"));
    assert!(library_folder_delete_confirm(Some("F"), 1).contains("<strong>1</strong> snippet (including"));
    assert!(library_folder_delete_confirm(Some("F"), 2).contains("<strong>2</strong> snippets (including"));
    let form = |path: &str, mode: &str| FolderDeleteForm { path: path.into(), mode: mode.into() };
    assert!(check_delete(&form("F", "delete")).unwrap().cascade);
    assert!(!check_delete(&form("F", "move")).unwrap().cascade);
    assert_eq!(check_delete(&form("F", "other")).unwrap_err(), "invalid mode");
    assert_eq!(check_delete(&form("__all__", "move")).unwrap_err(), "invalid folder path");
    let at = |id: &str, path: &str| Located { id: id.into(), path: path.into() };
    let plan = plan_delete(&vec![at("1", "F"), at("2", "G"), at("3", "F/x")], "F", 5);
    let got: Vec<(String, i64)> = plan.into_iter().map(|v| (v.id, v.version)).collect();
    assert_eq!(got, vec![("1".to_string(), 6), ("3".to_string(), 7)]);
    let d = check_delete(&form("F", "delete")).unwrap();
    let work = library_folder_delete(&d, &vec![at("1", "F"), at("2", "G")], 5, &actor());
    assert_eq!((work.snippets.len(), work.landing.as_str()), (1, "/dashboard/library?folder_deleted=F&deleted=1"));
    assert_eq!(told(work.event), "Deleted folder <strong>F</strong> and its 1 snippet");
    let made = library_folder_create(&FolderCreateForm { path: " /A/B ".into() }, &actor()).unwrap();
    assert_eq!((made.path.as_str(), made.event.target_id.as_deref()), ("A/B", Some("A/B")));
    assert!(made.at > 1_600_000_000);
    let made = library_folder_create(&FolderCreateForm { path: "a//b".into() }, &actor()).unwrap();
    assert_eq!(made.path, "a/b");
    assert!(library_folder_create(&FolderCreateForm { path: "a/ /b".into() }, &actor()).is_err());
    assert_eq!(delete_landing("a b/\u{e9}", true, 2), "/dashboard/library?folder_deleted=a%20b%2F%C3%A9&deleted=2");
    assert_eq!(delete_landing("a-b_c.~", false, 0), "/dashboard/library?folder_deleted=a-b_c.~&moved=0");
}

#[test]
fn insights_sort_stably() {
    let rows = || {
        vec![
            insight("a", "beta", 1, 30, None),
            insight("b", "Alpha", 5, 20, Some(9)),
            insight("c", "alpha", 5, 10, Some(5)),
            insight("d", "gamma", 0, 10, Some(9)),
        ]
    };
    assert_eq!(order(&sort_insights(rows(), InsightSort::Uses)), texts(&["b", "c", "a", "d"]));
    assert_eq!(order(&sort_insights(rows(), InsightSort::Recent)), texts(&["b", "d", "c", "a"]));
    assert_eq!(order(&sort_insights(rows(), InsightSort::Age)), texts(&["c", "d", "b", "a"]));
    assert_eq!(order(&sort_insights(rows(), InsightSort::Title)), texts(&["b", "c", "a", "d"]));
    assert!(matches!(insight_sort("recent"), InsightSort::Recent));
    assert!(matches!(insight_sort("anything"), InsightSort::Uses));
    let usage = |id: &str, user: &str, count: i64| UsageRow { snippet_id: id.into(), user: user.into(), count };
    let l = vec![usage("a", "Ann", 2), usage("a", "Bob", 5), usage("a", "Cyd", 5), usage("b", "Dee", 0)];
    assert_eq!(find_top_user(&l, "a").as_deref(), Some("Bob"));
    assert_eq!(find_top_user(&l, "b").as_deref(), Some("Dee"));
    assert_eq!(find_top_user(&l, "c"), None);
}

#[test]
fn insights_page_lists_every_snippet() {
    let rows = vec![insight("a", "<beta>", 1500, NOW - 60, None), insight("b", "Alpha", 0, NOW - 3600, Some(NOW - 60))];
    let html = library_insights_page(rows, &None, Some(&vec![("a".to_string(), 2)]), NOW);
    assert!(html.contains(&insight_tile("1,500", "Total pastes", "")));
    assert!(html.contains(&insight_tile("2", "Snippets", "in the library")));
    assert!(html.contains(&insight_tile("1", "Active", "pasted at least once")));
    assert!(html.contains(&insight_tile("1", "Never used", "candidates to prune")));
    assert!(html.contains("<a href=\"/dashboard/library/snippet-tickets/a\">2</a>"));
    assert!(html.contains("Uses \u{2193}"));
    assert!(html.find("&lt;beta&gt;").unwrap() < html.find("Alpha").unwrap());
    assert!(library_insights_page(vec![], &None, None, NOW).contains("No library snippets yet."));
    assert_eq!(
        insight_tile("1", "L", ""),
        "<div class=\"insight-tile\"><div class=\"insight-value\">1</div><div class=\"insight-label\">L</div></div>"
    );
    let tickets = vec![TicketRow { reference: "T<1>".into(), pastes: 3, last_used: NOW - 60 }];
    let page = library_snippet_tickets_page(&Some("Title".into()), &tickets, NOW);
    assert!(page.contains("<tr><td>T&lt;1&gt;</td><td class=\"n\">3</td><td>1m ago</td></tr>"));
    assert!(library_snippet_tickets_page(&None, &vec![], NOW).contains("(deleted snippet)"));
}

#[test]
fn stats_show_what_was_counted() {
    let s = Stats {
        counts: StatsCounts {
            total_users: 10,
            active_users: 8,
            admin_users: 2,
            disabled_users: 1,
            total_snippets: 1234,
            tombstoned_snippets: 5,
            library_snippets: 77,
        },
        library_new_7d: 3,
        library_new_30d: 9,
        adoption_pct: 80,
        snippets_pasted: 4321,
        chars_pasted: vec![i64::MAX, i64::MAX],
        hours_saved: "12.5".into(),
        money_aud: "625.00".into(),
        money_whole: 625,
        currency: "AUD".into(),
        codes: texts(&["AUD", "USD"]),
        rates_json: "{}".into(),
        top_users: vec![Ranked { name: "<top>".into(), count: 9 }],
        top_library: vec![Ranked { name: "Lib".into(), count: 8 }],
        recent_users: vec![RecentSignup {
            display_name: "Ann".into(),
            email: "ann@example.com".into(),
            role: "member".into(),
            created_at: NOW - 60,
        }],
        recent_library: vec![RecentLibrary { title: "Title".into(), folder_path: Some("F".into()), updated_at: NOW - 60 }],
    };
    let html = stats_page(&s, "SCRIPT", NOW);
    for part in ["1234", "77", "80%", "4,321", "12.5", "625", "&lt;top&gt;", "Lib", "Ann", "Title", "SCRIPT", "USD"] {
        assert!(html.contains(part), "{part} is missing");
    }
    assert_eq!(total_chars(&vec![i64::MAX, i64::MAX]), 18_446_744_073_709_551_614);
    assert!(html.contains("18,446,744,073,709,551,614"));
    assert!(stat_card("id", "L", "<v>", "h").contains("<div class=\"stat-value\">&lt;v&gt;</div>"));
}

#[test]
fn onboarding_shows_the_funnel() {
    let stage = |count: i64, pct: i64, drop_pct: i64| Stage { count, pct, drop_pct };
    let o = Onboarding {
        signed_up: stage(10, 100, 0),
        saved: stage(6, 60, 40),
        tried: stage(6, 60, 0),
        pasted: stage(3, 30, 50),
        activation_pct: 30,
        awaiting: 7,
        new_this_week: 2,
        nudge: vec![
            NudgeRow { name: "<Ann>".into(), created_at: NOW - 60, saved: true, tried: false },
            NudgeRow { name: "Bob".into(), created_at: NOW - 60, saved: true, tried: true },
            NudgeRow { name: "Cyd".into(), created_at: NOW - 60, saved: false, tried: false },
        ],
    };
    let html = onboarding_page(&o, NOW);
    assert!(html.contains("&lt;Ann&gt;"));
    assert!(html.contains("<span class=\"fdrop\">-40%</span>"));
    assert!(html.contains("<span class=\"fdrop\">-50%</span>"));
    assert_eq!(html.matches("fdrop").count(), 2);
    assert!(html.contains("ob-stage-cold") && html.contains("Just signed up"));
    assert!(html.contains("Showing the 3 most recent of 7."));
    let nobody = Onboarding {
        signed_up: stage(0, 0, 0),
        saved: stage(0, 0, 0),
        tried: stage(0, 0, 0),
        pasted: stage(0, 0, 0),
        activation_pct: 0,
        awaiting: 0,
        new_this_week: 0,
        nudge: vec![],
    };
    assert!(onboarding_page(&nobody, NOW).ends_with("<p class=\"muted\">No users yet.</p>"));
}

#[test]
fn sign_in_offers_what_is_configured() {
    assert_eq!(render_dashboard_sso_buttons(&site(false, None), "/x"), "");
    let both = configured_dashboard_sso(&site(true, Some(None)));
    let got: Vec<(String, String)> = both.into_iter().map(|p| (p.id, p.label)).collect();
    assert_eq!(
        got,
        vec![
            ("google".to_string(), "Sign in with Google".to_string()),
            ("keycloak".to_string(), "Sign in with Keycloak".to_string())
        ]
    );
    let named = configured_dashboard_sso(&site(false, Some(Some("Company login"))));
    assert_eq!(named[0].label, "Company login");
    let html = render_dashboard_sso_buttons(&site(true, None), "/dashboard/library?a=b&c=d");
    assert!(html.contains("Sign in with Google") && html.contains("start?redirect_to=/dashboard/library?a=b&amp;c=d\""));
    assert!(strip_sso_divider(&html).len() < html.len());
    let q = IndexQuery { expired: None, error: Some("<bad>".into()), redirect_to: None };
    let page = sign_in_page("{{BRAND_NAME}}|{{ERROR_BANNER}}", &site(true, None), &q);
    assert!(page.starts_with("Acme &lt;Desk&gt;|"));
    assert!(!page.contains("<bad>"));
    let setup = render_setup_page("{{BRAND_NAME}}", &site(false, None), Some("x"), false);
    assert_eq!(setup, "Acme &lt;Desk&gt;");
}

#[test]
fn the_front_page_depends_on_who_is_there() {
    assert!(matches!(index(Some(0), false), FrontPage::Setup));
    assert!(matches!(index(Some(3), true), FrontPage::Home));
    assert!(matches!(index(Some(3), false), FrontPage::SignIn));
}

#[test]
fn signing_in_needs_an_active_account_and_its_password() {
    let hash = snipdesk::auth::hash_password("correct horse").unwrap();
    let form = |password: &str| LoginForm {
        email: "a@b".into(),
        password: password.into(),
        redirect_to: Some("/dashboard/library".into()),
    };
    let account = |role: &str, disabled: i64| {
        Some(LoginRow { id: "u1".into(), role: role.into(), password_hash: Some(hash.clone()), is_disabled: disabled })
    };
    match login_submit(&form("correct horse"), account("admin", 0), true, "secret", true) {
        SignIn::Welcome { user_id, cookie, next } => {
            assert_eq!((user_id.as_str(), next.as_str()), ("u1", "/dashboard/library"));
            assert!(cookie.secure && cookie.http_only);
            assert_eq!(snipdesk::auth::verify_token(&cookie.value, "secret").unwrap().sub, "u1");
        }
        SignIn::Refused(m) => panic!("{m}"),
    }
    let refused = |s: SignIn| matches!(s, SignIn::Refused(_));
    assert!(refused(login_submit(&form("wrong"), account("admin", 0), true, "secret", true)));
    assert!(refused(login_submit(&form("correct horse"), account("admin", 1), true, "secret", true)));
    assert!(refused(login_submit(&form("correct horse"), None, true, "secret", true)));
    assert!(refused(login_submit(&form("correct horse"), account("admin", 0), false, "secret", true)));
}

#[test]
fn the_first_account_is_checked() {
    let form = |name: &str, password: &str| SetupForm {
        display_name: name.into(),
        email: " Ann@B ".into(),
        password: password.into(),
    };
    let a = check_setup(&form(" Ann ", "0123456789"), true, true).unwrap();
    assert_eq!((a.email.as_str(), a.display_name.as_str()), ("ann@b", "Ann"));
    assert!(check_setup(&form("Ann", "0123456789"), false, true).is_err());
    assert!(check_setup(&form("Ann", "0123456789"), true, false).is_err());
    assert!(check_setup(&form(" ", "0123456789"), true, true).is_err());
    assert!(check_setup(&form("Ann", "short"), true, true).is_err());
    assert!(setup_landed(0).is_some());
    assert!(setup_landed(1).is_none());
    let made = setup_submit(&form("Ann", "0123456789"), true, true).unwrap();
    assert_eq!(made.event.actor_id.as_deref(), Some(made.id.as_str()));
    assert!(snipdesk::auth::verify_password_constant_time("0123456789", Some(&made.password_hash)));
    assert_eq!(told(made.event), "Created <strong>ann@b</strong> as admin via first-run setup");
    assert_eq!(setup_submit(&form("Ann", "short"), true, true).unwrap_err(), "/?error=setup_password");
    match setup_welcome("u1", "secret", false) {
        SignIn::Welcome { user_id, cookie, next } => {
            assert_eq!((user_id.as_str(), next.as_str(), cookie.secure), ("u1", "/dashboard/users", false));
            assert_eq!(snipdesk::auth::verify_token(&cookie.value, "secret").unwrap().role, "admin");
        }
        SignIn::Refused(to) => panic!("{to}"),
    }
}

#[test]
fn audit_entries_read_as_sentences() {
    assert_eq!(capitalize("\u{df}x"), "SSx");
    assert_eq!(capitalize(""), "");
    assert_eq!(
        humanize_audit_action("library.folder.move"),
        "<span title=\"library.folder.move\">Library folder.move</span>"
    );
    let details = |action: &str, json: &str| humanize_audit_details(action, Some(json));
    assert_eq!(humanize_audit_details("user.create", None), "<span class=\"muted\">-</span>");
    assert_eq!(details("user.create", "not <json>"), "<code>not &lt;json&gt;</code>");
    assert_eq!(
        details("user.create", "{\"email\":\"a@b\",\"role\":\"admin\",\"via\":\"oidc\",\"provider\":\"google\"}"),
        "Created <strong>a@b</strong> as admin via SSO (google)"
    );
    assert_eq!(
        details("user.update", "{\"is_disabled\":{\"from\":false,\"to\":true},\"password_reset\":true}"),
        "Status active &rarr; <strong>disabled</strong>, password reset"
    );
    assert_eq!(details("user.update", "{}"), "<span class=\"muted\">no fields changed</span>");
    assert_eq!(details("user.delete", "{\"email\":\"a@b\"}"), "Deleted <strong>a@b</strong>");
    assert_eq!(
        details("library.create", "{\"title\":\"T\",\"folder_path\":\"F\"}"),
        "Created \"<strong>T</strong>\" in <em>F</em>"
    );
    assert_eq!(details("library.delete", "{\"folder_path\":\"F\"}"), "Deleted library snippet");
    assert_eq!(
        details("library.export", "{\"count\":1,\"format\":\"csv\",\"scope\":{\"folder\":\"__unfiled__\"}}"),
        "Exported <strong>1</strong> snippet as CSV (unfiled snippets)"
    );
    assert_eq!(
        details("library.import", "{\"imported\":2,\"skipped\":1}"),
        "Imported <strong>2</strong> snippets, skipped 1 duplicate"
    );
    assert_eq!(
        details("library.folder.move", "{\"from\":\"A\",\"to\":\"\",\"snippets_moved\":1}"),
        "Moved folder <strong>A</strong> to <em>(root)</em> (1 snippet)"
    );
    assert_eq!(
        details("library.folder.delete", "{\"path\":\"A\",\"mode\":\"move\",\"count\":3}"),
        "Deleted folder <strong>A</strong>; moved 3 snippets to Unfiled"
    );
    let j = object(vec![("email", text("x@y"))]);
    assert_eq!(details_of_json("user.delete", &j, ""), "Deleted <strong>x@y</strong>");
}

#[test]
fn audit_targets_link_to_their_pages() {
    let users = vec![KnownUser { id: "u1".into(), name: "Ann".into(), email: "a@b".into() }];
    let snippets = vec![
        KnownSnippet { id: "s1".into(), folder: Some("A/B".into()), deleted: false },
        KnownSnippet { id: "s2".into(), folder: None, deleted: true },
    ];
    let target = |kind: &str, id: &str| {
        humanize_audit_target(&Some(kind.to_string()), &Some(id.to_string()), &users, &snippets)
    };
    assert_eq!(user_target_label(&users, "u1"), "Ann &lt;a@b&gt;");
    assert_eq!(target("user", "u1"), "<a href=\"/dashboard/users/u1\">Ann &lt;a@b&gt;</a>");
    assert_eq!(target("user", "zz"), "<a href=\"/dashboard/users/zz\">user zz</a>");
    assert_eq!(
        target("library", "s1"),
        "<a href=\"/dashboard/library?folder=A%2FB#lib-s1\" title=\"library snippet s1\">library snippet</a>"
    );
    assert!(target("library", "s2").contains("(deleted)"));
    assert_eq!(
        target("folder", "A/B"),
        "<a href=\"/dashboard/library?folder=A%2FB\">folder <em>A/B</em></a>"
    );
    assert_eq!(target("folder", ""), "<span class=\"muted\">-</span>");
    assert_eq!(target("other", "x"), "other:x");
    assert_eq!(humanize_audit_target(&None, &None, &users, &snippets), "<span class=\"muted\">-</span>");
}

#[test]
fn a_difference_goes_line_by_line() {
    let kinds: Vec<(char, String)> = line_diff("a\nb\nc", "a\nx\nc")
        .into_iter()
        .map(|(k, t)| {
            let mark = match k {
                DiffKind::Same => ' ',
                DiffKind::Add => '+',
                DiffKind::Del => '-',
            };
            (mark, t)
        })
        .collect();
    assert_eq!(
        kinds,
        vec![(' ', "a".to_string()), ('+', "x".to_string()), ('-', "b".to_string()), (' ', "c".to_string())]
    );
    assert_eq!(render_diff_field("Title", "same", "same"), None);
    assert_eq!(
        render_diff_field("T", "a", "<b>").unwrap(),
        "<div class=\"diff-field\"><div class=\"diff-field-label\">T</div><pre class=\"diff-block\">\
         <span class=\"diff-line diff-line-add\"><span class=\"diff-marker\">+</span>&lt;b&gt;</span>\n\
         <span class=\"diff-line diff-line-del\"><span class=\"diff-marker\">-</span>a</span>\n\
         </pre></div>"
    );
    let side = |title: &str| object(vec![("title", text(title)), ("body", text("B"))]);
    let changed = object(vec![("before", side("a")), ("after", side("b"))]);
    assert!(render_library_update_diff(&changed).unwrap().contains("Title"));
    let same = object(vec![("before", side("a")), ("after", side("a"))]);
    assert!(render_library_update_diff(&same).is_none());
    assert!(render_library_update_diff(&object(vec![])).is_none());
}

#[test]
fn audit_pages_turn() {
    assert_eq!(audit_page_size(None), 25);
    assert_eq!(audit_page_size(Some(100)), 100);
    assert_eq!(audit_page_size(Some(7)), 25);
    assert_eq!(total_pages(0, 25), 1);
    assert_eq!(total_pages(26, 25), 2);
    assert_eq!(total_pages(25, 25), 1);
    let query = |page: i64| AuditPageQuery {
        page: Some(page),
        per_page: None,
        q: Some("  find ".into()),
        action: None,
        actor: Some("u1".into()),
        since: Some(7),
    };
    let v: AuditView = audit_view(&query(3));
    assert_eq!((v.page, v.per_page, v.offset()), (3, 25, 75));
    let f = filter_of_view(&v, NOW);
    assert_eq!(f.since_ts, Some(NOW - 7 * 86_400));
    assert_eq!(f.actor_id.as_deref(), Some("u1"));
    assert_eq!(audit_view(&query(-4)).page, 0);
    assert_eq!(audit_view(&query(201)).page, 200);
    assert_eq!(audit_filter_query(&None, &None, &None, None), "");
    assert!(audit_filter_query(&Some("a b".into()), &None, &None, Some(7)).contains("q=a%20b"));
    assert_eq!(users_by_id_query(0), None);
    assert!(users_by_id_query(2).unwrap().contains("(?,?)") || users_by_id_query(2).unwrap().contains("?2"));
    assert!(snippets_by_id_query(1).is_some());
    let entry = AuditRow {
        id: 1,
        at: NOW - 60,
        actor_id: Some("u1".into()),
        actor_email: "<a@b>".into(),
        action: "user.delete".into(),
        target_kind: Some("user".into()),
        target_id: Some("u2".into()),
        details: Some("{\"email\":\"x@y\"}".into()),
    };
    let rows = vec![entry];
    assert_eq!(target_ids(&rows, "user"), texts(&["u2"]));
    assert!(target_ids(&rows, "library").is_empty());
    let known = Known {
        users: vec![KnownUser { id: "u2".into(), name: "Bob".into(), email: "b@c".into() }],
        snippets: vec![],
    };
    let actors = vec![Actor { id: "u1".into(), email: "a@b".into() }];
    let html = audit_page(&v, 60, &rows, &actors, &known, NOW);
    for part in ["&lt;a@b&gt;", "Bob &lt;b@c&gt;", "Deleted <strong>x@y</strong>", "User delete"] {
        assert!(html.contains(part), "{part} is missing");
    }
}
