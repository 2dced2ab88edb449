//! Moving library snippets in and out as files.
use crate::audit::action::{LIBRARY_EXPORT, LIBRARY_IMPORT};
use crate::audit::{event_of, Actor, AuditEvent, Detail};
use crate::clock::utc_date_stamp;
use crate::csv::{export_csv, trim_or_none, ImportFileEntry};
use crate::dashboard::library_forms::CreateRequest;
use crate::dashboard::selection_tree::{render_selection_tree, TreeItem};
use crate::db::key_of_title;
use crate::decimal::count_text;
use crate::entries::entries_text;
use crate::html::escape_html;
use crate::ident::new_uuid;
use crate::json::{read_numbers, read_texts};
use crate::library::{filter_library_query, filter_library_rows, LibraryRow};
use crate::tags::decode_tags;
use crate::text::{copy_text, copy_texts, is_one_of, push_text, same_text};
use crate::trim::trim;
use vstd::prelude::*;

verus! {

use crate::audit::{detail_views, event_by, DetailView};
use crate::csv::{
    entry_views,
    exported,
    exported_entries,
    law_export_reads_back,
    looks_like_json,
    parsed_csv,
    trimmed_or_none,
    without_bom,
    EntryView,
};
use crate::dashboard::layout::or_empty;
use crate::dashboard::selection_tree::selection_tree;
use crate::db::title_key;
use crate::decimal::decimal;
use crate::entries::{json_entries, law_written_entries_read_back, writes_entries};
use crate::html::escaped;
use crate::ident::uuid_form;
use crate::json::{numbers_of_json, texts_of_json};
use crate::library::{
    folder_of,
    lemma_filter_none,
    lemma_filter_take_succ,
    rows_found,
    rows_in_view,
};
use crate::tags::decoded_tags;
use crate::text::{lowercase_text, opt_view, views};
use crate::trim::{lemma_trimmed, trimmed, trimmed_start};

/// A snippet in an exported file.
#[derive(Debug)]
pub struct ExportEntry {
    pub title: String,
    pub body: String,
    pub tags: Vec<String>,
    pub folder_path: Option<String>,
}

/// What an exported snippet holds.
pub open spec fn export_view(e: ExportEntry) -> EntryView {
    EntryView {
        title: e.title@,
        body: e.body@,
        tags: views(e.tags@),
        folder_path: opt_view(e.folder_path),
    }
}

/// What exported snippets hold.
pub open spec fn export_views(l: Seq<ExportEntry>) -> Seq<EntryView> {
    Seq::new(l.len(), |i: int| export_view(l[i]))
}

/// A library snippet as it is exported.
pub open spec fn exported_row(r: LibraryRow) -> EntryView {
    EntryView {
        title: r.title@,
        body: r.body@,
        tags: decoded_tags(r.tags@),
        folder_path: if folder_of(r).len() == 0 {
            None
        } else {
            Some(folder_of(r))
        },
    }
}

/// Library snippets as they are exported.
pub open spec fn exported_rows(l: Seq<LibraryRow>) -> Seq<EntryView> {
    Seq::new(l.len(), |i: int| exported_row(l[i]))
}

fn export_entries(rows: &Vec<&LibraryRow>) -> (r: Vec<ExportEntry>)
    ensures
        export_views(r@) == exported_rows(rows@.unref()),
{
    let n: usize = rows.len();
    let mut out: Vec<ExportEntry> = Vec::new();
    for i in 0..n
        invariant
            n == rows@.len(),
            export_views(out@) =~= exported_rows(rows@.unref()).take(i as int),
    {
        let row = rows[i];
        let folder_path = match &row.folder_path {
            Some(f) => if f.as_str().unicode_len() == 0 {
                None
            } else {
                Some(copy_text(f.as_str()))
            },
            None => None,
        };
        let e = ExportEntry {
            title: copy_text(row.title.as_str()),
            body: copy_text(row.body.as_str()),
            tags: decode_tags(row.tags.as_str()),
            folder_path,
        };
        let ghost before = out@;
        out.push(e);
        proof {
            assert(rows@.unref()[i as int] == *row);
            assert(export_view(e) =~= exported_row(*row));
            assert(export_views(out@) =~= export_views(before).push(export_view(e)));
            assert(exported_rows(rows@.unref()).take(i + 1) =~= exported_rows(rows@.unref()).take(
                i as int,
            ).push(exported_row(*row)));
        }
    }
    assert(exported_rows(rows@.unref()).take(n as int) =~= exported_rows(rows@.unref()));
    out
}

/// Whether a text is the JSON list of these snippets as they are exported.
pub open spec fn writes_rows(text: Seq<char>, rows: Seq<LibraryRow>) -> bool {
    text.len() > 0 && text[0] == '[' && writes_entries(text, exported_rows(rows))
}

/// A JSON export reads back: an uploaded file with its text is taken for JSON, and its
/// entries are the snippets as they were exported.
pub proof fn law_json_export_reads_back(text: Seq<char>, rows: Seq<LibraryRow>)
    requires
        writes_rows(text, rows),
    ensures
        looks_like_json(without_bom(text)),
        json_entries(without_bom(text)) == Some(exported_rows(rows)),
{
    assert(without_bom(text) == text);
    assert(trimmed_start(text) == text);
    law_written_entries_read_back(text, exported_rows(rows));
}

/// What an exported file holds.
pub enum ExportContents {
    Csv(String),
    Json(String),
}

/// An exported file.
pub struct ExportFile {
    pub content_type: &'static str,
    pub filename: String,
    pub contents: ExportContents,
}

/// The exported file of these snippets on a day. Every format but `csv` is JSON.
pub fn build_library_export_on(filtered: &Vec<&LibraryRow>, format: &str, date: &str) -> (r:
    ExportFile)
    ensures
        format@ == "csv"@ ==> {
            &&& r.content_type@ == "text/csv; charset=utf-8"@
            &&& r.filename@ == "library-"@ + date@ + ".csv"@
            &&& r.contents matches ExportContents::Csv(t) && t@ == exported(filtered@.unref())
        },
        format@ != "csv"@ ==> {
            &&& r.content_type@ == "application/json; charset=utf-8"@
            &&& r.filename@ == "library-"@ + date@ + ".json"@
            &&& r.contents matches ExportContents::Json(t) && writes_rows(t@, filtered@.unref())
        },
{
    let mut filename: String = "library-".to_owned();
    filename.push_str(date);
    if same_text(format, "csv") {
        filename.push_str(".csv");
        ExportFile {
            content_type: "text/csv; charset=utf-8",
            filename,
            contents: ExportContents::Csv(export_csv(filtered)),
        }
    } else {
        filename.push_str(".json");
        ExportFile {
            content_type: "application/json; charset=utf-8",
            filename,
            contents: ExportContents::Json(entries_text(&export_entries(filtered))),
        }
    }
}

/// Whether a file's contents are those of an export in this format.
pub open spec fn exports(c: ExportContents, rows: Seq<LibraryRow>, format: Seq<char>) -> bool {
    match c {
        ExportContents::Csv(t) => format == "csv"@ && t@ == exported(rows),
        ExportContents::Json(t) => format != "csv"@ && writes_rows(t@, rows),
    }
}

/// The kind of file that a format gives.
pub open spec fn type_of_export(format: Seq<char>) -> Seq<char> {
    if format == "csv"@ {
        "text/csv; charset=utf-8"@
    } else {
        "application/json; charset=utf-8"@
    }
}

/// The name of a file that was exported on a date.
pub open spec fn export_name(format: Seq<char>, date: Seq<char>) -> Seq<char> {
    if format == "csv"@ {
        "library-"@ + date + ".csv"@
    } else {
        "library-"@ + date + ".json"@
    }
}

/// Whether a file holds these snippets in a format, under the name of some date.
pub open spec fn is_export(r: ExportFile, rows: Seq<LibraryRow>, format: Seq<char>) -> bool {
    &&& exports(r.contents, rows, format)
    &&& r.content_type@ == type_of_export(format)
    &&& exists|date: Seq<char>| r.filename@ == #[trigger] export_name(format, date)
}

/// The exported file of these snippets, named after today.
pub fn build_library_export(filtered: &Vec<&LibraryRow>, format: &str) -> (r: ExportFile)
    ensures
        is_export(r, filtered@.unref(), format@),
{
    let date = utc_date_stamp();
    let r = build_library_export_on(filtered, format, date.as_str());
    assert(r.filename@ == export_name(format@, date@));
    r
}

/// What an export was narrowed by: a search and a folder, or a choice by hand.
#[derive(Debug)]
pub enum ExportScope {
    Filter { q: String, folder: String },
    Selection,
}

/// What the log keeps of a scope.
pub open spec fn scope_texts(s: ExportScope) -> Seq<(Seq<char>, Seq<char>)> {
    match s {
        ExportScope::Filter { q, folder } => seq![("folder"@, folder@), ("q"@, q@)],
        ExportScope::Selection => seq![("selection"@, "explicit"@)],
    }
}

/// What the log keeps of an export: how many snippets, never what they say.
pub open spec fn export_details(count: nat, format: Seq<char>, s: ExportScope) -> Seq<
    (Seq<char>, DetailView),
> {
    seq![
        ("count"@, DetailView::Count(count)),
        ("format"@, DetailView::Text(format)),
        ("scope"@, DetailView::Group(scope_texts(s))),
    ]
}

fn scope_group(s: &ExportScope) -> (r: Detail)
    ensures
        r@ == DetailView::Group(scope_texts(*s)),
{
    let mut g: Vec<(&'static str, String)> = Vec::new();
    match s {
        ExportScope::Filter { q, folder } => {
            g.push(("folder", copy_text(folder.as_str())));
            g.push(("q", copy_text(q.as_str())));
        },
        ExportScope::Selection => {
            g.push(("selection", "explicit".to_owned()));
        },
    }
    let r = Detail::Group(g);
    assert(r@ =~~= DetailView::Group(scope_texts(*s)));
    r
}

fn export_event(count: usize, format: &str, s: &ExportScope, actor: &Actor) -> (r: AuditEvent)
    ensures
        r@.wf(),
        r@ == event_by(
            *actor,
            LIBRARY_EXPORT@,
            "library"@,
            None,
            Some(export_details(count as nat, format@, *s)),
        ),
{
    let mut l: Vec<(&'static str, Detail)> = Vec::new();
    l.push(("count", Detail::Count(count)));
    l.push(("format", Detail::Text(copy_text(format))));
    l.push(("scope", scope_group(s)));
    proof {
        reveal_strlit("count");
        reveal_strlit("format");
        reveal_strlit("scope");
        reveal_strlit("q");
        reveal_strlit("folder");
        reveal_strlit("selection");
        assert("count"@[0] != "scope"@[0]);
        assert("format"@.len() == 6 && "count"@.len() == 5 && "scope"@.len() == 5);
        assert("q"@.len() == 1 && "folder"@.len() == 6);
        assert(detail_views(l@) =~= export_details(count as nat, format@, *s));
    }
    event_of(actor, LIBRARY_EXPORT, "library", None, Some(l))
}

/// Exports these snippets, and tells the log how many they were.
pub fn finish_library_export(
    filtered: &Vec<&LibraryRow>,
    format: &str,
    s: &ExportScope,
    actor: &Actor,
) -> (r: (ExportFile, AuditEvent))
    ensures
        is_export(r.0, filtered@.unref(), format@),
        r.1@.wf(),
        r.1@ == event_by(
            *actor,
            LIBRARY_EXPORT@,
            "library"@,
            None,
            Some(export_details(filtered@.len(), format@, *s)),
        ),
{
    let file = build_library_export(filtered, format);
    let event = export_event(filtered.len(), format, s, actor);
    (file, event)
}

/// The header that has a browser save the file.
pub fn content_disposition(filename: &str) -> (r: String)
    ensures
        r@ == "attachment; filename=\""@ + filename@ + "\""@,
{
    let mut s: String = "attachment; filename=\"".to_owned();
    s.push_str(filename);
    s.push_str("\"");
    s
}

/// The format that a request asks for; JSON where it asks for none.
pub fn export_format(format: &Option<String>) -> (r: String)
    ensures
        r@ == (match *format {
            Some(f) => f@,
            None => "json"@,
        }),
{
    match format {
        Some(f) => copy_text(f.as_str()),
        None => "json".to_owned(),
    }
}

/// The snippets of a view that hold what is searched for.
pub fn rows_for_export<'a>(rows: &'a [LibraryRow], selected: &str, q: &Option<String>) -> (r: Vec<
    &'a LibraryRow,
>)
    ensures
        r@.unref() == rows_found(rows_in_view(rows@, selected@), opt_view(*q)),
{
    filter_library_query(filter_library_rows(rows, selected), q)
}

/// The snippets with these ids, in the order of the library.
pub open spec fn rows_picked(rows: Seq<LibraryRow>, ids: Seq<Seq<char>>) -> Seq<LibraryRow> {
    rows.filter(|r: LibraryRow| ids.contains(r.id@))
}

/// The snippets with these ids, in the order of the library.
pub fn selected_rows<'a>(rows: &'a [LibraryRow], ids: &Vec<String>) -> (r: Vec<&'a LibraryRow>)
    ensures
        r@.unref() == rows_picked(rows@, views(ids@)),
{
    let n: usize = rows.len();
    let mut out: Vec<&'a LibraryRow> = Vec::new();
    let ghost p = |r: LibraryRow| views(ids@).contains(r.id@);
    assert(rows@.take(0).filter(p) =~= Seq::<LibraryRow>::empty()) by {
        reveal(Seq::filter);
        assert(rows@.take(0).len() == 0);
    }
    assert(out@.unref() =~= Seq::<LibraryRow>::empty());
    for i in 0..n
        invariant
            n == rows@.len(),
            p == (|r: LibraryRow| views(ids@).contains(r.id@)),
            out@.unref() == rows@.take(i as int).filter(p),
    {
        proof {
            lemma_filter_take_succ(rows@, p, i as int);
        }
        if is_one_of(rows[i].id.as_str(), ids) {
            let ghost before = out@;
            out.push(&rows[i]);
            assert(out@.unref() =~= before.unref().push(rows@[i as int]));
        }
    }
    assert(rows@.take(n as int) =~= rows@);
    out
}

/// The snippets whose ids a posted text lists, in the order of the library; none where the
/// text is no list of ids.
pub fn rows_selected<'a>(rows: &'a [LibraryRow], selected: &str) -> (r: Vec<&'a LibraryRow>)
    ensures
        r@.unref() == rows_picked(
            rows@,
            match texts_of_json(selected@) {
                Some(l) => l,
                None => Seq::empty(),
            },
        ),
{
    match read_texts(selected) {
        Some(ids) => selected_rows(rows, &ids),
        None => {
            let none: Vec<String> = Vec::new();
            assert(views(none@) =~= Seq::<Seq<char>>::empty());
            selected_rows(rows, &none)
        },
    }
}

/// The indices below `n`, in order.
pub fn indices_below(l: &Vec<usize>, n: usize) -> (r: Vec<usize>)
    ensures
        r@ == l@.filter(|i: usize| i < n),
{
    let m: usize = l.len();
    let mut out: Vec<usize> = Vec::new();
    let ghost p = |i: usize| i < n;
    proof {
        lemma_filter_none(l@, p);
    }
    for k in 0..m
        invariant
            m == l@.len(),
            p == (|i: usize| i < n),
            out@ == l@.take(k as int).filter(p),
    {
        proof {
            lemma_filter_take_succ(l@, p, k as int);
        }
        if l[k] < n {
            out.push(l[k]);
        }
    }
    assert(l@.take(m as int) =~= l@);
    out
}

/// The indices of `n` entries that a posted text lists, in order; none where the text is no
/// list of indices.
pub fn entries_selected(n: usize, selected: &str) -> (r: Vec<usize>)
    ensures
        r@ == (match numbers_of_json(selected@) {
            Some(l) => l.filter(|i: usize| i < n),
            None => Seq::empty(),
        }),
        forall|k: int| 0 <= k < r@.len() ==> #[trigger] r@[k] < n,
{
    match read_numbers(selected) {
        Some(l) => {
            let r = indices_below(&l, n);
            proof {
                let p = |i: usize| i < n;
                assert forall|k: int| 0 <= k < r@.len() implies #[trigger] r@[k] < n by {
                    l@.lemma_filter_pred(p, k);
                }
            }
            r
        },
        None => Vec::new(),
    }
}

/// What is said where there is nothing to export.
pub const EMPTY_LIBRARY: &'static str =
    "<div class=\"banner error\">The library is empty - nothing to export.</div>";

/// What is said where a file holds no snippets.
pub const EMPTY_FILE: &'static str =
    "<div class=\"banner error\">No snippets found in that file.</div>";

/// The dialog that picks snippets to export.
pub open spec fn export_dialog(tree: Seq<char>) -> Seq<char> {
    "<h2>Export the shared library</h2><p class=\"muted\">Everything starts selected. \
            Untick folders or snippets to leave them out, then pick a format.</p><div \
            class=\"imp-toolbar\"><label><input type=\"checkbox\" id=\"imp-master\" /> Select all\
            </label><input type=\"search\" id=\"imp-search\" placeholder=\"Filter by title\" \
            autocomplete=\"off\" /><span class=\"muted\" id=\"imp-count\"></span></div><div \
            id=\"imp-tree\">"@
        + tree
        + "</div><form method=\"post\" action=\"/dashboard/library/export\" class=\"imp-form\" \
            data-close-on-submit=\"1\"><input type=\"hidden\" name=\"selected\" /><div \
            class=\"imp-actions\"><button type=\"submit\" name=\"format\" value=\"json\" \
            class=\"primary imp-confirm\">Export JSON</button><button type=\"submit\" \
            name=\"format\" value=\"csv\" class=\"primary imp-confirm\">Export CSV</button></div>\
            </form>"@
}

/// The dialog that picks snippets to export.
fn export_dialog_text(tree: &str) -> (r: String)
    ensures
        r@ == export_dialog(tree@),
{
    let mut out: String = "<h2>Export the shared library</h2><p class=\"muted\">Everything starts selected. \
                Untick folders or snippets to leave them out, then pick a format.</p><div \
                class=\"imp-toolbar\"><label><input type=\"checkbox\" id=\"imp-master\" /> Select \
                all</label><input type=\"search\" id=\"imp-search\" placeholder=\"Filter by \
                title\" autocomplete=\"off\" /><span class=\"muted\" id=\"imp-count\"></span></div>\
                <div id=\"imp-tree\">".to_owned();
    out.push_str(tree);
    out.push_str("</div><form method=\"post\" action=\"/dashboard/library/export\" \
                class=\"imp-form\" data-close-on-submit=\"1\"><input type=\"hidden\" \
                name=\"selected\" /><div class=\"imp-actions\"><button type=\"submit\" \
                name=\"format\" value=\"json\" class=\"primary imp-confirm\">Export JSON</button>\
                <button type=\"submit\" name=\"format\" value=\"csv\" class=\"primary \
                imp-confirm\">Export CSV</button></div></form>");
    out
}

/// The dialog that picks snippets to import. The payload is what was read, as JSON.
pub open spec fn import_dialog(tree: Seq<char>, payload: Seq<char>) -> Seq<char> {
    "<h2>Import into the shared library</h2><p class=\"muted\">Everything new starts \
            selected; duplicates of existing library titles start deselected. Expand folders to \
            cherry-pick.</p><div class=\"imp-toolbar\"><label><input type=\"checkbox\" \
            id=\"imp-master\" /> Select all</label><input type=\"search\" id=\"imp-search\" \
            placeholder=\"Filter by title\" autocomplete=\"off\" /><span class=\"muted\" \
            id=\"imp-count\"></span></div><div id=\"imp-tree\">"@
        + tree
        + "</div><form method=\"post\" action=\"/dashboard/library/import\" class=\"imp-form\" \
            data-keys=\"numeric\"><input type=\"hidden\" name=\"payload\" value=\""@
        + escaped(payload)
        + "\" /><input type=\"hidden\" name=\"selected\" /><div class=\"imp-actions\"><button \
            type=\"submit\" class=\"primary imp-confirm\">Import selected</button></div></form>"@
}

/// The dialog that picks snippets to import. The payload is what was read, as JSON.
fn import_dialog_text(tree: &str, payload: &str) -> (r: String)
    ensures
        r@ == import_dialog(tree@, payload@),
{
    let payload_e = escape_html(payload);
    let mut out: String = "<h2>Import into the shared library</h2><p class=\"muted\">Everything new starts \
                selected; duplicates of existing library titles start deselected. Expand folders \
                to cherry-pick.</p><div class=\"imp-toolbar\"><label><input type=\"checkbox\" \
                id=\"imp-master\" /> Select all</label><input type=\"search\" id=\"imp-search\" \
                placeholder=\"Filter by title\" autocomplete=\"off\" /><span class=\"muted\" \
                id=\"imp-count\"></span></div><div id=\"imp-tree\">".to_owned();
    out.push_str(tree);
    out.push_str("</div><form method=\"post\" action=\"/dashboard/library/import\" \
                class=\"imp-form\" data-keys=\"numeric\"><input type=\"hidden\" name=\"payload\" \
                value=\"");
    out.push_str(payload_e.as_str());
    out.push_str("\" /><input type=\"hidden\" name=\"selected\" /><div class=\"imp-actions\"><button \
                type=\"submit\" class=\"primary imp-confirm\">Import selected</button></div></form>");
    out
}

/// A banner that tells of an error.
pub open spec fn error_banner(message: Seq<char>) -> Seq<char> {
    "<div class=\"banner error\">"@
        + escaped(message)
        + "</div>"@
}

/// A banner that tells of an error.
pub fn render_error_banner(message: &str) -> (r: String)
    ensures
        r@ == error_banner(message@),
{
    let message_e = escape_html(message);
    let mut out: String = "<div class=\"banner error\">".to_owned();
    out.push_str(message_e.as_str());
    out.push_str("</div>");
    out
}

/// Whether these are the snippets of the library, all of them picked.
pub open spec fn picks_all(items: Seq<TreeItem>, rows: Seq<LibraryRow>) -> bool {
    &&& items.len() == rows.len()
    &&& forall|i: int|
        0 <= i < items.len() ==> (#[trigger] items[i]).key@ == rows[i].id@ && items[i].title@
            == rows[i].title@ && items[i].folder@ == folder_of(rows[i]) && items[i].checked
            && !items[i].badge
}

/// What the export dialog picks from: every snippet, each picked to begin with.
pub fn export_items(rows: &[LibraryRow]) -> (r: Vec<TreeItem>)
    ensures
        picks_all(r@, rows@),
{
    let n: usize = rows.len();
    let mut items: Vec<TreeItem> = Vec::new();
    for i in 0..n
        invariant
            n == rows@.len(),
            picks_all(items@, rows@.take(i as int)),
    {
        let folder = match &rows[i].folder_path {
            Some(f) => copy_text(f.as_str()),
            None => String::new(),
        };
        assert(folder@ =~= folder_of(rows@[i as int]));
        items.push(
            TreeItem {
                key: copy_text(rows[i].id.as_str()),
                title: copy_text(rows[i].title.as_str()),
                folder,
                checked: true,
                badge: false,
            },
        );
    }
    assert(rows@.take(n as int) =~= rows@);
    items
}

/// The dialog that exports from the library.
pub fn library_export_picker(rows: &[LibraryRow]) -> (r: String)
    ensures
        rows@.len() == 0 ==> r@ == EMPTY_LIBRARY@,
        rows@.len() > 0 ==> exists|items: Seq<TreeItem>| #[trigger]
            picks_all(items, rows@) && r@ == export_dialog(selection_tree(items)),
{
    if rows.len() == 0 {
        return EMPTY_LIBRARY.to_owned();
    }
    let items: Vec<TreeItem> = export_items(rows);
    let tree = render_selection_tree(items.as_slice());
    assert(picks_all(items@, rows@));
    export_dialog_text(tree.as_str())
}

/// The keys of the library's titles.
pub open spec fn library_keys(rows: Seq<LibraryRow>) -> Seq<Seq<char>> {
    Seq::new(rows.len(), |i: int| title_key(rows[i].title@))
}

/// The keys of the library's titles.
pub fn keys_of_library(rows: &[LibraryRow]) -> (r: Vec<String>)
    ensures
        views(r@) == library_keys(rows@),
{
    let n: usize = rows.len();
    let mut out: Vec<String> = Vec::new();
    for i in 0..n
        invariant
            n == rows@.len(),
            views(out@) =~= library_keys(rows@).take(i as int),
    {
        let k = key_of_title(rows[i].title.as_str());
        push_text(&mut out, k);
        assert(library_keys(rows@).take(i + 1) =~= library_keys(rows@).take(i as int).push(
            library_keys(rows@)[i as int],
        ));
    }
    assert(library_keys(rows@).take(n as int) =~= library_keys(rows@));
    out
}

/// Whether these are the entries of a file, by number: duplicates of what is
/// there are marked and not picked, the others are picked.
pub open spec fn picks_new(
    items: Seq<TreeItem>,
    entries: Seq<EntryView>,
    keys: Seq<Seq<char>>,
) -> bool {
    &&& items.len() == entries.len()
    &&& forall|i: int|
        0 <= i < items.len() ==> {
            let dup = keys.contains(title_key(entries[i].title));
            (#[trigger] items[i]).key@ == decimal(i as nat) && items[i].title@ == entries[i].title
                && items[i].folder@ == or_empty(entries[i].folder_path) && items[i].checked == !dup
                && items[i].badge == dup
        }
}

/// What the import dialog picks from: the entries of the file, where duplicates of
/// what is there are marked and not picked to begin with.
pub fn import_items(entries: &Vec<ImportFileEntry>, keys: &Vec<String>) -> (r: Vec<TreeItem>)
    ensures
        picks_new(r@, entry_views(entries@), views(keys@)),
{
    let n: usize = entries.len();
    let mut items: Vec<TreeItem> = Vec::new();
    for i in 0..n
        invariant
            n == entries@.len(),
            picks_new(items@, entry_views(entries@).take(i as int), views(keys@)),
    {
        let e = &entries[i];
        let key = key_of_title(e.title.as_str());
        let dup = is_one_of(key.as_str(), keys);
        let folder = match &e.folder_path {
            Some(f) => copy_text(f.as_str()),
            None => String::new(),
        };
        assert(folder@ =~= or_empty(opt_view(e.folder_path)));
        items.push(
            TreeItem {
                key: count_text(i),
                title: copy_text(e.title.as_str()),
                folder,
                checked: !dup,
                badge: dup,
            },
        );
        assert(entry_views(entries@)[i as int] == e@);
    }
    assert(entry_views(entries@).take(n as int) =~= entry_views(entries@));
    items
}

/// The dialog that imports the entries of a file, or what is wrong with it. The
/// payload is the entries as JSON.
pub fn library_import_preview(
    read: Result<&Vec<ImportFileEntry>, &str>,
    keys: &Vec<String>,
    payload: &str,
) -> (r: String)
    ensures
        match read {
            Err(m) => r@ == error_banner(m@),
            Ok(l) => if l@.len() == 0 {
                r@ == EMPTY_FILE@
            } else {
                exists|items: Seq<TreeItem>| #[trigger]
                    picks_new(items, entry_views(l@), views(keys@)) && r@ == import_dialog(
                        selection_tree(items),
                        payload@,
                    )
            },
        },
{
    match read {
        Err(m) => render_error_banner(m),
        Ok(l) => {
            if l.len() == 0 {
                return EMPTY_FILE.to_owned();
            }
            let items: Vec<TreeItem> = import_items(l, keys);
            let tree = render_selection_tree(items.as_slice());
            assert(picks_new(items@, entry_views(l@), views(keys@)));
            import_dialog_text(tree.as_str(), payload)
        },
    }
}

/// What a library snippet is made of.
#[derive(Debug)]
pub struct LibraryPayload {
    pub title: String,
    pub body: String,
    pub tags: Vec<String>,
    pub folder_path: Option<String>,
}

/// What a payload holds.
pub open spec fn payload_view(p: LibraryPayload) -> EntryView {
    EntryView {
        title: p.title@,
        body: p.body@,
        tags: views(p.tags@),
        folder_path: opt_view(p.folder_path),
    }
}

/// What is created of an entry: its title and folder are trimmed, and a blank
/// folder is none.
pub open spec fn created_from(e: EntryView) -> EntryView {
    EntryView {
        title: trimmed(e.title),
        body: e.body,
        tags: e.tags,
        folder_path: match e.folder_path {
            Some(f) => trimmed_or_none(f),
            None => None,
        },
    }
}

/// How far an import has come: the keys of the titles that are there, and what
/// became of the entries so far.
#[derive(Debug)]
pub struct ImportRun {
    pub keys: Vec<String>,
    pub imported: usize,
    pub skipped: usize,
}

/// The start of an import.
pub fn start_import(keys: Vec<String>) -> (r: ImportRun)
    ensures
        r.keys@ == keys@,
        r.imported == 0,
        r.skipped == 0,
{
    ImportRun { keys, imported: 0, skipped: 0 }
}

/// What an entry is created as; none where its title is blank or there already.
pub open spec fn candidate(keys: Seq<Seq<char>>, e: EntryView) -> Option<EntryView> {
    let k = title_key(e.title);
    if k.len() == 0 || keys.contains(k) {
        None
    } else {
        Some(created_from(e))
    }
}

impl ImportRun {
    /// What the next entry is created as, under an id of its own; none where its title
    /// is blank or there already.
    pub fn next(&self, e: &ImportFileEntry) -> (r: Option<CreateRequest>)
        ensures
            match r {
                Some(c) => uuid_form(c.id@) && candidate(views(self.keys@), e@) == Some(
                    payload_view(c.payload),
                ),
                None => candidate(views(self.keys@), e@) is None,
            },
    {
        let key = key_of_title(e.title.as_str());
        if key.as_str().unicode_len() == 0 || is_one_of(key.as_str(), &self.keys) {
            return None;
        }
        let p = LibraryPayload {
            title: trim(e.title.as_str()),
            body: copy_text(e.body.as_str()),
            tags: copy_texts(&e.tags),
            folder_path: match &e.folder_path {
                Some(f) => trim_or_none(f.as_str()),
                None => None,
            },
        };
        assert(payload_view(p) =~= created_from(e@));
        Some(CreateRequest { id: new_uuid(), payload: p })
    }

    /// Notes what became of an entry. One that was created has its title there
    /// from now on.
    pub fn done(&mut self, e: &ImportFileEntry, created: bool)
        requires
            old(self).imported < usize::MAX,
            old(self).skipped < usize::MAX,
        ensures
            created ==> views(final(self).keys@) == views(old(self).keys@).push(title_key(e.title@))
                && final(self).imported == old(self).imported + 1 && final(self).skipped == old(
                self,
            ).skipped,
            !created ==> final(self).keys@ == old(self).keys@ && final(self).imported == old(
                self,
            ).imported && final(self).skipped == old(self).skipped + 1,
    {
        if created {
            let key = key_of_title(e.title.as_str());
            push_text(&mut self.keys, key);
            self.imported = self.imported + 1;
        } else {
            self.skipped = self.skipped + 1;
        }
    }
}

/// The keys that are there after these entries, where `took` tells which of the
/// attempts to create one succeeded.
pub open spec fn keys_after(
    keys: Seq<Seq<char>>,
    entries: Seq<EntryView>,
    took: spec_fn(int) -> bool,
) -> Seq<Seq<char>>
    decreases entries.len(),
{
    if entries.len() == 0 {
        keys
    } else {
        let before = keys_after(keys, entries.drop_last(), took);
        if candidate(before, entries.last()) is Some && took(entries.len() - 1) {
            before.push(title_key(entries.last().title))
        } else {
            before
        }
    }
}

/// However the attempts go, an import never creates a title that was there, nor
/// one title twice.
pub proof fn law_import_creates_no_duplicate(
    keys: Seq<Seq<char>>,
    entries: Seq<EntryView>,
    took: spec_fn(int) -> bool,
)
    ensures
        ({
            let after = keys_after(keys, entries, took);
            &&& after.len() >= keys.len()
            &&& after.take(keys.len() as int) == keys
            &&& forall|i: int, j: int|
                0 <= i < j && keys.len() <= j < after.len() ==> #[trigger] after[i]
                    != #[trigger] after[j]
            &&& forall|j: int| keys.len() <= j < after.len() ==> (#[trigger] after[j]).len() > 0
        }),
    decreases entries.len(),
{
    if entries.len() > 0 {
        law_import_creates_no_duplicate(keys, entries.drop_last(), took);
        let before = keys_after(keys, entries.drop_last(), took);
        let after = keys_after(keys, entries, took);
        assert(after.take(keys.len() as int) =~= before.take(keys.len() as int));
        assert forall|i: int, j: int|
            0 <= i < j && keys.len() <= j < after.len() implies #[trigger] after[i]
            != #[trigger] after[j] by {
            if j == before.len() {
                assert(before[i] == after[i]);
                assert(before.contains(before[i]));
            }
        }
    } else {
        assert(keys.take(keys.len() as int) =~= keys);
    }
}

/// Where the page goes on after an import.
pub fn import_landing(imported: usize, skipped: usize) -> (r: String)
    ensures
        r@ == "/dashboard/library?imported="@ + decimal(imported as nat) + "&skipped="@ + decimal(
            skipped as nat,
        ),
{
    let i = count_text(imported);
    let s = count_text(skipped);
    let mut out: String = "/dashboard/library?imported=".to_owned();
    out.push_str(i.as_str());
    out.push_str("&skipped=");
    out.push_str(s.as_str());
    out
}

/// What the log keeps of an import.
pub open spec fn import_details(imported: nat, skipped: nat) -> Seq<(Seq<char>, DetailView)> {
    seq![
        ("imported"@, DetailView::Count(imported)),
        ("skipped"@, DetailView::Count(skipped)),
    ]
}

impl ImportRun {
    /// What the log is told once every entry is done.
    pub fn event(&self, actor: &Actor) -> (r: AuditEvent)
        ensures
            r@.wf(),
            r@ == event_by(
                *actor,
                LIBRARY_IMPORT@,
                "library"@,
                None,
                Some(import_details(self.imported as nat, self.skipped as nat)),
            ),
    {
        let mut l: Vec<(&'static str, Detail)> = Vec::new();
        l.push(("imported", Detail::Count(self.imported)));
        l.push(("skipped", Detail::Count(self.skipped)));
        proof {
            reveal_strlit("imported");
            reveal_strlit("skipped");
            assert("imported"@.len() == 8 && "skipped"@.len() == 7);
            assert(detail_views(l@) =~= import_details(
                self.imported as nat,
                self.skipped as nat,
            ));
        }
        event_of(actor, LIBRARY_IMPORT, "library", None, Some(l))
    }
}

/// What is created of an entry with a title of its own: the title and the folder without
/// outer blanks, and the body and the tags as they are. An entry without a folder, or with a
/// blank one, lies in none.
pub proof fn law_entries_are_imported_whole(keys: Seq<Seq<char>>, e: EntryView)
    ensures
        candidate(keys, e) is Some <==> title_key(e.title).len() > 0 && !keys.contains(
            title_key(e.title),
        ),
        candidate(keys, e) matches Some(c) ==> {
            &&& c.title == trimmed(e.title)
            &&& c.body == e.body
            &&& c.tags == e.tags
            &&& e.folder_path is None ==> c.folder_path is None
            &&& e.folder_path matches Some(f) ==> (trimmed(f).len() == 0 ==> c.folder_path is None)
            &&& e.folder_path matches Some(f) ==> (trimmed(f).len() > 0 ==> c.folder_path == Some(
                trimmed(f),
            ))
        },
{
}

/// Whether the titles of rows are filled and differ, without regard to case and outer
/// blanks.
pub open spec fn distinct_titles(rows: Seq<LibraryRow>) -> bool {
    &&& forall|i: int| 0 <= i < rows.len() ==> title_key((#[trigger] rows[i]).title@).len() > 0
    &&& forall|i: int, j: int|
        0 <= i < j < rows.len() ==> title_key((#[trigger] rows[i]).title@) != title_key(
            (#[trigger] rows[j]).title@,
        )
}

/// Whether `e` is a row: the same title and folder without outer blanks, the same body, and
/// the same tags.
pub open spec fn is_row(e: EntryView, r: LibraryRow) -> bool {
    &&& e.title == trimmed(r.title@)
    &&& e.body == r.body@
    &&& e.tags == decoded_tags(r.tags@)
    &&& match r.folder_path {
        Some(f) => if trimmed(f@).len() == 0 {
            e.folder_path is None
        } else {
            e.folder_path == Some(trimmed(f@))
        },
        None => e.folder_path is None,
    }
}

proof fn lemma_blank_of_nothing()
    ensures
        trimmed(Seq::<char>::empty()) == Seq::<char>::empty(),
{
    crate::trim::lemma_empty_part();
    assert(trimmed_start(Seq::<char>::empty()) =~= Seq::<char>::empty());
    assert(crate::trim::trimmed_end(Seq::<char>::empty()) =~= Seq::<char>::empty());
}

/// Whether an entry is a row, with the folder as it stands or without outer blanks.
spec fn comes_from(e: EntryView, r: LibraryRow) -> bool {
    &&& e.title == r.title@
    &&& e.body == r.body@
    &&& e.tags == decoded_tags(r.tags@)
    &&& e.folder_path matches Some(f) ==> (trimmed(f) == trimmed(folder_of(r)))
    &&& e.folder_path is None ==> trimmed(folder_of(r)).len() == 0
}

proof fn lemma_row_is_created(keys: Seq<Seq<char>>, e: EntryView, r: LibraryRow)
    requires
        comes_from(e, r),
        title_key(r.title@).len() > 0,
        !keys.contains(title_key(r.title@)),
    ensures
        candidate(keys, e) matches Some(c) && is_row(c, r),
{
    lemma_blank_of_nothing();
    law_entries_are_imported_whole(keys, e);
}

/// Whether the entries of a file are these rows.
spec fn come_from(es: Seq<EntryView>, rows: Seq<LibraryRow>) -> bool {
    es.len() == rows.len() && forall|i: int|
        0 <= i < rows.len() ==> comes_from(#[trigger] es[i], rows[i])
}

proof fn lemma_keys_of_created(es: Seq<EntryView>, rows: Seq<LibraryRow>, n: int)
    requires
        come_from(es, rows),
        distinct_titles(rows),
        0 <= n <= rows.len(),
    ensures
        keys_after(Seq::empty(), es.take(n), |i: int| true) == library_keys(rows).take(n),
        n < rows.len() ==> !library_keys(rows).take(n).contains(title_key(rows[n].title@)),
    decreases n,
{
    let took = |i: int| true;
    let none = Seq::<Seq<char>>::empty();
    if n < rows.len() {
        let before = library_keys(rows).take(n);
        let k = title_key(rows[n].title@);
        if before.contains(k) {
            let i = choose|i: int| 0 <= i < before.len() && before[i] == k;
            assert(title_key(rows[i].title@) == k);
        }
    }
    if n == 0 {
        assert(es.take(0) =~= Seq::<EntryView>::empty());
        assert(library_keys(rows).take(0) =~= none);
    } else {
        lemma_keys_of_created(es, rows, n - 1);
        let t = es.take(n);
        assert(t.drop_last() =~= es.take(n - 1));
        assert(t.last() == es[n - 1]);
        let before = library_keys(rows).take(n - 1);
        let k = title_key(rows[n - 1].title@);
        lemma_row_is_created(before, es[n - 1], rows[n - 1]);
        assert(library_keys(rows).take(n) =~= before.push(k));
    }
}

proof fn lemma_created_again(es: Seq<EntryView>, rows: Seq<LibraryRow>, i: int)
    requires
        come_from(es, rows),
        distinct_titles(rows),
        0 <= i < rows.len(),
    ensures
        candidate(keys_after(Seq::empty(), es.take(i), |k: int| true), es[i]) matches Some(c)
            && is_row(c, rows[i]),
{
    lemma_keys_of_created(es, rows, i);
    lemma_row_is_created(library_keys(rows).take(i), es[i], rows[i]);
}

/// A library that is exported as JSON and imported into an empty one is there again: every
/// row is created, with its title, body, tags and folder.
pub proof fn law_json_export_imports_again(text: Seq<char>, rows: Seq<LibraryRow>, i: int)
    requires
        writes_rows(text, rows),
        distinct_titles(rows),
        0 <= i < rows.len(),
    ensures
        looks_like_json(without_bom(text)),
        json_entries(without_bom(text)) matches Some(es) && es.len() == rows.len() && (candidate(
            keys_after(Seq::empty(), es.take(i), |k: int| true),
            es[i],
        ) matches Some(c) && is_row(c, rows[i])),
{
    law_json_export_reads_back(text, rows);
    lemma_blank_of_nothing();
    let es = exported_rows(rows);
    assert forall|k: int| 0 <= k < rows.len() implies comes_from(#[trigger] es[k], rows[k]) by {
        if folder_of(rows[k]).len() == 0 {
            assert(folder_of(rows[k]) =~= Seq::<char>::empty());
        }
    }
    lemma_created_again(es, rows, i);
}

/// A library that is exported as CSV and imported into an empty one is there again: every
/// row is created, with its title, body, tags and folder. Rows with a semicolon in a tag are
/// left out of the statement.
pub proof fn law_csv_export_imports_again(rows: Seq<LibraryRow>, i: int)
    requires
        distinct_titles(rows),
        forall|k: int|
            0 <= k < rows.len() ==> trimmed((#[trigger] rows[k]).title@).len() > 0
                && !rows[k].tags@.contains(';'),
        0 <= i < rows.len(),
    ensures
        !looks_like_json(without_bom(exported(rows))),
        parsed_csv(without_bom(exported(rows))) matches Ok(es) && es.len() == rows.len() && (
        candidate(keys_after(Seq::empty(), es.take(i), |k: int| true), es[i]) matches Some(c)
            && is_row(c, rows[i])),
{
    law_export_reads_back(rows);
    lemma_entries_of_rows(rows);
    lemma_created_again(exported_entries(rows), rows, i);
}

proof fn lemma_entries_of_rows(rows: Seq<LibraryRow>)
    requires
        forall|k: int| 0 <= k < rows.len() ==> trimmed((#[trigger] rows[k]).title@).len() > 0,
    ensures
        come_from(exported_entries(rows), rows),
    decreases rows.len(),
{
    if rows.len() > 0 {
        let p = rows.drop_last();
        let r = rows.last();
        assert forall|k: int| 0 <= k < p.len() implies trimmed((#[trigger] p[k]).title@).len()
            > 0 by {
            assert(p[k] == rows[k]);
        }
        lemma_entries_of_rows(p);
        assert(rows[rows.len() - 1] == r);
        lemma_trimmed(folder_of(r));
        let es = exported_entries(rows);
        assert forall|k: int| 0 <= k < rows.len() implies comes_from(#[trigger] es[k], rows[k]) by {
            if k < p.len() {
                assert(es[k] == exported_entries(p)[k]);
                assert(p[k] == rows[k]);
            }
        }
    }
}

/// The rows that are picked by their ids keep their order, and no other row is among them.
pub proof fn law_rows_are_picked_by_id(rows: Seq<LibraryRow>, r: LibraryRow, ids: Seq<Seq<char>>)
    ensures
        rows_picked(Seq::empty(), ids).len() == 0,
        ids.contains(r.id@) ==> rows_picked(rows.push(r), ids) == rows_picked(rows, ids).push(r),
        !ids.contains(r.id@) ==> rows_picked(rows.push(r), ids) == rows_picked(rows, ids),
{
    reveal(Seq::filter);
    assert(rows.push(r).drop_last() =~= rows);
    assert(rows.push(r).last() == r);
}

/// In the dialog of an import what is new starts selected, and what has a title of the library
/// starts deselected and bears a badge. In that of an export everything starts selected.
pub proof fn law_dialogs_start_with_what_is_new(
    items: Seq<TreeItem>,
    entries: Seq<EntryView>,
    rows: Seq<LibraryRow>,
    i: int,
)
    requires
        0 <= i < items.len(),
    ensures
        picks_new(items, entries, library_keys(rows)) ==> {
            &&& items.len() == entries.len()
            &&& items[i].title@ == entries[i].title
            &&& items[i].checked <==> forall|j: int|
                0 <= j < rows.len() ==> lowercase_text(trimmed((#[trigger] rows[j]).title@))
                    != lowercase_text(trimmed(entries[i].title))
            &&& items[i].badge == !items[i].checked
        },
        picks_all(items, rows) ==> {
            &&& items.len() == rows.len()
            &&& items[i].key@ == rows[i].id@
            &&& items[i].title@ == rows[i].title@
            &&& items[i].checked
            &&& !items[i].badge
        },
{
    let keys = library_keys(rows);
    if picks_new(items, entries, keys) {
        let k = title_key(entries[i].title);
        assert(items[i].checked == !keys.contains(k));
        if keys.contains(k) {
            let j = choose|j: int| 0 <= j < keys.len() && keys[j] == k;
            assert(title_key(rows[j].title@) == k);
        }
        if exists|j: int|
            0 <= j < rows.len() && lowercase_text(trimmed((#[trigger] rows[j]).title@))
                == lowercase_text(trimmed(entries[i].title)) {
            let j = choose|j: int|
                0 <= j < rows.len() && lowercase_text(trimmed((#[trigger] rows[j]).title@))
                    == lowercase_text(trimmed(entries[i].title));
            assert(keys[j] == k);
        }
    }
}

} // verus!
