//! The library page.
use crate::dashboard::cards::{
    render_library_cards_inner,
    render_library_editor,
    EDITOR_PLACEHOLDER,
};
use crate::dashboard::folder_tree::{render_library_folder_tree, FolderRow};
use crate::dashboard::forms::LibraryPageQuery;
use crate::dashboard::layout::text_or_empty;
use crate::decimal::count_text;
use crate::html::escape_html;
use crate::library::{library_selected_folder, library_visible_rows, LibraryRow};
use vstd::prelude::*;

verus! {

use crate::dashboard::cards::{cards_html, editor};
use crate::dashboard::folder_tree::tree_html;
use crate::dashboard::layout::or_empty;
use crate::decimal::decimal;
use crate::html::escaped;
use crate::library::{selected_folder, visible_rows};
use crate::text::opt_view;

/// The ending of a plural.
pub open spec fn plural(n: usize) -> Seq<char> {
    if n == 1 {
        ""@
    } else {
        "s"@
    }
}

fn plural_text(n: usize) -> (r: &'static str)
    ensures
        r@ == plural(n),
{
    if n == 1 {
        ""
    } else {
        "s"
    }
}

/// That some snippets were skipped.
pub open spec fn skipped_html(n: usize) -> Seq<char> {
    ", skipped "@
        + decimal(n as nat)
        + " (duplicates or errors)"@
}

/// That some snippets were skipped.
fn skipped_text(n: usize) -> (r: String)
    ensures
        r@ == skipped_html(n),
{
    let n_n = count_text(n);
    let mut out: String = ", skipped ".to_owned();
    out.push_str(n_n.as_str());
    out.push_str(" (duplicates or errors)");
    out
}

/// That some snippets were skipped; nothing where none were.
pub open spec fn skipped_note(n: usize) -> Seq<char> {
    if n > 0 {
        skipped_html(n)
    } else {
        Seq::empty()
    }
}

/// That some snippets were skipped; nothing where none were.
fn skipped_or_none(n: usize) -> (r: String)
    ensures
        r@ == skipped_note(n),
{
    if n > 0 {
        skipped_text(n)
    } else {
        let r: String = String::new();
        assert(r@ =~= Seq::<char>::empty());
        r
    }
}

/// How an import went, from its parts.
pub open spec fn imported_html(
    class: Seq<char>,
    n: usize,
    plural: Seq<char>,
    note: Seq<char>,
) -> Seq<char> {
    "<div class=\"banner "@
        + class
        + " banner-flash\">Imported "@
        + decimal(n as nat)
        + " snippet"@
        + plural
        + note
        + ".</div>"@
}

/// How an import went, from its parts.
fn imported_text(class: &str, n: usize, plural: &str, note: &str) -> (r: String)
    ensures
        r@ == imported_html(class@, n, plural@, note@),
{
    let n_n = count_text(n);
    let mut out: String = "<div class=\"banner ".to_owned();
    out.push_str(class);
    out.push_str(" banner-flash\">Imported ");
    out.push_str(n_n.as_str());
    out.push_str(" snippet");
    out.push_str(plural);
    out.push_str(note);
    out.push_str(".</div>");
    out
}

/// How an import went; nothing where there was none.
pub open spec fn import_banner(q: LibraryPageQuery) -> Seq<char> {
    match q.imported {
        Some(n) => imported_html(
            if n > 0 {
                "info"@
            } else {
                "error"@
            },
            n,
            plural(n),
            skipped_note(
                match q.skipped {
                    Some(s) => s,
                    None => 0,
                },
            ),
        ),
        None => Seq::empty(),
    }
}

fn import_banner_text(q: &LibraryPageQuery) -> (r: String)
    ensures
        r@ == import_banner(*q),
{
    match q.imported {
        Some(n) => {
            let skipped: usize = match q.skipped {
                Some(s) => s,
                None => 0,
            };
            let note = skipped_or_none(skipped);
            imported_text(
                if n > 0 {
                    "info"
                } else {
                    "error"
                },
                n,
                plural_text(n),
                note.as_str(),
            )
        },
        None => {
            let e: String = String::new();
            assert(e@ =~= Seq::<char>::empty());
            e
        },
    }
}

/// That the snippets of a folder went with it.
pub open spec fn deleted_too_html(n: usize, plural: Seq<char>) -> Seq<char> {
    " and its "@
        + decimal(n as nat)
        + " snippet"@
        + plural
        + " (recoverable from each client's trash until purge)"@
}

/// That the snippets of a folder went with it.
fn deleted_too_text(n: usize, plural: &str) -> (r: String)
    ensures
        r@ == deleted_too_html(n, plural@),
{
    let n_n = count_text(n);
    let mut out: String = " and its ".to_owned();
    out.push_str(n_n.as_str());
    out.push_str(" snippet");
    out.push_str(plural);
    out.push_str(" (recoverable from each client's trash until purge)");
    out
}

/// That the snippets of a folder were moved.
pub open spec fn moved_html(n: usize, plural: Seq<char>) -> Seq<char> {
    "; moved "@
        + decimal(n as nat)
        + " snippet"@
        + plural
        + " to Unfiled"@
}

/// That the snippets of a folder were moved.
fn moved_text(n: usize, plural: &str) -> (r: String)
    ensures
        r@ == moved_html(n, plural@),
{
    let n_n = count_text(n);
    let mut out: String = "; moved ".to_owned();
    out.push_str(n_n.as_str());
    out.push_str(" snippet");
    out.push_str(plural);
    out.push_str(" to Unfiled");
    out
}

/// What became of the snippets of a deleted folder.
pub open spec fn folder_outcome(q: LibraryPageQuery) -> Seq<char> {
    match q.deleted {
        Some(n) => deleted_too_html(n, plural(n)),
        None => match q.moved {
            Some(n) => if n > 0 {
                moved_html(n, plural(n))
            } else {
                Seq::empty()
            },
            None => Seq::empty(),
        },
    }
}

fn folder_outcome_text(q: &LibraryPageQuery) -> (r: String)
    ensures
        r@ == folder_outcome(*q),
{
    if let Some(n) = q.deleted {
        return deleted_too_text(n, plural_text(n));
    }
    if let Some(n) = q.moved {
        if n > 0 {
            return moved_text(n, plural_text(n));
        }
    }
    let e: String = String::new();
    assert(e@ =~= Seq::<char>::empty());
    e
}

/// That a folder was deleted, from its parts.
pub open spec fn folder_gone_html(folder: Seq<char>, outcome: Seq<char>) -> Seq<char> {
    "<div class=\"banner info banner-flash\">Deleted folder <em>"@
        + escaped(folder)
        + "</em>"@
        + outcome
        + ".</div>"@
}

/// That a folder was deleted, from its parts.
fn folder_gone_text(folder: &str, outcome: &str) -> (r: String)
    ensures
        r@ == folder_gone_html(folder@, outcome@),
{
    let folder_e = escape_html(folder);
    let mut out: String = "<div class=\"banner info banner-flash\">Deleted folder <em>".to_owned();
    out.push_str(folder_e.as_str());
    out.push_str("</em>");
    out.push_str(outcome);
    out.push_str(".</div>");
    out
}

/// That a folder was deleted; nothing where none was.
pub open spec fn folder_banner(q: LibraryPageQuery) -> Seq<char> {
    match q.folder_deleted {
        Some(f) => if f@.len() == 0 {
            Seq::empty()
        } else {
            folder_gone_html(f@, folder_outcome(q))
        },
        None => Seq::empty(),
    }
}

fn folder_banner_text(q: &LibraryPageQuery) -> (r: String)
    ensures
        r@ == folder_banner(*q),
{
    if let Some(f) = &q.folder_deleted {
        if f.as_str().unicode_len() > 0 {
            let o = folder_outcome_text(q);
            return folder_gone_text(f.as_str(), o.as_str());
        }
    }
    let e: String = String::new();
    assert(e@ =~= Seq::<char>::empty());
    e
}

/// The editor as the page opens: the first snippet of the view, if there is one.
pub open spec fn first_editor(l: Seq<LibraryRow>, now: i64) -> Seq<char> {
    if l.len() == 0 {
        EDITOR_PLACEHOLDER@
    } else {
        editor(l[0], now)
    }
}

fn first_editor_text(l: &Vec<&LibraryRow>, now: i64) -> (r: String)
    ensures
        r@ == first_editor(l@.unref(), now),
{
    if l.len() == 0 {
        return EDITOR_PLACEHOLDER.to_owned();
    }
    assert(l@.unref()[0] == *l@[0]);
    render_library_editor(l[0], now)
}

/// The pane of the folders.
pub const SIDEBAR_OPEN: &'static str =
    "<div class=\"library-three-pane\"><aside class=\"library-sidebar tree-pane\" \
        id=\"library-sidebar\" hx-get=\"/dashboard/library/folders\" hx-trigger=\"every 10s \
        [document.querySelector('.lib-edit-form') === null], libraryChanged from:body, \
        refresh-now\" hx-swap=\"innerHTML\" hx-include=\"#library-folder-input\">";

/// The folder that is being viewed, for refreshes.
pub open spec fn folder_input(selected: Seq<char>) -> Seq<char> {
    "<input type=\"hidden\" id=\"library-folder-input\" name=\"folder\" value=\""@
        + escaped(selected)
        + "\" />"@
}

/// The folder that is being viewed, for refreshes.
fn folder_input_text(selected: &str) -> (r: String)
    ensures
        r@ == folder_input(selected@),
{
    let selected_e = escape_html(selected);
    let mut out: String = "<input type=\"hidden\" id=\"library-folder-input\" name=\"folder\" value=\"".to_owned();
    out.push_str(selected_e.as_str());
    out.push_str("\" />");
    out
}

/// The search field and the button for a new snippet.
pub open spec fn search_bar(q: Seq<char>) -> Seq<char> {
    "<div class=\"list-create\"><input type=\"search\" id=\"library-search-input\" \
            name=\"q\" value=\""@
        + escaped(q)
        + "\" placeholder=\"Search snippets...\" autocomplete=\"off\" \
            hx-get=\"/dashboard/library/cards\" hx-trigger=\"input changed delay:300ms, search\" \
            hx-target=\"#library-list\" hx-include=\"#library-folder-input\" hx-swap=\"innerHTML\" \
            /><button class=\"primary\" id=\"library-new-btn\" type=\"button\" title=\"New \
            snippet\" hx-get=\"/dashboard/library/new\" hx-target=\"#library-editor\" \
            hx-swap=\"innerHTML\" hx-include=\"#library-folder-input\">+</button></div>"@
}

/// The search field and the button for a new snippet.
fn search_bar_text(q: &str) -> (r: String)
    ensures
        r@ == search_bar(q@),
{
    let q_e = escape_html(q);
    let mut out: String = "<div class=\"list-create\"><input type=\"search\" id=\"library-search-input\" \
                name=\"q\" value=\"".to_owned();
    out.push_str(q_e.as_str());
    out.push_str("\" placeholder=\"Search snippets...\" autocomplete=\"off\" \
                hx-get=\"/dashboard/library/cards\" hx-trigger=\"input changed delay:300ms, \
                search\" hx-target=\"#library-list\" hx-include=\"#library-folder-input\" \
                hx-swap=\"innerHTML\" /><button class=\"primary\" id=\"library-new-btn\" \
                type=\"button\" title=\"New snippet\" hx-get=\"/dashboard/library/new\" \
                hx-target=\"#library-editor\" hx-swap=\"innerHTML\" \
                hx-include=\"#library-folder-input\">+</button></div>");
    out
}

/// The list, which refreshes itself.
pub const LIST_OPEN: &'static str =
    "<div class=\"library-list list\" id=\"library-list\" hx-get=\"/dashboard/library/cards\" \
        hx-trigger=\"every 5s [document.querySelector('.lib-edit-form') === null], libraryChanged \
        from:body, refresh-now\" hx-include=\"#library-folder-input,#library-search-input\" \
        hx-ext=\"morph\" hx-swap=\"morph:innerHTML\">";

/// The quick actions and the dialog.
pub const LIBRARY_FOOT: &'static str =
    "<div class=\"fab-dock\"><button class=\"fab\" id=\"library-export-btn\" type=\"button\" \
        title=\"Export the library to a file\" aria-label=\"Export\"><svg viewBox=\"0 0 24 24\" \
        width=\"20\" height=\"20\" fill=\"none\" stroke=\"currentColor\" stroke-width=\"2\" \
        stroke-linecap=\"round\" stroke-linejoin=\"round\"><path d=\"M21 15v4a2 2 0 0 1-2 2H5a2 2 \
        0 0 1-2-2v-4\"/><polyline points=\"7 9 12 4 17 9\"/><line x1=\"12\" y1=\"4\" x2=\"12\" \
        y2=\"16\"/></svg></button><button class=\"fab\" id=\"library-import-btn\" type=\"button\" \
        title=\"Import snippets from a file\" aria-label=\"Import\"><svg viewBox=\"0 0 24 24\" \
        width=\"20\" height=\"20\" fill=\"none\" stroke=\"currentColor\" stroke-width=\"2\" \
        stroke-linecap=\"round\" stroke-linejoin=\"round\"><path d=\"M21 15v4a2 2 0 0 1-2 2H5a2 2 \
        0 0 1-2-2v-4\"/><polyline points=\"7 10 12 15 17 10\"/><line x1=\"12\" y1=\"15\" x2=\"12\" \
        y2=\"3\"/></svg></button><input type=\"file\" id=\"library-import-file\" \
        accept=\".json,.csv\" hidden /></div><div id=\"library-modal\" class=\"dash-modal\" hidden>\
        <div class=\"dash-modal-card\"><button type=\"button\" class=\"dash-modal-close\" \
        id=\"library-modal-close\" aria-label=\"Close\">&#215;</button><div \
        id=\"library-modal-body\"></div></div></div>";

/// The content of the library page, as shown at `now`.
pub open spec fn library_html(
    rows: Seq<LibraryRow>,
    folders: Seq<FolderRow>,
    q: LibraryPageQuery,
    script: Seq<char>,
    now: i64,
) -> Seq<char> {
    let selected = selected_folder(opt_view(q.folder));
    let query = or_empty(opt_view(q.q));
    let shown = visible_rows(rows, selected, opt_view(q.q));
    import_banner(q)
        + folder_banner(q)
        + SIDEBAR_OPEN@
        + tree_html(rows, folders, selected)
        + "</aside><div class=\"library-main list-pane\">"@
        + folder_input(selected)
        + search_bar(query)
        + LIST_OPEN@
        + cards_html(shown, query, now)
        + "</div></div><div class=\"library-editor editor\" id=\"library-editor\">"@
        + first_editor(shown, now)
        + "</div></div>"@
        + LIBRARY_FOOT@
        + script
}

/// The content of the library page, as shown at `now`: what the last import or
/// deletion did, the folders, the list of the view and the editor.
pub fn library_page(
    rows: &[LibraryRow],
    folders: &Vec<FolderRow>,
    q: &LibraryPageQuery,
    script: &str,
    now: i64,
) -> (r: String)
    ensures
        r@ == library_html(rows@, folders@, *q, script@, now),
{
    let selected = library_selected_folder(&q.folder);
    let query = text_or_empty(&q.q);
    let shown = library_visible_rows(rows, selected.as_str(), &q.q);
    let folder_note = folder_banner_text(q);
    let tree = render_library_folder_tree(rows, folders, selected.as_str());
    let hidden = folder_input_text(selected.as_str());
    let search = search_bar_text(query);
    let list = render_library_cards_inner(&shown, query, now);
    let first = first_editor_text(&shown, now);
    let mut out: String = import_banner_text(q);
    out.push_str(folder_note.as_str());
    out.push_str(SIDEBAR_OPEN);
    out.push_str(tree.as_str());
    out.push_str("</aside><div class=\"library-main list-pane\">");
    out.push_str(hidden.as_str());
    out.push_str(search.as_str());
    out.push_str(LIST_OPEN);
    out.push_str(list.as_str());
    out.push_str("</div></div><div class=\"library-editor editor\" id=\"library-editor\">");
    out.push_str(first.as_str());
    out.push_str("</div></div>");
    out.push_str(LIBRARY_FOOT);
    out.push_str(script);
    out
}

/// The list of a view, as it refreshes itself.
pub fn library_cards(rows: &[LibraryRow], q: &LibraryPageQuery, now: i64) -> (r: String)
    ensures
        r@ == cards_html(
            visible_rows(rows@, selected_folder(opt_view(q.folder)), opt_view(q.q)),
            or_empty(opt_view(q.q)),
            now,
        ),
{
    let selected = library_selected_folder(&q.folder);
    let shown = library_visible_rows(rows, selected.as_str(), &q.q);
    render_library_cards_inner(&shown, text_or_empty(&q.q), now)
}

/// The folders, as they refresh themselves.
pub fn library_folders(
    rows: &[LibraryRow],
    folders: &Vec<FolderRow>,
    q: &LibraryPageQuery,
) -> (r: String)
    ensures
        r@ == tree_html(rows@, folders@, selected_folder(opt_view(q.folder))),
{
    let selected = library_selected_folder(&q.folder);
    render_library_folder_tree(rows, folders, selected.as_str())
}

} // verus!
