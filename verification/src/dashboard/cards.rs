//! The list of library snippets, and the editor beside it.
use crate::dashboard::ages::format_relative_at;
use crate::dashboard::layout::text_or_empty;
use crate::decimal::{format_thousands, i64_text};
use crate::highlight::highlight_matches;
use crate::html::escape_html;
use crate::library::{LibraryRow, FOLDER_ALL, FOLDER_UNFILED};
use crate::preview::render_body_with_vars;
use crate::tags::{decode_tags, decode_tags_for_form};
use crate::text::same_text;
use vstd::prelude::*;

verus! {

use crate::dashboard::ages::relative;
use crate::dashboard::layout::or_empty;
use crate::decimal::{decimal_int, thousands};
use crate::highlight::highlighted;
use crate::html::escaped;
use crate::library::folder_of;
use crate::preview::preview;
use crate::tags::{decoded_tags, form_tags};
use crate::text::{opt_view, views};

/// What the count of a snippet's uses says when pointed at.
pub open spec fn uses_title(last_used: Option<i64>, now: i64) -> Seq<char> {
    match last_used {
        Some(t) => "team-wide paste count, last used "@ + relative(now, t),
        None => "team-wide paste count"@,
    }
}

fn uses_title_text(last_used: Option<i64>, now: i64) -> (r: String)
    ensures
        r@ == uses_title(last_used, now),
{
    match last_used {
        Some(t) => {
            let when = format_relative_at(now, t);
            let mut s: String = "team-wide paste count, last used ".to_owned();
            s.push_str(when.as_str());
            s
        },
        None => "team-wide paste count".to_owned(),
    }
}

/// How often a snippet was used.
pub open spec fn uses_html(title: Seq<char>, count: i64) -> Seq<char> {
    "<span class=\"uses\" title=\""@
        + escaped(title)
        + "\">"@
        + thousands(count as int)
        + "</span>"@
}

/// How often a snippet was used.
fn uses_text(title: &str, count: i64) -> (r: String)
    ensures
        r@ == uses_html(title@, count),
{
    let title_e = escape_html(title);
    let count_n = format_thousands(count);
    let mut out: String = "<span class=\"uses\" title=\"".to_owned();
    out.push_str(title_e.as_str());
    out.push_str("\">");
    out.push_str(count_n.as_str());
    out.push_str("</span>");
    out
}

/// How often a snippet was used; nothing before the first use.
pub open spec fn uses(row: LibraryRow, now: i64) -> Seq<char> {
    if row.use_count > 0 {
        uses_html(uses_title(row.last_used, now), row.use_count)
    } else {
        Seq::empty()
    }
}

/// How often a snippet was used; nothing before the first use.
fn uses_or_none(row: &LibraryRow, now: i64) -> (r: String)
    ensures
        r@ == uses(*row, now),
{
    if row.use_count > 0 {
        {
            let title = uses_title_text(row.last_used, now);
            uses_text(title.as_str(), row.use_count)
        }
    } else {
        let r: String = String::new();
        assert(r@ =~= Seq::<char>::empty());
        r
    }
}

/// A folder in the list, with what was searched for marked.
pub open spec fn folder_label(f: Seq<char>, q: Seq<char>) -> Seq<char> {
    "<span class=\"folder\">&#x1F4C1; "@ + highlighted(f, q) + "</span>"@
}

fn folder_label_text(f: &str, q: &str) -> (r: String)
    ensures
        r@ == folder_label(f@, q@),
{
    let h = highlight_matches(f, q);
    let mut s: String = "<span class=\"folder\">&#x1F4C1; ".to_owned();
    s.push_str(h.as_str());
    s.push_str("</span>");
    s
}

/// The folder of a snippet in the list; nothing where it has none.
pub open spec fn folder_part(r: LibraryRow, q: Seq<char>) -> Seq<char> {
    if folder_of(r).len() == 0 {
        Seq::empty()
    } else {
        folder_label(folder_of(r), q)
    }
}

fn folder_part_text(r: &LibraryRow, q: &str) -> (s: String)
    ensures
        s@ == folder_part(*r, q@),
{
    if let Some(f) = &r.folder_path {
        if f.as_str().unicode_len() > 0 {
            return folder_label_text(f.as_str(), q);
        }
    }
    let e: String = String::new();
    assert(e@ =~= Seq::<char>::empty());
    e
}

/// A tag.
pub open spec fn pill_html(tag: Seq<char>) -> Seq<char> {
    "<span class=\"tag\">"@
        + escaped(tag)
        + "</span>"@
}

/// A tag.
fn pill_text(tag: &str) -> (r: String)
    ensures
        r@ == pill_html(tag@),
{
    let tag_e = escape_html(tag);
    let mut out: String = "<span class=\"tag\">".to_owned();
    out.push_str(tag_e.as_str());
    out.push_str("</span>");
    out
}

/// Tags, one after the other.
pub open spec fn pills(l: Seq<Seq<char>>) -> Seq<char>
    decreases l.len(),
{
    if l.len() == 0 {
        Seq::empty()
    } else {
        pills(l.drop_last()) + pill_html(l.last())
    }
}

fn pills_text(l: &Vec<String>) -> (r: String)
    ensures
        r@ == pills(views(l@)),
{
    let n: usize = l.len();
    let ghost all = views(l@);
    let mut out: String = String::new();
    assert(all.take(0) =~= Seq::<Seq<char>>::empty());
    assert(out@ =~= Seq::<char>::empty());
    for i in 0..n
        invariant
            n == l@.len(),
            all == views(l@),
            out@ == pills(all.take(i as int)),
    {
        proof {
            let t = all.take(i + 1);
            assert(t.drop_last() =~= all.take(i as int));
            assert(t.last() == l@[i as int]@);
        }
        let p = pill_text(l[i].as_str());
        out.push_str(p.as_str());
    }
    assert(all.take(n as int) =~= all);
    out
}

/// The tags of a snippet in the list; nothing where it has none.
pub open spec fn tags_part(stored: Seq<char>) -> Seq<char> {
    if decoded_tags(stored).len() == 0 {
        Seq::empty()
    } else {
        "<span class=\"tags\">"@ + pills(decoded_tags(stored)) + "</span>"@
    }
}

fn tags_part_text(stored: &str) -> (r: String)
    ensures
        r@ == tags_part(stored@),
{
    let l: Vec<String> = decode_tags(stored);
    assert(views(l@).len() == l@.len());
    if l.len() == 0 {
        let e: String = String::new();
        assert(e@ =~= Seq::<char>::empty());
        return e;
    }
    let p = pills_text(&l);
    let mut s: String = "<span class=\"tags\">".to_owned();
    s.push_str(p.as_str());
    s.push_str("</span>");
    s
}

/// The folder and the tags of a snippet in the list; nothing where it has
/// neither.
pub open spec fn meta(r: LibraryRow, q: Seq<char>) -> Seq<char> {
    if folder_of(r).len() == 0 && decoded_tags(r.tags@).len() == 0 {
        Seq::empty()
    } else {
        "<div class=\"row-meta\">"@ + folder_part(r, q) + tags_part(r.tags@) + "</div>"@
    }
}

fn meta_text(r: &LibraryRow, q: &str) -> (s: String)
    ensures
        s@ == meta(*r, q@),
{
    let folder = folder_part_text(r, q);
    let tags = tags_part_text(r.tags.as_str());
    proof {
        reveal_strlit("<span class=\"folder\">&#x1F4C1; ");
        reveal_strlit("<span class=\"tags\">");
    }
    if folder.as_str().unicode_len() == 0 && tags.as_str().unicode_len() == 0 {
        let e: String = String::new();
        assert(e@ =~= Seq::<char>::empty());
        return e;
    }
    let mut s: String = "<div class=\"row-meta\">".to_owned();
    s.push_str(folder.as_str());
    s.push_str(tags.as_str());
    s.push_str("</div>");
    s
}

/// A snippet in the list, from its parts.
pub open spec fn row_html(
    id: Seq<char>,
    title: Seq<char>,
    uses: Seq<char>,
    body: Seq<char>,
    meta: Seq<char>,
) -> Seq<char> {
    "<div class=\"library-row\" id=\"lib-"@
        + escaped(id)
        + "\" draggable=\"true\" data-snippet-id=\""@
        + escaped(id)
        + "\" hx-get=\"/dashboard/library/"@
        + escaped(id)
        + "/edit\" hx-trigger=\"click[!shiftKey&&!ctrlKey&&!metaKey]\" \
            hx-target=\"#library-editor\" hx-swap=\"innerHTML\"><div class=\"t\"><span \
            class=\"t-text\">"@
        + title
        + "</span><span class=\"t-right\">"@
        + uses
        + "</span></div><div class=\"body\">"@
        + body
        + "</div>"@
        + meta
        + "</div>"@
}

/// A snippet in the list, from its parts.
fn row_text(id: &str, title: &str, uses: &str, body: &str, meta: &str) -> (r: String)
    ensures
        r@ == row_html(id@, title@, uses@, body@, meta@),
{
    let id_e = escape_html(id);
    let mut out: String = "<div class=\"library-row\" id=\"lib-".to_owned();
    out.push_str(id_e.as_str());
    out.push_str("\" draggable=\"true\" data-snippet-id=\"");
    out.push_str(id_e.as_str());
    out.push_str("\" hx-get=\"/dashboard/library/");
    out.push_str(id_e.as_str());
    out.push_str("/edit\" hx-trigger=\"click[!shiftKey&&!ctrlKey&&!metaKey]\" \
                hx-target=\"#library-editor\" hx-swap=\"innerHTML\"><div class=\"t\"><span \
                class=\"t-text\">");
    out.push_str(title);
    out.push_str("</span><span class=\"t-right\">");
    out.push_str(uses);
    out.push_str("</span></div><div class=\"body\">");
    out.push_str(body);
    out.push_str("</div>");
    out.push_str(meta);
    out.push_str("</div>");
    out
}

/// A snippet in the list, as shown at `now`, with what was searched for marked.
pub open spec fn library_row(r: LibraryRow, q: Seq<char>, now: i64) -> Seq<char> {
    row_html(r.id@, highlighted(r.title@, q), uses(r, now), preview(r.body@, q), meta(r, q))
}

/// A snippet in the list, as shown at `now`, with what was searched for marked.
pub fn render_library_row_highlighted(r: &LibraryRow, q: &str, now: i64) -> (s: String)
    ensures
        s@ == library_row(*r, q@, now),
{
    let title = highlight_matches(r.title.as_str(), q);
    let u = uses_or_none(r, now);
    let body = render_body_with_vars(r.body.as_str(), q);
    let m = meta_text(r, q);
    row_text(r.id.as_str(), title.as_str(), u.as_str(), body.as_str(), m.as_str())
}

/// Snippets in the list.
pub open spec fn library_rows(l: Seq<LibraryRow>, q: Seq<char>, now: i64) -> Seq<char>
    decreases l.len(),
{
    if l.len() == 0 {
        Seq::empty()
    } else {
        library_rows(l.drop_last(), q, now) + library_row(l.last(), q, now)
    }
}

/// What is shown where a view holds nothing.
pub const NO_SNIPPETS: &'static str =
    "<p class=\"empty\">No snippets in this view. Hit + to add one, or pick a different folder.\
        </p>";

/// The list of a view.
pub open spec fn cards_html(l: Seq<LibraryRow>, q: Seq<char>, now: i64) -> Seq<char> {
    if l.len() == 0 {
        NO_SNIPPETS@
    } else {
        library_rows(l, q, now)
    }
}

/// The list of a view, as shown at `now`, with what was searched for marked.
pub fn render_library_cards_inner(rows: &Vec<&LibraryRow>, q: &str, now: i64) -> (r: String)
    ensures
        r@ == cards_html(rows@.unref(), q@, now),
{
    let n: usize = rows.len();
    if n == 0 {
        return NO_SNIPPETS.to_owned();
    }
    let ghost all = rows@.unref();
    let mut out: String = String::new();
    assert(all.take(0) =~= Seq::<LibraryRow>::empty());
    assert(out@ =~= Seq::<char>::empty());
    for i in 0..n
        invariant
            n == rows@.len(),
            all == rows@.unref(),
            out@ == library_rows(all.take(i as int), q@, now),
    {
        proof {
            let t = all.take(i + 1);
            assert(t.drop_last() =~= all.take(i as int));
            assert(t.last() == *rows@[i as int]);
        }
        let s = render_library_row_highlighted(rows[i], q, now);
        out.push_str(s.as_str());
    }
    assert(all.take(n as int) =~= all);
    out
}

/// The buttons that put marks around the selected text.
pub const FORMAT_TOOLBAR: &'static str =
    "<button type=\"button\" class=\"fmt-btn\" data-prefix=\"**\" data-suffix=\"**\" \
        title=\"Bold\"><b>B</b></button><button type=\"button\" class=\"fmt-btn\" \
        data-prefix=\"*\" data-suffix=\"*\" title=\"Italic\"><i>I</i></button><button \
        type=\"button\" class=\"fmt-btn\" data-prefix=\"`\" data-suffix=\"`\" title=\"Inline \
        code\"><code>{}</code></button><button type=\"button\" class=\"fmt-btn\" data-prefix=\"[\" \
        data-suffix=\"](https://)\" title=\"Link\">link</button><button type=\"button\" \
        class=\"fmt-btn fmt-size\" title=\"Cycle editor text size\" aria-label=\"Cycle editor text \
        size\"><span style=\"font-size:11px\">A</span><span style=\"font-size:15px\">A</span>\
        </button>";

/// What the editor shows before a snippet is chosen.
pub const EDITOR_PLACEHOLDER: &'static str =
    "<p class=\"placeholder\">Select a snippet, or create a new one.</p>";

/// The editor, from its parts.
pub open spec fn editor_html(
    row: LibraryRow,
    folder: Seq<char>,
    tags: Seq<char>,
    when: Seq<char>,
    toolbar: Seq<char>,
) -> Seq<char> {
    "<form class=\"lib-edit-form editor-form stack\" id=\"library-editor-form\" \
            hx-put=\"/dashboard/library/"@
        + escaped(row.id@)
        + "\" hx-target=\"#library-editor\" hx-swap=\"innerHTML\"><input type=\"hidden\" \
            name=\"expected_version\" value=\""@
        + decimal_int(row.version as int)
        + "\" /><div class=\"editor-compose\"><div class=\"compose-head\"><input \
            class=\"compose-title\" type=\"text\" name=\"title\" value=\""@
        + escaped(row.title@)
        + "\" placeholder=\"Title\" required aria-label=\"Title\" /></div><div \
            class=\"editor-body-grid\"><div class=\"compose-col\"><div class=\"col-head\"><div \
            class=\"format-toolbar\" data-target=\"library-editor-body\">"@
        + toolbar
        + "</div></div><textarea id=\"library-editor-body\" name=\"body\" required \
            placeholder=\"Snippet text...\">"@
        + escaped(row.body@)
        + "</textarea></div><div class=\"compose-col compose-col-preview\"><div \
            class=\"col-head\"><span class=\"foot-input\"><span class=\"foot-ic\" \
            aria-hidden=\"true\">📁</span><input class=\"foot-field\" type=\"text\" \
            name=\"folder_path\" placeholder=\"Folder\" value=\""@
        + escaped(folder)
        + "\" aria-label=\"Folder\" /></span><span class=\"foot-input\"><span class=\"foot-ic\" \
            aria-hidden=\"true\">🏷️</span><input class=\"foot-field\" type=\"text\" name=\"tags\" \
            value=\""@
        + escaped(tags)
        + "\" placeholder=\"Tags\" aria-label=\"Tags\" /></span></div><div \
            class=\"editor-preview-wrap\"><div class=\"editor-preview\" \
            id=\"library-editor-preview\"></div></div></div></div></div><div class=\"actions\">\
            <button class=\"primary\" type=\"submit\">Save changes</button><button type=\"button\" \
            class=\"btn danger\" id=\"library-editor-delete\" data-id=\""@
        + escaped(row.id@)
        + "\">Delete</button><span class=\"editor-meta\">updated "@
        + when
        + "</span></div></form>"@
}

/// The editor, from its parts.
fn editor_text(row: &LibraryRow, folder: &str, tags: &str, when: &str, toolbar: &str) -> (r: String)
    ensures
        r@ == editor_html(*row, folder@, tags@, when@, toolbar@),
{
    let row_id_e = escape_html(row.id.as_str());
    let row_version_n = i64_text(row.version);
    let row_title_e = escape_html(row.title.as_str());
    let row_body_e = escape_html(row.body.as_str());
    let folder_e = escape_html(folder);
    let tags_e = escape_html(tags);
    let mut out: String = "<form class=\"lib-edit-form editor-form stack\" id=\"library-editor-form\" \
                hx-put=\"/dashboard/library/".to_owned();
    out.push_str(row_id_e.as_str());
    out.push_str("\" hx-target=\"#library-editor\" hx-swap=\"innerHTML\"><input type=\"hidden\" \
                name=\"expected_version\" value=\"");
    out.push_str(row_version_n.as_str());
    out.push_str("\" /><div class=\"editor-compose\"><div class=\"compose-head\"><input \
                class=\"compose-title\" type=\"text\" name=\"title\" value=\"");
    out.push_str(row_title_e.as_str());
    out.push_str("\" placeholder=\"Title\" required aria-label=\"Title\" /></div><div \
                class=\"editor-body-grid\"><div class=\"compose-col\"><div class=\"col-head\"><div \
                class=\"format-toolbar\" data-target=\"library-editor-body\">");
    out.push_str(toolbar);
    out.push_str("</div></div><textarea id=\"library-editor-body\" name=\"body\" required \
                placeholder=\"Snippet text...\">");
    out.push_str(row_body_e.as_str());
    out.push_str("</textarea></div><div class=\"compose-col compose-col-preview\"><div \
                class=\"col-head\"><span class=\"foot-input\"><span class=\"foot-ic\" \
                aria-hidden=\"true\">📁</span><input class=\"foot-field\" type=\"text\" \
                name=\"folder_path\" placeholder=\"Folder\" value=\"");
    out.push_str(folder_e.as_str());
    out.push_str("\" aria-label=\"Folder\" /></span><span class=\"foot-input\"><span \
                class=\"foot-ic\" aria-hidden=\"true\">🏷️</span><input class=\"foot-field\" \
                type=\"text\" name=\"tags\" value=\"");
    out.push_str(tags_e.as_str());
    out.push_str("\" placeholder=\"Tags\" aria-label=\"Tags\" /></span></div><div \
                class=\"editor-preview-wrap\"><div class=\"editor-preview\" \
                id=\"library-editor-preview\"></div></div></div></div></div><div class=\"actions\">\
                <button class=\"primary\" type=\"submit\">Save changes</button><button \
                type=\"button\" class=\"btn danger\" id=\"library-editor-delete\" data-id=\"");
    out.push_str(row_id_e.as_str());
    out.push_str("\">Delete</button><span class=\"editor-meta\">updated ");
    out.push_str(when);
    out.push_str("</span></div></form>");
    out
}

/// The editor with a snippet in it, as shown at `now`.
pub open spec fn editor(r: LibraryRow, now: i64) -> Seq<char> {
    editor_html(
        r,
        or_empty(opt_view(r.folder_path)),
        form_tags(r.tags@),
        relative(now, r.updated_at),
        FORMAT_TOOLBAR@,
    )
}

/// The editor with a snippet in it, as shown at `now`. It carries the version
/// that a save expects to find.
pub fn render_library_editor(r: &LibraryRow, now: i64) -> (s: String)
    ensures
        s@ == editor(*r, now),
{
    let tags = decode_tags_for_form(r.tags.as_str());
    let when = format_relative_at(now, r.updated_at);
    editor_text(
        r,
        text_or_empty(&r.folder_path),
        tags.as_str(),
        when.as_str(),
        FORMAT_TOOLBAR,
    )
}

/// The editor for a new snippet, from its parts.
pub open spec fn blank_editor_html(folder: Seq<char>, toolbar: Seq<char>) -> Seq<char> {
    "<form class=\"lib-edit-form editor-form stack\" id=\"library-editor-form\" \
            hx-post=\"/dashboard/library\" hx-target=\"#library-editor\" hx-swap=\"innerHTML\">\
            <div class=\"editor-compose\"><div class=\"compose-head\"><input \
            class=\"compose-title\" type=\"text\" name=\"title\" placeholder=\"Title\" required \
            aria-label=\"Title\" /></div><div class=\"editor-body-grid\"><div \
            class=\"compose-col\"><div class=\"col-head\"><div class=\"format-toolbar\" \
            data-target=\"library-editor-body\">"@
        + toolbar
        + "</div></div><textarea id=\"library-editor-body\" name=\"body\" required \
            placeholder=\"Snippet text...\"></textarea></div><div class=\"compose-col \
            compose-col-preview\"><div class=\"col-head\"><span class=\"foot-input\"><span \
            class=\"foot-ic\" aria-hidden=\"true\">📁</span><input class=\"foot-field\" \
            type=\"text\" name=\"folder_path\" placeholder=\"Folder\" value=\""@
        + escaped(folder)
        + "\" aria-label=\"Folder\" /></span><span class=\"foot-input\"><span class=\"foot-ic\" \
            aria-hidden=\"true\">🏷️</span><input class=\"foot-field\" type=\"text\" name=\"tags\" \
            placeholder=\"Tags\" aria-label=\"Tags\" /></span></div><div \
            class=\"editor-preview-wrap\"><div class=\"editor-preview\" \
            id=\"library-editor-preview\"></div></div></div></div></div><div class=\"actions\">\
            <button class=\"primary\" type=\"submit\">Add to library</button></div></form>"@
}

/// The editor for a new snippet, from its parts.
fn blank_editor_text(folder: &str, toolbar: &str) -> (r: String)
    ensures
        r@ == blank_editor_html(folder@, toolbar@),
{
    let folder_e = escape_html(folder);
    let mut out: String = "<form class=\"lib-edit-form editor-form stack\" id=\"library-editor-form\" \
                hx-post=\"/dashboard/library\" hx-target=\"#library-editor\" hx-swap=\"innerHTML\">\
                <div class=\"editor-compose\"><div class=\"compose-head\"><input \
                class=\"compose-title\" type=\"text\" name=\"title\" placeholder=\"Title\" \
                required aria-label=\"Title\" /></div><div class=\"editor-body-grid\"><div \
                class=\"compose-col\"><div class=\"col-head\"><div class=\"format-toolbar\" \
                data-target=\"library-editor-body\">".to_owned();
    out.push_str(toolbar);
    out.push_str("</div></div><textarea id=\"library-editor-body\" name=\"body\" required \
                placeholder=\"Snippet text...\"></textarea></div><div class=\"compose-col \
                compose-col-preview\"><div class=\"col-head\"><span class=\"foot-input\"><span \
                class=\"foot-ic\" aria-hidden=\"true\">📁</span><input class=\"foot-field\" \
                type=\"text\" name=\"folder_path\" placeholder=\"Folder\" value=\"");
    out.push_str(folder_e.as_str());
    out.push_str("\" aria-label=\"Folder\" /></span><span class=\"foot-input\"><span \
                class=\"foot-ic\" aria-hidden=\"true\">🏷️</span><input class=\"foot-field\" \
                type=\"text\" name=\"tags\" placeholder=\"Tags\" aria-label=\"Tags\" /></span>\
                </div><div class=\"editor-preview-wrap\"><div class=\"editor-preview\" \
                id=\"library-editor-preview\"></div></div></div></div></div><div class=\"actions\">\
                <button class=\"primary\" type=\"submit\">Add to library</button></div></form>");
    out
}

/// The folder that a new snippet starts with: the one that is being viewed.
pub open spec fn starting_folder(selected: Seq<char>) -> Seq<char> {
    if selected == FOLDER_ALL@ || selected == FOLDER_UNFILED@ {
        ""@
    } else {
        selected
    }
}

/// The editor for a new snippet, in the folder that is being viewed.
pub fn render_library_editor_create(selected: &str) -> (r: String)
    ensures
        r@ == blank_editor_html(starting_folder(selected@), FORMAT_TOOLBAR@),
{
    let folder = if same_text(selected, FOLDER_ALL) || same_text(selected, FOLDER_UNFILED) {
        ""
    } else {
        selected
    };
    blank_editor_text(folder, FORMAT_TOOLBAR)
}

} // verus!
