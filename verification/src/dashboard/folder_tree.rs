//! The tree of folders beside the library.
use crate::decimal::{count_text, i64_text};
use crate::find::starts_with;
use crate::html::escape_html;
use crate::library::{is_under, is_unfiled, LibraryRow, FOLDER_ALL, FOLDER_UNFILED};
use crate::dashboard::tree_order::sort_tree;
use crate::paths::ancestors_of_all;
use crate::text::{append_texts, copy_text, push_text, same_text};
use crate::trim::split;
use vstd::prelude::*;

verus! {

use crate::decimal::{decimal, decimal_int};
use crate::html::escaped;
use crate::library::{folder_of, in_view, lemma_filter_take_succ, rows_in_view, under, unfiled};
use crate::dashboard::tree_order::{
    law_tree_order,
    lemma_between_is_below,
    lemma_folder_before_its_own,
    lemma_path_before_total,
    path_before,
    tree_sorted,
};
use crate::paths::{all_ancestors, ancestors, lemma_ancestor_listed, lemma_pieces_concat, slash};
use crate::text::views;
use crate::trim::{lemma_pieces_nonempty, lemma_pieces_of_plain, pieces};

/// A folder that was made for itself, with its place among its siblings.
#[derive(Debug)]
pub struct FolderRow {
    pub path: String,
    pub sort_order: i64,
}

/// What a node of the tree stands for.
#[derive(Copy, Clone, Debug, PartialEq, Eq, Structural)]
pub enum FolderNodeKind {
    /// All snippets. Nothing can be dropped on it.
    Special,
    /// The snippets without a folder.
    Unfiled,
    /// A folder, which can be dragged and dropped on.
    Real,
}

/// A node of the tree.
#[derive(Debug)]
pub struct FolderNode {
    pub path: String,
    pub label: String,
    pub count: usize,
    pub active: bool,
    pub kind: FolderNodeKind,
    pub depth: usize,
    pub has_children: bool,
    pub sort_order: i64,
}

/// What a node of the tree holds.
pub struct NodeView {
    pub path: Seq<char>,
    pub label: Seq<char>,
    pub count: nat,
    pub active: bool,
    pub kind: FolderNodeKind,
    pub depth: nat,
    pub has_children: bool,
    pub sort_order: i64,
}

impl View for FolderNode {
    type V = NodeView;

    open spec fn view(&self) -> NodeView {
        NodeView {
            path: self.path@,
            label: self.label@,
            count: self.count as nat,
            active: self.active,
            kind: self.kind,
            depth: self.depth as nat,
            has_children: self.has_children,
            sort_order: self.sort_order,
        }
    }
}

/// The class of the chosen node.
pub open spec fn active_class(active: bool) -> Seq<char> {
    if active {
        " active"@
    } else {
        ""@
    }
}

/// The indentation of a node.
pub open spec fn indent(depth: nat) -> Seq<char> {
    if depth > 0 {
        " style=\"--depth: "@ + decimal(depth) + ";\""@
    } else {
        Seq::empty()
    }
}

fn indent_text(depth: usize) -> (r: String)
    ensures
        r@ == indent(depth as nat),
{
    if depth > 0 {
        let n = count_text(depth);
        let mut s: String = " style=\"--depth: ".to_owned();
        s.push_str(n.as_str());
        s.push_str(";\"");
        s
    } else {
        let r: String = String::new();
        assert(r@ =~= Seq::<char>::empty());
        r
    }
}

/// What can be dropped on a node.
pub open spec fn drop_attributes(kind: FolderNodeKind) -> Seq<char> {
    match kind {
        FolderNodeKind::Special => ""@,
        FolderNodeKind::Unfiled => "data-droppable=\"1\" data-unfiled=\"1\""@,
        FolderNodeKind::Real => "data-droppable=\"1\""@,
    }
}

fn drop_text(kind: FolderNodeKind) -> (r: &'static str)
    ensures
        r@ == drop_attributes(kind),
{
    match kind {
        FolderNodeKind::Special => "",
        FolderNodeKind::Unfiled => "data-droppable=\"1\" data-unfiled=\"1\"",
        FolderNodeKind::Real => "data-droppable=\"1\"",
    }
}

/// Whether a node can be dragged.
pub open spec fn drag_attributes(kind: FolderNodeKind) -> Seq<char> {
    if kind == FolderNodeKind::Real {
        "draggable=\"true\" data-folder-source=\"1\""@
    } else {
        ""@
    }
}

/// The glyph of a node.
pub open spec fn glyph(kind: FolderNodeKind) -> Seq<char> {
    match kind {
        FolderNodeKind::Special => "&#x1F4D4;"@,
        FolderNodeKind::Unfiled => "&#x1F4C4;"@,
        FolderNodeKind::Real => "&#x1F4C1;"@,
    }
}

fn glyph_text(kind: FolderNodeKind) -> (r: &'static str)
    ensures
        r@ == glyph(kind),
{
    match kind {
        FolderNodeKind::Special => "&#x1F4D4;",
        FolderNodeKind::Unfiled => "&#x1F4C4;",
        FolderNodeKind::Real => "&#x1F4C1;",
    }
}

/// The handle that folds a folder.
pub open spec fn caret_html(path: Seq<char>) -> Seq<char> {
    "<span class=\"lib-folder-caret\" data-folder-caret=\""@
        + escaped(path)
        + "\" role=\"button\" aria-label=\"Collapse/expand folder\" tabindex=\"0\">&#x25BE;</span>"@
}

/// The handle that folds a folder.
fn caret_text(path: &str) -> (r: String)
    ensures
        r@ == caret_html(path@),
{
    let path_e = escape_html(path);
    let mut out: String = "<span class=\"lib-folder-caret\" data-folder-caret=\"".to_owned();
    out.push_str(path_e.as_str());
    out.push_str("\" role=\"button\" aria-label=\"Collapse/expand folder\" tabindex=\"0\">&#x25BE;\
                </span>");
    out
}

/// What keeps the place of a handle.
pub const CARET_SPACER: &'static str =
    "<span class=\"lib-folder-caret-spacer\" aria-hidden=\"true\"></span>";

/// The handle of a folder with folders in it, else its place.
pub open spec fn caret(path: Seq<char>, kind: FolderNodeKind, has_children: bool) -> Seq<char> {
    if kind == FolderNodeKind::Real && has_children {
        caret_html(path)
    } else {
        CARET_SPACER@
    }
}

/// The handle of a folder with folders in it, else its place.
fn caret_or_spacer(path: &str, kind: FolderNodeKind, has_children: bool) -> (r: String)
    ensures
        r@ == caret(path@, kind, has_children),
{
    if kind == FolderNodeKind::Real && has_children {
        caret_text(path)
    } else {
        CARET_SPACER.to_owned()
    }
}

/// The button that renames a folder.
pub open spec fn rename_html(path: Seq<char>) -> Seq<char> {
    "<button type=\"button\" class=\"lib-folder-edit\" data-folder-rename=\""@
        + escaped(path)
        + "\" title=\"Rename folder\" aria-label=\"Rename folder "@
        + escaped(path)
        + "\"><svg viewBox='0 0 24 24' width='12' height='12' fill='none' stroke='currentColor' \
            stroke-width='2' stroke-linecap='round' stroke-linejoin='round'><path d='M17 3a2.828 \
            2.828 0 1 1 4 4L7.5 20.5 2 22l1.5-5.5L17 3z'/></svg></button>"@
}

/// The button that renames a folder.
fn rename_text(path: &str) -> (r: String)
    ensures
        r@ == rename_html(path@),
{
    let path_e = escape_html(path);
    let mut out: String = "<button type=\"button\" class=\"lib-folder-edit\" data-folder-rename=\"".to_owned();
    out.push_str(path_e.as_str());
    out.push_str("\" title=\"Rename folder\" aria-label=\"Rename folder ");
    out.push_str(path_e.as_str());
    out.push_str("\"><svg viewBox='0 0 24 24' width='12' height='12' fill='none' \
                stroke='currentColor' stroke-width='2' stroke-linecap='round' \
                stroke-linejoin='round'><path d='M17 3a2.828 2.828 0 1 1 4 4L7.5 20.5 2 \
                22l1.5-5.5L17 3z'/></svg></button>");
    out
}

/// The button that deletes a folder.
pub open spec fn delete_html(path: Seq<char>) -> Seq<char> {
    "<button type=\"button\" class=\"lib-folder-del\" data-folder-delete=\""@
        + escaped(path)
        + "\" title=\"Delete folder\" aria-label=\"Delete folder "@
        + escaped(path)
        + "\">&#215;</button>"@
}

/// The button that deletes a folder.
fn delete_text(path: &str) -> (r: String)
    ensures
        r@ == delete_html(path@),
{
    let path_e = escape_html(path);
    let mut out: String = "<button type=\"button\" class=\"lib-folder-del\" data-folder-delete=\"".to_owned();
    out.push_str(path_e.as_str());
    out.push_str("\" title=\"Delete folder\" aria-label=\"Delete folder ");
    out.push_str(path_e.as_str());
    out.push_str("\">&#215;</button>");
    out
}

/// The rename button of a folder.
pub open spec fn rename_button(path: Seq<char>, kind: FolderNodeKind) -> Seq<char> {
    if kind == FolderNodeKind::Real {
        rename_html(path)
    } else {
        Seq::empty()
    }
}

/// The rename button of a folder.
fn rename_or_none(path: &str, kind: FolderNodeKind) -> (r: String)
    ensures
        r@ == rename_button(path@, kind),
{
    if kind == FolderNodeKind::Real {
        rename_text(path)
    } else {
        let r: String = String::new();
        assert(r@ =~= Seq::<char>::empty());
        r
    }
}

/// The delete button of a folder.
pub open spec fn delete_button(path: Seq<char>, kind: FolderNodeKind) -> Seq<char> {
    if kind == FolderNodeKind::Real {
        delete_html(path)
    } else {
        Seq::empty()
    }
}

/// The delete button of a folder.
fn delete_or_none(path: &str, kind: FolderNodeKind) -> (r: String)
    ensures
        r@ == delete_button(path@, kind),
{
    if kind == FolderNodeKind::Real {
        delete_text(path)
    } else {
        let r: String = String::new();
        assert(r@ =~= Seq::<char>::empty());
        r
    }
}

/// Where a click on a node leads.
pub open spec fn folder_link(path: Seq<char>) -> Seq<char> {
    "/dashboard/library?folder="@ + escaped(path)
}

/// A node of the tree.
pub open spec fn node_html(n: NodeView) -> Seq<char> {
    "<div class=\"lib-folder-row"@
        + active_class(n.active)
        + "\" data-folder-path=\""@
        + escaped(n.path)
        + "\" data-sort-order=\""@
        + decimal_int(n.sort_order as int)
        + "\" data-folder-href=\""@
        + escaped(folder_link(n.path))
        + "\" "@
        + drop_attributes(n.kind)
        + " "@
        + drag_attributes(n.kind)
        + indent(n.depth)
        + ">"@
        + caret(n.path, n.kind, n.has_children)
        + "<span class=\"lib-folder-icon\" aria-hidden=\"true\">"@
        + glyph(n.kind)
        + "</span><span class=\"label\">"@
        + escaped(n.label)
        + "</span><span class=\"count\">"@
        + decimal(n.count)
        + "</span>"@
        + rename_button(n.path, n.kind)
        + delete_button(n.path, n.kind)
        + "</div>"@
}

/// A node of the tree.
fn render_lib_folder_node(n: &FolderNode) -> (r: String)
    ensures
        r@ == node_html(n@),
{
    let path = escape_html(n.path.as_str());
    let order = i64_text(n.sort_order);
    let mut raw_link: String = "/dashboard/library?folder=".to_owned();
    raw_link.push_str(path.as_str());
    let link = escape_html(raw_link.as_str());
    let label = escape_html(n.label.as_str());
    let count = count_text(n.count);
    let mut out: String = "<div class=\"lib-folder-row".to_owned();
    out.push_str((if n.active { " active" } else { "" }));
    out.push_str("\" data-folder-path=\"");
    out.push_str(path.as_str());
    out.push_str("\" data-sort-order=\"");
    out.push_str(order.as_str());
    out.push_str("\" data-folder-href=\"");
    out.push_str(link.as_str());
    out.push_str("\" ");
    out.push_str(drop_text(n.kind));
    out.push_str(" ");
    out.push_str(
        (if n.kind == FolderNodeKind::Real {
            "draggable=\"true\" data-folder-source=\"1\""
        } else {
            ""
        }),
    );
    let p1 = indent_text(n.depth);
    out.push_str(p1.as_str());
    out.push_str(">");
    let p2 = caret_or_spacer(n.path.as_str(), n.kind, n.has_children);
    out.push_str(p2.as_str());
    out.push_str("<span class=\"lib-folder-icon\" aria-hidden=\"true\">");
    out.push_str(glyph_text(n.kind));
    out.push_str("</span><span class=\"label\">");
    out.push_str(label.as_str());
    out.push_str("</span><span class=\"count\">");
    out.push_str(count.as_str());
    out.push_str("</span>");
    let p3 = rename_or_none(n.path.as_str(), n.kind);
    out.push_str(p3.as_str());
    let p4 = delete_or_none(n.path.as_str(), n.kind);
    out.push_str(p4.as_str());
    out.push_str("</div>");
    out
}

/// The folders that snippets lie in.
pub open spec fn row_folders(rows: Seq<LibraryRow>) -> Seq<Seq<char>> {
    Seq::new(rows.len(), |i: int| folder_of(rows[i]))
}

/// The folders that were made for themselves.
pub open spec fn made_folders(folders: Seq<FolderRow>) -> Seq<Seq<char>> {
    Seq::new(folders.len(), |i: int| folders[i].path@)
}

/// The folders of the tree: those that snippets lie in, those that were made, and
/// every folder around them, in the order of the tree.
pub open spec fn tree_paths(rows: Seq<LibraryRow>, folders: Seq<FolderRow>) -> Seq<Seq<char>> {
    tree_sorted(all_ancestors(row_folders(rows)) + all_ancestors(made_folders(folders)))
}

/// How many snippets a click on a folder shows.
pub open spec fn count_under(rows: Seq<LibraryRow>, path: Seq<char>) -> nat {
    rows.filter(|r: LibraryRow| under(r, path)).len()
}

/// How many snippets have no folder.
pub open spec fn count_unfiled(rows: Seq<LibraryRow>) -> nat {
    rows.filter(|r: LibraryRow| unfiled(r)).len()
}

/// The place of a folder among its siblings: that of its last row, zero without
/// one.
pub open spec fn order_of(folders: Seq<FolderRow>, path: Seq<char>) -> i64
    decreases folders.len(),
{
    if folders.len() == 0 {
        0
    } else if folders.last().path@ == path {
        folders.last().sort_order
    } else {
        order_of(folders.drop_last(), path)
    }
}

/// Whether one of the paths lies below this one.
pub open spec fn has_below(paths: Seq<Seq<char>>, path: Seq<char>) -> bool {
    exists|i: int| 0 <= i < paths.len() && (path + slash()).is_prefix_of(#[trigger] paths[i])
}

/// The node of a folder.
pub open spec fn folder_node(
    rows: Seq<LibraryRow>,
    folders: Seq<FolderRow>,
    selected: Seq<char>,
    path: Seq<char>,
) -> NodeView {
    NodeView {
        path,
        label: pieces(path, '/').last(),
        count: count_under(rows, path),
        active: selected == path,
        kind: FolderNodeKind::Real,
        depth: (pieces(path, '/').len() - 1) as nat,
        has_children: has_below(tree_paths(rows, folders), path),
        sort_order: order_of(folders, path),
    }
}

/// The node for all snippets.
pub open spec fn all_node(rows: Seq<LibraryRow>, selected: Seq<char>) -> NodeView {
    NodeView {
        path: FOLDER_ALL@,
        label: "All snippets"@,
        count: rows.len(),
        active: selected == FOLDER_ALL@,
        kind: FolderNodeKind::Special,
        depth: 0,
        has_children: false,
        sort_order: 0,
    }
}

/// The node for the snippets without a folder.
pub open spec fn unfiled_node(rows: Seq<LibraryRow>, selected: Seq<char>) -> NodeView {
    NodeView {
        path: FOLDER_UNFILED@,
        label: "Unfiled"@,
        count: count_unfiled(rows),
        active: selected == FOLDER_UNFILED@,
        kind: FolderNodeKind::Unfiled,
        depth: 0,
        has_children: false,
        sort_order: 0,
    }
}

/// The nodes of these folders.
pub open spec fn folder_nodes(
    rows: Seq<LibraryRow>,
    folders: Seq<FolderRow>,
    selected: Seq<char>,
    paths: Seq<Seq<char>>,
) -> Seq<char>
    decreases paths.len(),
{
    if paths.len() == 0 {
        Seq::empty()
    } else {
        folder_nodes(rows, folders, selected, paths.drop_last()) + node_html(
            folder_node(rows, folders, selected, paths.last()),
        )
    }
}

fn paths_of_tree(rows: &[LibraryRow], folders: &Vec<FolderRow>) -> (r: Vec<String>)
    ensures
        views(r@) == tree_paths(rows@, folders@),
{
    let n: usize = rows.len();
    let mut used: Vec<String> = Vec::new();
    for i in 0..n
        invariant
            n == rows@.len(),
            views(used@) =~= row_folders(rows@).take(i as int),
    {
        let f = match &rows[i].folder_path {
            Some(p) => copy_text(p.as_str()),
            None => String::new(),
        };
        assert(f@ =~= folder_of(rows@[i as int]));
        push_text(&mut used, f);
        assert(row_folders(rows@).take(i + 1) =~= row_folders(rows@).take(i as int).push(
            row_folders(rows@)[i as int],
        ));
    }
    assert(row_folders(rows@).take(n as int) =~= row_folders(rows@));
    let m: usize = folders.len();
    let mut made: Vec<String> = Vec::new();
    for i in 0..m
        invariant
            m == folders@.len(),
            views(made@) =~= made_folders(folders@).take(i as int),
    {
        push_text(&mut made, copy_text(folders[i].path.as_str()));
        assert(made_folders(folders@).take(i + 1) =~= made_folders(folders@).take(i as int).push(
            made_folders(folders@)[i as int],
        ));
    }
    assert(made_folders(folders@).take(m as int) =~= made_folders(folders@));
    let mut all: Vec<String> = ancestors_of_all(&used);
    let more: Vec<String> = ancestors_of_all(&made);
    append_texts(&mut all, &more);
    sort_tree(&all)
}

fn count_rows_under(rows: &[LibraryRow], path: &str) -> (r: usize)
    ensures
        r == count_under(rows@, path@),
{
    let n: usize = rows.len();
    let mut c: usize = 0;
    let ghost p = |r: LibraryRow| under(r, path@);
    assert(rows@.take(0).filter(p).len() == 0) by {
        reveal(Seq::filter);
        assert(rows@.take(0).len() == 0);
    }
    for i in 0..n
        invariant
            n == rows@.len(),
            p == (|r: LibraryRow| under(r, path@)),
            c == rows@.take(i as int).filter(p).len(),
            c <= i,
    {
        proof {
            lemma_filter_take_succ(rows@, p, i as int);
        }
        if is_under(&rows[i], path) {
            c = c + 1;
        }
    }
    assert(rows@.take(n as int) =~= rows@);
    c
}

fn count_rows_unfiled(rows: &[LibraryRow]) -> (r: usize)
    ensures
        r == count_unfiled(rows@),
{
    let n: usize = rows.len();
    let mut c: usize = 0;
    let ghost p = |r: LibraryRow| unfiled(r);
    assert(rows@.take(0).filter(p).len() == 0) by {
        reveal(Seq::filter);
        assert(rows@.take(0).len() == 0);
    }
    for i in 0..n
        invariant
            n == rows@.len(),
            p == (|r: LibraryRow| unfiled(r)),
            c == rows@.take(i as int).filter(p).len(),
            c <= i,
    {
        proof {
            lemma_filter_take_succ(rows@, p, i as int);
        }
        if is_unfiled(&rows[i]) {
            c = c + 1;
        }
    }
    assert(rows@.take(n as int) =~= rows@);
    c
}

fn find_order(folders: &Vec<FolderRow>, path: &str) -> (r: i64)
    ensures
        r == order_of(folders@, path@),
{
    let mut i: usize = folders.len();
    assert(folders@.take(i as int) =~= folders@);
    while i > 0
        invariant
            i <= folders@.len(),
            order_of(folders@, path@) == order_of(folders@.take(i as int), path@),
        decreases i,
    {
        proof {
            let t = folders@.take(i as int);
            assert(t.drop_last() =~= folders@.take(i - 1));
            assert(t.last() == folders@[i - 1]);
        }
        if same_text(folders[i - 1].path.as_str(), path) {
            return folders[i - 1].sort_order;
        }
        i = i - 1;
    }
    0
}

fn any_below(paths: &Vec<String>, path: &str) -> (r: bool)
    ensures
        r == has_below(views(paths@), path@),
{
    let mut prefix: String = copy_text(path);
    prefix.push('/');
    assert(prefix@ =~= path@ + slash());
    let n: usize = paths.len();
    for i in 0..n
        invariant
            n == paths@.len(),
            prefix@ == path@ + slash(),
            forall|j: int|
                0 <= j < i ==> !(path@ + slash()).is_prefix_of(#[trigger] views(paths@)[j]),
    {
        if starts_with(paths[i].as_str(), prefix.as_str()) {
            assert((path@ + slash()).is_prefix_of(views(paths@)[i as int]));
            return true;
        }
    }
    false
}

/// What stands above the tree.
pub const TREE_HEAD: &'static str =
    "<form class=\"lib-folder-create\" id=\"lib-folder-create-form\" autocomplete=\"off\">\
        <input type=\"text\" id=\"lib-folder-create-input\" placeholder=\"New folder...\" \
        spellcheck=\"false\" /><button type=\"submit\" class=\"primary\" title=\"Create folder\">+\
        </button></form><div class=\"lib-folder-controls\"><div class=\"seg lib-sort-seg\" \
        role=\"group\" aria-label=\"Sort order\"><button type=\"button\" data-sort=\"alpha\" \
        aria-pressed=\"true\">A-Z</button><button type=\"button\" data-sort=\"manual\" \
        aria-pressed=\"false\">Manual</button></div></div><div class=\"lib-tree\">";

/// The place to drop a folder on for the top level.
pub const TREE_FOOT: &'static str =
    "<div class=\"lib-folder-root-drop\" data-folder-root-drop=\"1\"><span class=\"label muted \
        small\">Drop here to move to top level</span></div></div>";

/// The tree: all snippets, those without a folder, and the folders in order.
pub open spec fn tree_html(
    rows: Seq<LibraryRow>,
    folders: Seq<FolderRow>,
    selected: Seq<char>,
) -> Seq<char> {
    TREE_HEAD@ + node_html(all_node(rows, selected)) + node_html(unfiled_node(rows, selected))
        + folder_nodes(rows, folders, selected, tree_paths(rows, folders)) + TREE_FOOT@
}

/// The tree: all snippets, those without a folder, and the folders in order.
pub fn render_library_folder_tree(
    rows: &[LibraryRow],
    folders: &Vec<FolderRow>,
    selected: &str,
) -> (r: String)
    ensures
        r@ == tree_html(rows@, folders@, selected@),
{
    let paths: Vec<String> = paths_of_tree(rows, folders);
    let ghost all = tree_paths(rows@, folders@);
    let top = FolderNode {
        path: FOLDER_ALL.to_owned(),
        label: "All snippets".to_owned(),
        count: rows.len(),
        active: same_text(selected, FOLDER_ALL),
        kind: FolderNodeKind::Special,
        depth: 0,
        has_children: false,
        sort_order: 0,
    };
    let loose = FolderNode {
        path: FOLDER_UNFILED.to_owned(),
        label: "Unfiled".to_owned(),
        count: count_rows_unfiled(rows),
        active: same_text(selected, FOLDER_UNFILED),
        kind: FolderNodeKind::Unfiled,
        depth: 0,
        has_children: false,
        sort_order: 0,
    };
    let top_html = render_lib_folder_node(&top);
    let loose_html = render_lib_folder_node(&loose);
    let n: usize = paths.len();
    let mut list: String = String::new();
    assert(views(paths@).len() == paths@.len());
    assert(all.take(0) =~= Seq::<Seq<char>>::empty());
    assert(list@ =~= Seq::<char>::empty());
    for i in 0..n
        invariant
            n == paths@.len(),
            views(paths@) == all,
            all == tree_paths(rows@, folders@),
            list@ == folder_nodes(rows@, folders@, selected@, all.take(i as int)),
    {
        proof {
            let t = all.take(i + 1);
            assert(t.drop_last() =~= all.take(i as int));
            assert(t.last() == all[i as int]);
            assert(views(paths@)[i as int] == paths@[i as int]@);
            lemma_pieces_nonempty(paths@[i as int]@, '/');
        }
        let parts: Vec<String> = split(paths[i].as_str(), '/');
        let k: usize = parts.len();
        assert(views(parts@).len() == parts@.len());
        assert(views(parts@).last() == parts@[k - 1]@);
        let node = FolderNode {
            path: copy_text(paths[i].as_str()),
            label: copy_text(parts[k - 1].as_str()),
            count: count_rows_under(rows, paths[i].as_str()),
            active: same_text(selected, paths[i].as_str()),
            kind: FolderNodeKind::Real,
            depth: k - 1,
            has_children: any_below(&paths, paths[i].as_str()),
            sort_order: find_order(folders, paths[i].as_str()),
        };
        assert(node@ == folder_node(rows@, folders@, selected@, paths@[i as int]@));
        let h = render_lib_folder_node(&node);
        list.push_str(h.as_str());
    }
    assert(all.take(n as int) =~= all);
    let mut out: String = TREE_HEAD.to_owned();
    out.push_str(top_html.as_str());
    out.push_str(loose_html.as_str());
    out.push_str(list.as_str());
    out.push_str(TREE_FOOT);
    out
}

/// The number at a folder is the number of snippets that a click on it lists. The
/// names that stand for all snippets and for those without a folder are no
/// folders.
pub proof fn law_tree_counts_what_is_listed(rows: Seq<LibraryRow>, path: Seq<char>)
    requires
        path != FOLDER_ALL@,
        path != FOLDER_UNFILED@,
    ensures
        count_under(rows, path) == rows_in_view(rows, path).len(),
        rows.len() == rows_in_view(rows, FOLDER_ALL@).len(),
        count_unfiled(rows) == rows_in_view(rows, FOLDER_UNFILED@).len(),
{
    reveal_strlit("__all__");
    reveal_strlit("__unfiled__");
    assert(FOLDER_ALL@.len() != FOLDER_UNFILED@.len());
    lemma_same_filter(
        rows,
        |r: LibraryRow| under(r, path),
        |r: LibraryRow| in_view(r, path),
    );
    lemma_same_filter(
        rows,
        |r: LibraryRow| unfiled(r),
        |r: LibraryRow| in_view(r, FOLDER_UNFILED@),
    );
    lemma_filter_everything(rows, |r: LibraryRow| in_view(r, FOLDER_ALL@));
}

proof fn lemma_same_filter(
    rows: Seq<LibraryRow>,
    p: spec_fn(LibraryRow) -> bool,
    q: spec_fn(LibraryRow) -> bool,
)
    requires
        forall|r: LibraryRow| #[trigger] p(r) == q(r),
    ensures
        rows.filter(p) == rows.filter(q),
    decreases rows.len(),
{
    reveal(Seq::filter);
    if rows.len() > 0 {
        lemma_same_filter(rows.drop_last(), p, q);
        assert(p(rows.last()) == q(rows.last()));
    }
}

proof fn lemma_filter_everything(rows: Seq<LibraryRow>, p: spec_fn(LibraryRow) -> bool)
    requires
        forall|r: LibraryRow| #[trigger] p(r),
    ensures
        rows.filter(p) == rows,
    decreases rows.len(),
{
    reveal(Seq::filter);
    if rows.len() > 0 {
        lemma_filter_everything(rows.drop_last(), p);
        assert(p(rows.last()));
        assert(rows.drop_last().push(rows.last()) =~= rows);
    } else {
        assert(rows.filter(p) =~= rows);
    }
}

/// A folder comes before every folder in it.
pub proof fn law_parents_come_first(
    rows: Seq<LibraryRow>,
    folders: Seq<FolderRow>,
    i: int,
    j: int,
)
    requires
        0 <= i < tree_paths(rows, folders).len(),
        0 <= j < tree_paths(rows, folders).len(),
        (tree_paths(rows, folders)[i] + slash()).is_prefix_of(tree_paths(rows, folders)[j]),
    ensures
        i < j,
{
    let t = tree_paths(rows, folders);
    law_tree_order(all_ancestors(row_folders(rows)) + all_ancestors(made_folders(folders)));
    lemma_folder_before_its_own(t[i], t[j]);
    if j < i {
        assert(path_before(t[j], t[i]));
        lemma_path_before_total(t[i], t[j]);
    }
    lemma_path_before_total(t[i], t[i]);
}

/// The folders in a folder follow it without a gap: what stands between it and one of
/// them lies in it too.
pub proof fn law_folders_follow_their_parent(
    rows: Seq<LibraryRow>,
    folders: Seq<FolderRow>,
    i: int,
    k: int,
    j: int,
)
    requires
        0 <= i < k < j < tree_paths(rows, folders).len(),
        (tree_paths(rows, folders)[i] + slash()).is_prefix_of(tree_paths(rows, folders)[j]),
    ensures
        (tree_paths(rows, folders)[i] + slash()).is_prefix_of(tree_paths(rows, folders)[k]),
{
    let t = tree_paths(rows, folders);
    law_tree_order(all_ancestors(row_folders(rows)) + all_ancestors(made_folders(folders)));
    assert(path_before(t[i], t[k]));
    assert(path_before(t[k], t[j]));
    lemma_between_is_below(t[i], t[k], t[j]);
}

/// Every folder that a snippet lies in, and every folder that was made, is in the tree with
/// the folders around it, even where nothing lies directly in them.
pub proof fn law_tree_shows_every_parent(
    rows: Seq<LibraryRow>,
    folders: Seq<FolderRow>,
    f: Seq<char>,
    i: int,
)
    requires
        row_folders(rows).contains(f) || made_folders(folders).contains(f),
        0 <= i < ancestors(f).len(),
    ensures
        tree_paths(rows, folders).contains(ancestors(f)[i]),
{
    let a = all_ancestors(row_folders(rows));
    let b = all_ancestors(made_folders(folders));
    let p = ancestors(f)[i];
    law_tree_order(a + b);
    if row_folders(rows).contains(f) {
        lemma_ancestor_listed(row_folders(rows), f, i);
        let m = choose|m: int| 0 <= m < a.len() && a[m] == p;
        assert((a + b)[m] == p);
    } else {
        lemma_ancestor_listed(made_folders(folders), f, i);
        let m = choose|m: int| 0 <= m < b.len() && b[m] == p;
        assert((a + b)[a.len() + m] == p);
    }
    assert((a + b).contains(p));
}

/// A folder's node bears the last name of its path, one level below the folder that it lies
/// in, and is the active one exactly where it is selected.
pub proof fn law_nodes_bear_the_last_name(
    rows: Seq<LibraryRow>,
    folders: Seq<FolderRow>,
    selected: Seq<char>,
    parent: Seq<char>,
    name: Seq<char>,
)
    requires
        !name.contains('/'),
    ensures
        ({
            let n = folder_node(rows, folders, selected, parent + seq!['/'] + name);
            let top = folder_node(rows, folders, selected, name);
            &&& n.path == parent + seq!['/'] + name
            &&& n.label == name
            &&& n.depth == folder_node(rows, folders, selected, parent).depth + 1
            &&& n.active <==> selected == parent + seq!['/'] + name
            &&& n.kind == FolderNodeKind::Real
            &&& top.label == name
            &&& top.depth == 0
        }),
{
    let e = Seq::<char>::empty();
    assert forall|j: int| 0 <= j < name.len() implies name[j] != '/' by {
        if name[j] == '/' {
            assert(name.contains('/'));
        }
    }
    lemma_pieces_of_plain(e, name, '/');
    assert(e + name =~= name);
    assert(pieces(e, '/') =~= seq![e]);
    assert(pieces(name, '/') =~= seq![name]);
    lemma_pieces_concat(parent, name, '/');
    lemma_pieces_nonempty(parent, '/');
}

/// A folder has children in the tree exactly where a row or a made folder lies below it.
pub proof fn law_children_are_below(
    rows: Seq<LibraryRow>,
    folders: Seq<FolderRow>,
    selected: Seq<char>,
    path: Seq<char>,
)
    ensures
        folder_node(rows, folders, selected, path).has_children <==> exists|p: Seq<char>|
            tree_paths(rows, folders).contains(p) && #[trigger] (path + seq!['/']).is_prefix_of(p),
{
    let l = tree_paths(rows, folders);
    if has_below(l, path) {
        let i = choose|i: int| 0 <= i < l.len() && (path + slash()).is_prefix_of(#[trigger] l[i]);
        assert(l.contains(l[i]));
        assert((path + seq!['/']).is_prefix_of(l[i]));
    }
    if exists|p: Seq<char>| l.contains(p) && #[trigger] (path + seq!['/']).is_prefix_of(p) {
        let p = choose|p: Seq<char>|
            l.contains(p) && #[trigger] (path + seq!['/']).is_prefix_of(p);
        let i = choose|i: int| 0 <= i < l.len() && l[i] == p;
        assert((path + slash()).is_prefix_of(l[i]));
    }
}

/// A folder goes by the place that the last row for its path gives it, and by zero without one.
pub proof fn law_the_last_row_places_a_folder(folders: Seq<FolderRow>, path: Seq<char>, i: int)
    requires
        0 <= i < folders.len(),
        folders[i].path@ == path,
        forall|j: int| i < j < folders.len() ==> (#[trigger] folders[j]).path@ != path,
    ensures
        order_of(folders, path) == folders[i].sort_order,
        order_of(Seq::empty(), path) == 0,
    decreases folders.len(),
{
    let t = folders.drop_last();
    if i < t.len() {
        assert(t[i] == folders[i]);
        assert forall|j: int| i < j < t.len() implies (#[trigger] t[j]).path@ != path by {
            assert(t[j] == folders[j]);
        }
        assert(folders[folders.len() - 1].path@ != path);
        law_the_last_row_places_a_folder(t, path, i);
    }
}

} // verus!
