//! The local snippet store: its rows, and what each operation changes in it.
//!
//! An operation is planned as a list of changes. Each change is one statement on
//! the database; what it does to the stored rows is stated by `apply`.
use crate::clock::utc_now;
use crate::decimal::count_text;
use crate::ident::new_uuid;
use crate::order::sort_distinct;
use crate::paths::{ancestors_of_all, normalize_folder, normalize_path, path_ancestors};
use crate::shared_library::TeamSnippet;
use crate::tags::{decode_tags, encode_tags};
use crate::text::{
    append_texts,
    copy_opt,
    copy_text,
    copy_texts,
    is_one_of,
    push_text,
    same_text,
    str_to_lowercase,
};
use crate::trim::{is_blank, trim};
use vstd::prelude::*;

pub mod laws;
pub mod meaning;
pub mod ops;

verus! {

use crate::decimal::decimal;
use crate::ident::uuid_form;
use crate::order::{ascending, law_sorted_distinct, sorted_distinct};
use crate::paths::{
    all_ancestors,
    ancestors,
    lemma_ancestor_listed,
    normalized,
    normalized_folder,
    slash,
};
use crate::tags::{decoded_tags, encoded_tags};
use crate::text::{lowercase_text, opt_str_view, opt_view, views};
use crate::trim::trimmed;

#[derive(Debug, Clone)]
pub struct Snippet {
    pub id: String,
    pub title: String,
    pub body: String,
    pub tags: Vec<String>,
    /// Slash-separated; none at the root.
    pub folder_path: Option<String>,
    pub usage_count: i64,
    pub last_used: Option<i64>,
    pub created_at: i64,
    pub updated_at: i64,
}

#[derive(Debug)]
pub struct NewSnippet {
    pub title: String,
    pub body: String,
    pub tags: Vec<String>,
    pub folder_path: Option<String>,
}

#[derive(Debug)]
pub struct UpdateSnippet {
    pub title: String,
    pub body: String,
    pub tags: Vec<String>,
    pub folder_path: Option<String>,
}

#[derive(Debug, Clone)]
pub struct FolderInfo {
    pub path: String,
    /// Whether a snippet lies directly in this folder.
    pub has_snippets: bool,
    /// How many snippets lie directly in this folder.
    pub count: i64,
}

#[derive(Debug, Clone, Copy, PartialEq, Eq, Structural)]
pub enum SortOrder {
    Alphabetical,
    Usage,
}

#[derive(Debug, Clone, Copy)]
pub struct ImportResult {
    pub imported: usize,
    pub skipped_duplicates: usize,
}

/// A snippet that was edited locally and waits to be pushed.
#[derive(Debug, Clone)]
pub struct DirtySnippet {
    pub id: String,
    pub title: String,
    pub body: String,
    pub tags: Vec<String>,
    pub folder_path: Option<String>,
    /// None where the server has never seen the snippet.
    pub server_version: Option<i64>,
}

/// What a new snippet holds.
#[verifier::ext_equal]
pub struct NewSnippetView {
    pub title: Seq<char>,
    pub body: Seq<char>,
    pub tags: Seq<Seq<char>>,
    pub folder_path: Option<Seq<char>>,
}

impl View for NewSnippet {
    type V = NewSnippetView;

    open spec fn view(&self) -> NewSnippetView {
        NewSnippetView {
            title: self.title@,
            body: self.body@,
            tags: views(self.tags@),
            folder_path: opt_view(self.folder_path),
        }
    }
}

/// What a list of new snippets holds.
pub open spec fn new_snippet_views(l: Seq<NewSnippet>) -> Seq<NewSnippetView> {
    Seq::new(l.len(), |i: int| l[i]@)
}

/// One statement on the database.
#[derive(Debug)]
pub enum Change {
    /// Adds a folder row unless it is there.
    AddFolder { path: String, at: i64 },
    /// Adds a snippet, not yet pushed.
    InsertSnippet {
        id: String,
        title: String,
        body: String,
        tags: String,
        folder: Option<String>,
        at: i64,
    },
    /// Overwrites a snippet's content and marks it for the next push.
    UpdateSnippet {
        id: String,
        title: String,
        body: String,
        tags: String,
        folder: Option<String>,
        at: i64,
    },
    /// Drops the remembered variable values of a snippet.
    ForgetHistory { id: String },
    /// Drops a snippet.
    RemoveSnippet { id: String },
    /// Remembers that the server has to be told of a deletion.
    QueueDelete { id: String, at: i64 },
    /// Forgets a queued deletion.
    ClearQueued { id: String },
    /// Adds or overwrites a snippet with what the server has.
    UpsertRemote {
        id: String,
        title: String,
        body: String,
        tags: String,
        folder: Option<String>,
        version: i64,
        created_at: i64,
        updated_at: i64,
    },
    /// Replaces a path prefix in the folder rows.
    RenameFolders { old: String, new: String },
    /// Replaces a path prefix in the snippets, and marks them for the next push.
    RenameSnippets { old: String, new: String },
    /// Queues the deletion of every pushed snippet in a folder or below it.
    QueueDeletesUnder { path: String, at: i64 },
    /// Drops the remembered values of every snippet in a folder or below it.
    ForgetHistoryUnder { path: String },
    /// Drops every snippet in a folder or below it.
    RemoveSnippetsUnder { path: String },
    /// Moves every snippet in a folder or below it to the root.
    UnfileUnder { path: String },
    /// Drops a folder row and those below it.
    RemoveFoldersUnder { path: String },
    /// Counts a use of a snippet.
    RecordUse { id: String, at: i64 },
    /// Notes the version that the server has acknowledged.
    MarkSynced { id: String, version: i64 },
    /// Marks every snippet as never pushed, and forgets the queued deletions.
    ResetSync,
    /// Drops the team library.
    ClearTeam,
    /// Adds or overwrites a row of the team library.
    PutTeam {
        team_id: String,
        title: String,
        body: String,
        tags: String,
        folder: Option<String>,
        at: i64,
        version: i64,
    },
    /// Drops a row of the team library.
    RemoveTeam { team_id: String },
}

/// What a change says.
#[verifier::ext_equal]
pub enum ChangeView {
    AddFolder { path: Seq<char>, at: i64 },
    InsertSnippet { id: Seq<char>, row: RowView, at: i64 },
    UpdateSnippet { id: Seq<char>, row: RowView, at: i64 },
    ForgetHistory { id: Seq<char> },
    RemoveSnippet { id: Seq<char> },
    QueueDelete { id: Seq<char>, at: i64 },
    ClearQueued { id: Seq<char> },
    UpsertRemote { id: Seq<char>, row: RowView, version: i64, created_at: i64, updated_at: i64 },
    RenameFolders { old: Seq<char>, new: Seq<char> },
    RenameSnippets { old: Seq<char>, new: Seq<char> },
    QueueDeletesUnder { path: Seq<char>, at: i64 },
    ForgetHistoryUnder { path: Seq<char> },
    RemoveSnippetsUnder { path: Seq<char> },
    UnfileUnder { path: Seq<char> },
    RemoveFoldersUnder { path: Seq<char> },
    RecordUse { id: Seq<char>, at: i64 },
    MarkSynced { id: Seq<char>, version: i64 },
    ResetSync,
    ClearTeam,
    PutTeam { team_id: Seq<char>, row: RowView, at: i64, version: i64 },
    RemoveTeam { team_id: Seq<char> },
}

/// The content of a stored snippet.
#[verifier::ext_equal]
pub struct RowView {
    pub title: Seq<char>,
    pub body: Seq<char>,
    /// Encoded between commas.
    pub tags: Seq<char>,
    pub folder: Option<Seq<char>>,
}

impl View for Change {
    type V = ChangeView;

    open spec fn view(&self) -> ChangeView {
        match *self {
            Change::AddFolder { path, at } => ChangeView::AddFolder { path: path@, at },
            Change::InsertSnippet { id, title, body, tags, folder, at } => ChangeView::InsertSnippet {
                id: id@,
                row: RowView {
                    title: title@,
                    body: body@,
                    tags: tags@,
                    folder: opt_view(folder),
                },
                at,
            },
            Change::UpdateSnippet { id, title, body, tags, folder, at } => ChangeView::UpdateSnippet {
                id: id@,
                row: RowView {
                    title: title@,
                    body: body@,
                    tags: tags@,
                    folder: opt_view(folder),
                },
                at,
            },
            Change::ForgetHistory { id } => ChangeView::ForgetHistory { id: id@ },
            Change::RemoveSnippet { id } => ChangeView::RemoveSnippet { id: id@ },
            Change::QueueDelete { id, at } => ChangeView::QueueDelete { id: id@, at },
            Change::ClearQueued { id } => ChangeView::ClearQueued { id: id@ },
            Change::UpsertRemote {
                id,
                title,
                body,
                tags,
                folder,
                version,
                created_at,
                updated_at,
            } => ChangeView::UpsertRemote {
                id: id@,
                row: RowView {
                    title: title@,
                    body: body@,
                    tags: tags@,
                    folder: opt_view(folder),
                },
                version,
                created_at,
                updated_at,
            },
            Change::RenameFolders { old, new } => ChangeView::RenameFolders { old: old@, new: new@ },
            Change::RenameSnippets { old, new } => ChangeView::RenameSnippets {
                old: old@,
                new: new@,
            },
            Change::QueueDeletesUnder { path, at } => ChangeView::QueueDeletesUnder {
                path: path@,
                at,
            },
            Change::ForgetHistoryUnder { path } => ChangeView::ForgetHistoryUnder { path: path@ },
            Change::RemoveSnippetsUnder { path } => ChangeView::RemoveSnippetsUnder { path: path@ },
            Change::UnfileUnder { path } => ChangeView::UnfileUnder { path: path@ },
            Change::RemoveFoldersUnder { path } => ChangeView::RemoveFoldersUnder { path: path@ },
            Change::RecordUse { id, at } => ChangeView::RecordUse { id: id@, at },
            Change::MarkSynced { id, version } => ChangeView::MarkSynced { id: id@, version },
            Change::ResetSync => ChangeView::ResetSync,
            Change::ClearTeam => ChangeView::ClearTeam,
            Change::PutTeam { team_id, title, body, tags, folder, at, version } => ChangeView::PutTeam {
                team_id: team_id@,
                row: RowView {
                    title: title@,
                    body: body@,
                    tags: tags@,
                    folder: opt_view(folder),
                },
                at,
                version,
            },
            Change::RemoveTeam { team_id } => ChangeView::RemoveTeam { team_id: team_id@ },
        }
    }
}

/// What a list of changes says.
pub open spec fn change_views(l: Seq<Change>) -> Seq<ChangeView> {
    Seq::new(l.len(), |i: int| l[i]@)
}

/// How often a snippet was used here, and when last.
pub struct Uses {
    pub count: int,
    pub last: Option<i64>,
}

/// A snippet that was never used.
pub open spec fn unused() -> Uses {
    Uses { count: 0, last: None }
}

/// A stored snippet, with what the sync keeps of it.
pub struct StoredSnippet {
    pub row: RowView,
    pub server_version: Option<i64>,
    pub dirty: bool,
    pub uses: Uses,
    pub created_at: i64,
    pub updated_at: i64,
}

/// When a snippet was made; `given` for one that is not stored.
pub open spec fn made_at(st: Store, id: Seq<char>, given: i64) -> i64 {
    if st.snippets.dom().contains(id) {
        st.snippets[id].created_at
    } else {
        given
    }
}

/// The uses of a snippet; none of a snippet that is not stored.
pub open spec fn uses_of(st: Store, id: Seq<char>) -> Uses {
    if st.snippets.dom().contains(id) {
        st.snippets[id].uses
    } else {
        unused()
    }
}

/// What the database holds, as far as the changes touch it.
pub struct Store {
    pub snippets: Map<Seq<char>, StoredSnippet>,
    pub folders: Set<Seq<char>>,
    pub pending_deletes: Set<Seq<char>>,
    /// The snippets with remembered variable values.
    pub history: Set<Seq<char>>,
    /// The team library.
    pub team: Map<Seq<char>, RowView>,
}

/// Whether `path` is `base` or lies below it.
pub open spec fn at_or_below(path: Seq<char>, base: Seq<char>) -> bool {
    path == base || (base + slash()).is_prefix_of(path)
}

/// `path` with the prefix `old` replaced by `new`, where it lies there.
pub open spec fn renamed(path: Seq<char>, old: Seq<char>, new: Seq<char>) -> Seq<char> {
    if at_or_below(path, old) {
        new + path.skip(old.len() as int)
    } else {
        path
    }
}

/// Whether a stored snippet lies in a folder or below it.
pub open spec fn stored_under(s: StoredSnippet, base: Seq<char>) -> bool {
    s.row.folder matches Some(f) && at_or_below(f, base)
}

/// What a change does to the store.
pub open spec fn apply(st: Store, c: ChangeView) -> Store {
    match c {
        ChangeView::AddFolder { path, at } => Store { folders: st.folders.insert(path), ..st },
        ChangeView::InsertSnippet { id, row, at } => Store {
            snippets: st.snippets.insert(
                id,
                StoredSnippet {
                    row,
                    server_version: None,
                    dirty: true,
                    uses: unused(),
                    created_at: at,
                    updated_at: at,
                },
            ),
            ..st
        },
        ChangeView::UpdateSnippet { id, row, at } => if st.snippets.dom().contains(id) {
            Store {
                snippets: st.snippets.insert(
                    id,
                    StoredSnippet { row, dirty: true, updated_at: at, ..st.snippets[id] },
                ),
                ..st
            }
        } else {
            st
        },
        ChangeView::ForgetHistory { id } => Store { history: st.history.remove(id), ..st },
        ChangeView::RemoveSnippet { id } => Store { snippets: st.snippets.remove(id), ..st },
        ChangeView::QueueDelete { id, at } => Store {
            pending_deletes: st.pending_deletes.insert(id),
            ..st
        },
        ChangeView::ClearQueued { id } => Store {
            pending_deletes: st.pending_deletes.remove(id),
            ..st
        },
        ChangeView::UpsertRemote { id, row, version, created_at, updated_at } => Store {
            snippets: st.snippets.insert(
                id,
                StoredSnippet {
                    row,
                    server_version: Some(version),
                    dirty: false,
                    uses: uses_of(st, id),
                    created_at: made_at(st, id, created_at),
                    updated_at,
                },
            ),
            ..st
        },
        ChangeView::RenameFolders { old, new } => Store {
            folders: Set::new(
                |p: Seq<char>| exists|q: Seq<char>| st.folders.contains(q) && p == #[trigger] renamed(q, old, new),
            ),
            ..st
        },
        ChangeView::RenameSnippets { old, new } => Store {
            snippets: st.snippets.map_values(
                |s: StoredSnippet|
                    if stored_under(s, old) {
                        StoredSnippet {
                            row: RowView {
                                folder: Some(renamed(s.row.folder->0, old, new)),
                                ..s.row
                            },
                            dirty: true,
                            ..s
                        }
                    } else {
                        s
                    },
            ),
            ..st
        },
        ChangeView::QueueDeletesUnder { path, at } => Store {
            pending_deletes: st.pending_deletes.union(
                Set::new(
                    |id: Seq<char>|
                        st.snippets.dom().contains(id) && stored_under(st.snippets[id], path)
                            && st.snippets[id].server_version is Some,
                ),
            ),
            ..st
        },
        ChangeView::ForgetHistoryUnder { path } => Store {
            history: st.history.difference(
                Set::new(
                    |id: Seq<char>|
                        st.snippets.dom().contains(id) && stored_under(st.snippets[id], path),
                ),
            ),
            ..st
        },
        ChangeView::RemoveSnippetsUnder { path } => Store {
            snippets: st.snippets.restrict(
                Set::new(|id: Seq<char>| !stored_under(st.snippets[id], path)),
            ),
            ..st
        },
        ChangeView::UnfileUnder { path } => Store {
            snippets: st.snippets.map_values(
                |s: StoredSnippet|
                    if stored_under(s, path) {
                        StoredSnippet { row: RowView { folder: None, ..s.row }, dirty: true, ..s }
                    } else {
                        s
                    },
            ),
            ..st
        },
        ChangeView::RemoveFoldersUnder { path } => Store {
            folders: st.folders.difference(Set::new(|p: Seq<char>| at_or_below(p, path))),
            ..st
        },
        ChangeView::RecordUse { id, at } => if st.snippets.dom().contains(id) {
            Store {
                snippets: st.snippets.insert(
                    id,
                    StoredSnippet {
                        uses: Uses { count: st.snippets[id].uses.count + 1, last: Some(at) },
                        ..st.snippets[id]
                    },
                ),
                ..st
            }
        } else {
            st
        },
        ChangeView::MarkSynced { id, version } => if st.snippets.dom().contains(id) {
            Store {
                snippets: st.snippets.insert(
                    id,
                    StoredSnippet {
                        server_version: Some(version),
                        dirty: false,
                        ..st.snippets[id]
                    },
                ),
                ..st
            }
        } else {
            st
        },
        ChangeView::ResetSync => Store {
            snippets: st.snippets.map_values(
                |s: StoredSnippet| StoredSnippet { server_version: None, dirty: true, ..s },
            ),
            pending_deletes: Set::empty(),
            ..st
        },
        ChangeView::ClearTeam => Store { team: Map::empty(), ..st },
        ChangeView::PutTeam { team_id, row, at, version } => Store {
            team: st.team.insert(team_id, row),
            ..st
        },
        ChangeView::RemoveTeam { team_id } => Store { team: st.team.remove(team_id), ..st },
    }
}

/// What a list of changes does to the store.
pub open spec fn apply_all(st: Store, l: Seq<ChangeView>) -> Store
    decreases l.len(),
{
    if l.len() == 0 {
        st
    } else {
        apply(apply_all(st, l.drop_last()), l.last())
    }
}

fn push_change(l: &mut Vec<Change>, c: Change)
    ensures
        change_views(final(l)@) == change_views(old(l)@).push(c@),
{
    let ghost before = l@;
    l.push(c);
    assert(change_views(l@) =~= change_views(before).push(c@));
}

/// The changes that make sure that the folders of `paths` exist.
pub open spec fn folder_changes(paths: Seq<Seq<char>>, at: i64) -> Seq<ChangeView> {
    Seq::new(paths.len(), |i: int| ChangeView::AddFolder { path: paths[i], at })
}

/// The changes that make sure that a folder and its ancestors exist.
pub open spec fn ensure_changes(folder: Option<Seq<char>>, at: i64) -> Seq<ChangeView> {
    match folder {
        Some(f) => folder_changes(ancestors(f), at),
        None => Seq::empty(),
    }
}

fn push_folders(l: &mut Vec<Change>, path: &str, at: i64)
    ensures
        change_views(final(l)@) == change_views(old(l)@) + folder_changes(ancestors(path@), at),
{
    let all: Vec<String> = path_ancestors(path);
    let n: usize = all.len();
    let ghost before = change_views(l@);
    let ghost fc = folder_changes(ancestors(path@), at);
    assert(before + fc.take(0) =~= before);
    for i in 0..n
        invariant
            n == all@.len(),
            views(all@) == ancestors(path@),
            fc == folder_changes(ancestors(path@), at),
            change_views(l@) == before + fc.take(i as int),
    {
        assert(views(all@)[i as int] == all@[i as int]@);
        push_change(l, Change::AddFolder { path: copy_text(all[i].as_str()), at });
        assert(before + fc.take(i + 1) =~= (before + fc.take(i as int)).push(fc[i as int]));
    }
    assert(fc.take(n as int) =~= fc);
}

fn push_opt_folders(l: &mut Vec<Change>, folder: &Option<String>, at: i64)
    ensures
        change_views(final(l)@) == change_views(old(l)@) + ensure_changes(opt_view(*folder), at),
{
    match folder {
        Some(f) => push_folders(l, f.as_str(), at),
        None => {
            assert(change_views(l@) + Seq::<ChangeView>::empty() =~= change_views(l@));
        },
    }
}

/// The folder of an optional path, borrowed.
fn borrow_folder(f: &Option<String>) -> (r: Option<&str>)
    ensures
        opt_str_view(r) == opt_view(*f),
{
    match f {
        Some(s) => Some(s.as_str()),
        None => None,
    }
}

/// How a new or changed snippet is stored.
pub open spec fn stored_row(
    title: Seq<char>,
    body: Seq<char>,
    tags: Seq<Seq<char>>,
    folder: Option<Seq<char>>,
) -> RowView {
    RowView { title, body, tags: encoded_tags(tags), folder: normalized_folder(folder) }
}

/// The changes that create a snippet with a given id and time.
pub open spec fn create_changes(input: NewSnippetView, id: Seq<char>, now: i64) -> Seq<ChangeView> {
    let row = stored_row(input.title, input.body, input.tags, input.folder_path);
    ensure_changes(row.folder, now).push(ChangeView::InsertSnippet { id, row, at: now })
}

/// Plans a new snippet: its folder is made sure of, then the row is added.
pub fn plan_create(input: &NewSnippet, id: &str, now: i64) -> (r: Vec<Change>)
    ensures
        change_views(r@) == create_changes(input@, id@, now),
{
    let mut out: Vec<Change> = Vec::new();
    assert(change_views(out@) =~= Seq::<ChangeView>::empty());
    let tags = encode_tags(&input.tags);
    let folder = normalize_folder(borrow_folder(&input.folder_path));
    push_opt_folders(&mut out, &folder, now);
    assert(change_views(out@) =~= ensure_changes(opt_view(folder), now));
    push_change(
        &mut out,
        Change::InsertSnippet {
            id: copy_text(id),
            title: copy_text(input.title.as_str()),
            body: copy_text(input.body.as_str()),
            tags,
            folder,
            at: now,
        },
    );
    out
}

/// Whether a list of changes creates a snippet under an id, at some time.
pub open spec fn creates(l: Seq<ChangeView>, input: NewSnippetView, id: Seq<char>) -> bool {
    exists|now: i64| l == #[trigger] create_changes(input, id, now)
}

/// Plans a new snippet with a fresh id, as of now. The id comes with the plan.
pub fn create(input: &NewSnippet) -> (r: (String, Vec<Change>))
    ensures
        creates(change_views(r.1@), input@, r.0@),
        uuid_form(r.0@),
{
    let id = new_uuid();
    let now: i64 = utc_now();
    let plan = plan_create(input, id.as_str(), now);
    assert(change_views(plan@) == create_changes(input@, id@, now));
    (id, plan)
}

/// The changes that overwrite a snippet.
pub open spec fn update_changes(
    id: Seq<char>,
    title: Seq<char>,
    body: Seq<char>,
    tags: Seq<Seq<char>>,
    folder: Option<Seq<char>>,
    now: i64,
) -> Seq<ChangeView> {
    let row = stored_row(title, body, tags, folder);
    ensure_changes(row.folder, now).push(ChangeView::UpdateSnippet { id, row, at: now })
}

/// Plans an edit: the folder is made sure of, then the row is overwritten and
/// marked for the next push.
pub fn plan_update(id: &str, input: &UpdateSnippet, now: i64) -> (r: Vec<Change>)
    ensures
        change_views(r@) == update_changes(
            id@,
            input.title@,
            input.body@,
            views(input.tags@),
            opt_view(input.folder_path),
            now,
        ),
{
    let mut out: Vec<Change> = Vec::new();
    assert(change_views(out@) =~= Seq::<ChangeView>::empty());
    let tags = encode_tags(&input.tags);
    let folder = normalize_folder(borrow_folder(&input.folder_path));
    push_opt_folders(&mut out, &folder, now);
    assert(change_views(out@) =~= ensure_changes(opt_view(folder), now));
    push_change(
        &mut out,
        Change::UpdateSnippet {
            id: copy_text(id),
            title: copy_text(input.title.as_str()),
            body: copy_text(input.body.as_str()),
            tags,
            folder,
            at: now,
        },
    );
    out
}

/// The changes that delete a snippet. Only a snippet that the server knows leaves
/// a queued deletion.
pub open spec fn delete_changes(id: Seq<char>, server_version: Option<i64>, now: i64) -> Seq<
    ChangeView,
> {
    let drop = seq![ChangeView::ForgetHistory { id }, ChangeView::RemoveSnippet { id }];
    if server_version is Some {
        drop.push(ChangeView::QueueDelete { id, at: now })
    } else {
        drop
    }
}

/// Plans the deletion of a snippet, given the version that the server has of it;
/// none where it was never pushed.
pub fn plan_delete(id: &str, server_version: Option<i64>, now: i64) -> (r: Vec<Change>)
    ensures
        change_views(r@) == delete_changes(id@, server_version, now),
{
    let mut out: Vec<Change> = Vec::new();
    assert(change_views(out@) =~= Seq::<ChangeView>::empty());
    push_change(&mut out, Change::ForgetHistory { id: copy_text(id) });
    push_change(&mut out, Change::RemoveSnippet { id: copy_text(id) });
    assert(change_views(out@) =~= seq![
        ChangeView::ForgetHistory { id: id@ },
        ChangeView::RemoveSnippet { id: id@ },
    ]);
    if server_version.is_some() {
        push_change(&mut out, Change::QueueDelete { id: copy_text(id), at: now });
    }
    out
}

/// What a copy of a snippet is created from.
pub fn duplicate_of(src: &Snippet) -> (r: NewSnippet)
    ensures
        r.title@ == src.title@ + " (copy)"@,
        r.body@ == src.body@,
        views(r.tags@) == views(src.tags@),
        opt_view(r.folder_path) == opt_view(src.folder_path),
{
    let mut title: String = copy_text(src.title.as_str());
    title.push_str(" (copy)");
    NewSnippet {
        title,
        body: copy_text(src.body.as_str()),
        tags: copy_texts(&src.tags),
        folder_path: copy_opt(&src.folder_path),
    }
}

/// A query with the values of its numbered placeholders.
#[derive(Debug)]
pub struct Query {
    pub sql: String,
    pub params: Vec<String>,
}

/// The columns of a snippet, in the order that rows are read in.
pub const SNIPPET_COLUMNS: &'static str =
    "SELECT id, title, body, tags, folder_path, usage_count, last_used, created_at, updated_at \
             FROM snippets";

/// Whether a filter is given at all.
pub open spec fn given(s: Option<Seq<char>>) -> bool {
    s matches Some(t) && trimmed(t).len() > 0
}

/// The condition on the folder, where the next placeholder is `next`.
pub open spec fn folder_condition(folder: Option<Seq<char>>, next: nat) -> Seq<char> {
    if !given(folder) {
        Seq::empty()
    } else if folder == Some("__root__"@) {
        " AND (folder_path IS NULL OR folder_path = '')"@
    } else {
        " AND (folder_path = ?"@ + decimal(next) + " OR folder_path LIKE ?"@ + decimal(next + 1)
            + ")"@
    }
}

/// The values of the folder condition.
pub open spec fn folder_params(folder: Option<Seq<char>>) -> Seq<Seq<char>> {
    if !given(folder) || folder == Some("__root__"@) {
        Seq::empty()
    } else {
        seq![folder->0, folder->0 + "/%"@]
    }
}

/// The order of a list.
pub open spec fn order_clause(sort: SortOrder) -> Seq<char> {
    match sort {
        SortOrder::Usage => " ORDER BY usage_count DESC, updated_at DESC, title ASC"@,
        SortOrder::Alphabetical => " ORDER BY title COLLATE NOCASE ASC, updated_at DESC"@,
    }
}

/// The condition on the searched text.
pub open spec fn text_condition(query: Option<Seq<char>>) -> Seq<char> {
    if given(query) {
        " AND (LOWER(title) LIKE ?1 OR LOWER(body) LIKE ?1 OR LOWER(tags) LIKE ?1)"@
    } else {
        Seq::empty()
    }
}

/// The value of the condition on the searched text.
pub open spec fn text_params(query: Option<Seq<char>>) -> Seq<Seq<char>> {
    if given(query) {
        seq!["%"@ + lowercase_text(query->0) + "%"@]
    } else {
        Seq::empty()
    }
}

/// The condition on the tag, where the next placeholder is `next`.
pub open spec fn tag_condition(tag: Option<Seq<char>>, next: nat) -> Seq<char> {
    if given(tag) {
        " AND LOWER(tags) LIKE ?"@ + decimal(next)
    } else {
        Seq::empty()
    }
}

/// The value of the condition on the tag.
pub open spec fn tag_params(tag: Option<Seq<char>>) -> Seq<Seq<char>> {
    if given(tag) {
        seq!["%,"@ + lowercase_text(tag->0) + ",%"@]
    } else {
        Seq::empty()
    }
}

/// The text of a list query.
pub open spec fn list_sql(
    query: Option<Seq<char>>,
    tag: Option<Seq<char>>,
    folder: Option<Seq<char>>,
    sort: SortOrder,
) -> Seq<char> {
    let a = text_params(query).len();
    let b = a + tag_params(tag).len();
    SNIPPET_COLUMNS@ + " WHERE 1=1"@ + text_condition(query) + tag_condition(tag, a + 1)
        + folder_condition(folder, b + 1) + order_clause(sort)
}

/// The values of a list query.
pub open spec fn list_params(
    query: Option<Seq<char>>,
    tag: Option<Seq<char>>,
    folder: Option<Seq<char>>,
) -> Seq<Seq<char>> {
    text_params(query) + tag_params(tag) + folder_params(folder)
}

fn is_given(s: Option<&str>) -> (r: bool)
    ensures
        r == given(opt_str_view(s)),
{
    match s {
        Some(t) => !is_blank(t),
        None => false,
    }
}

fn between_marks(before: &str, s: &str, after: &str) -> (r: String)
    ensures
        r@ == before@ + s@ + after@,
{
    let mut out: String = copy_text(before);
    out.push_str(s);
    out.push_str(after);
    out
}

fn no_condition() -> (r: (String, Vec<String>))
    ensures
        r.0@ == Seq::<char>::empty(),
        views(r.1@) == Seq::<Seq<char>>::empty(),
{
    let sql: String = String::new();
    let params: Vec<String> = Vec::new();
    assert(sql@ =~= Seq::<char>::empty());
    assert(views(params@) =~= Seq::<Seq<char>>::empty());
    (sql, params)
}

fn text_part(query: Option<&str>) -> (r: (String, Vec<String>))
    ensures
        r.0@ == text_condition(opt_str_view(query)),
        views(r.1@) == text_params(opt_str_view(query)),
{
    if is_given(query) {
        if let Some(q) = query {
            let l = str_to_lowercase(q);
            let mut params: Vec<String> = Vec::new();
            push_text(&mut params, between_marks("%", l.as_str(), "%"));
            assert(views(params@) =~= text_params(opt_str_view(query)));
            return (
                " AND (LOWER(title) LIKE ?1 OR LOWER(body) LIKE ?1 OR LOWER(tags) LIKE ?1)".to_owned(),
                params,
            );
        }
    }
    no_condition()
}

fn tag_part(tag: Option<&str>, next: usize) -> (r: (String, Vec<String>))
    ensures
        r.0@ == tag_condition(opt_str_view(tag), next as nat),
        views(r.1@) == tag_params(opt_str_view(tag)),
{
    if is_given(tag) {
        if let Some(t) = tag {
            let idx = count_text(next);
            let mut sql: String = " AND LOWER(tags) LIKE ?".to_owned();
            sql.push_str(idx.as_str());
            let l = str_to_lowercase(t);
            let mut params: Vec<String> = Vec::new();
            push_text(&mut params, between_marks("%,", l.as_str(), ",%"));
            assert(views(params@) =~= tag_params(opt_str_view(tag)));
            return (sql, params);
        }
    }
    no_condition()
}

fn folder_part(folder: Option<&str>, next: usize) -> (r: (String, Vec<String>))
    requires
        next < usize::MAX,
    ensures
        r.0@ == folder_condition(opt_str_view(folder), next as nat),
        views(r.1@) == folder_params(opt_str_view(folder)),
{
    if is_given(folder) {
        if let Some(f) = folder {
            if same_text(f, "__root__") {
                let mut params: Vec<String> = Vec::new();
                assert(views(params@) =~= Seq::<Seq<char>>::empty());
                return (" AND (folder_path IS NULL OR folder_path = '')".to_owned(), params);
            }
            let i1 = count_text(next);
            let i2 = count_text(next + 1);
            let mut sql: String = " AND (folder_path = ?".to_owned();
            sql.push_str(i1.as_str());
            sql.push_str(" OR folder_path LIKE ?");
            sql.push_str(i2.as_str());
            sql.push_str(")");
            let mut below: String = copy_text(f);
            below.push_str("/%");
            let mut params: Vec<String> = Vec::new();
            push_text(&mut params, copy_text(f));
            push_text(&mut params, below);
            assert(views(params@) =~= folder_params(opt_str_view(folder)));
            return (sql, params);
        }
    }
    no_condition()
}

/// The query that lists snippets by search text, tag and folder. `__root__` as a
/// folder stands for snippets without one.
pub fn list_query(
    query: Option<&str>,
    tag: Option<&str>,
    folder: Option<&str>,
    sort: SortOrder,
) -> (r: Query)
    ensures
        r.sql@ == list_sql(opt_str_view(query), opt_str_view(tag), opt_str_view(folder), sort),
        views(r.params@) == list_params(
            opt_str_view(query),
            opt_str_view(tag),
            opt_str_view(folder),
        ),
{
    let (text_sql, mut params) = text_part(query);
    assert(views(params@).len() == params@.len());
    let a: usize = params.len();
    let (tag_sql, tag_values) = tag_part(tag, a + 1);
    append_texts(&mut params, &tag_values);
    assert(views(params@).len() == params@.len());
    let b: usize = params.len();
    let (folder_sql, folder_values) = folder_part(folder, b + 1);
    append_texts(&mut params, &folder_values);
    let mut sql: String = SNIPPET_COLUMNS.to_owned();
    sql.push_str(" WHERE 1=1");
    sql.push_str(text_sql.as_str());
    sql.push_str(tag_sql.as_str());
    sql.push_str(folder_sql.as_str());
    match sort {
        SortOrder::Usage => sql.push_str(" ORDER BY usage_count DESC, updated_at DESC, title ASC"),
        SortOrder::Alphabetical => sql.push_str(
            " ORDER BY title COLLATE NOCASE ASC, updated_at DESC",
        ),
    }
    Query { sql, params }
}

/// A folder column; empty counts as none.
pub open spec fn folder_column(f: Option<Seq<char>>) -> Option<Seq<char>> {
    match f {
        Some(s) => if s.len() == 0 {
            None
        } else {
            Some(s)
        },
        None => None,
    }
}

/// A folder column; empty counts as none.
pub fn folder_of_column(f: Option<String>) -> (r: Option<String>)
    ensures
        opt_view(r) == folder_column(opt_view(f)),
{
    match f {
        Some(s) => if s.as_str().unicode_len() == 0 {
            None
        } else {
            Some(s)
        },
        None => None,
    }
}

/// The snippet of a row, in the order of `SNIPPET_COLUMNS`.
pub fn row_to_snippet(
    id: String,
    title: String,
    body: String,
    tags: &str,
    folder: Option<String>,
    usage_count: i64,
    last_used: Option<i64>,
    created_at: i64,
    updated_at: i64,
) -> (r: Snippet)
    ensures
        r.id@ == id@,
        r.title@ == title@,
        r.body@ == body@,
        views(r.tags@) == decoded_tags(tags@),
        opt_view(r.folder_path) == folder_column(opt_view(folder)),
        r.usage_count == usage_count,
        r.last_used == last_used,
        r.created_at == created_at,
        r.updated_at == updated_at,
{
    Snippet {
        id,
        title,
        body,
        tags: decode_tags(tags),
        folder_path: folder_of_column(folder),
        usage_count,
        last_used,
        created_at,
        updated_at,
    }
}

/// The edited snippet of a row.
pub fn row_to_dirty(
    id: String,
    title: String,
    body: String,
    tags: &str,
    folder: Option<String>,
    server_version: Option<i64>,
) -> (r: DirtySnippet)
    ensures
        r.id@ == id@,
        r.title@ == title@,
        r.body@ == body@,
        views(r.tags@) == decoded_tags(tags@),
        opt_view(r.folder_path) == folder_column(opt_view(folder)),
        r.server_version == server_version,
{
    DirtySnippet {
        id,
        title,
        body,
        tags: decode_tags(tags),
        folder_path: folder_of_column(folder),
        server_version,
    }
}

/// A team snippet as a snippet, under the id `team:<id>`.
pub fn team_row_to_snippet(
    team_id: &str,
    title: String,
    body: String,
    tags: &str,
    folder: Option<String>,
    fetched_at: i64,
) -> (r: Snippet)
    ensures
        r.id@ == "team:"@ + team_id@,
        r.title@ == title@,
        r.body@ == body@,
        views(r.tags@) == decoded_tags(tags@),
        opt_view(r.folder_path) == opt_view(folder),
        r.usage_count == 0,
        r.last_used is None,
        r.created_at == fetched_at,
        r.updated_at == fetched_at,
{
    let mut id: String = "team:".to_owned();
    id.push_str(team_id);
    Snippet {
        id,
        title,
        body,
        tags: decode_tags(tags),
        folder_path: folder,
        usage_count: 0,
        last_used: None,
        created_at: fetched_at,
        updated_at: fetched_at,
    }
}

/// The tags of all rows, one after the other.
pub open spec fn all_tags(rows: Seq<Seq<char>>) -> Seq<Seq<char>>
    decreases rows.len(),
{
    if rows.len() == 0 {
        Seq::empty()
    } else {
        all_tags(rows.drop_last()) + decoded_tags(rows.last())
    }
}

/// The distinct tags of stored tag columns, in order.
pub fn list_tags(rows: &Vec<String>) -> (r: Vec<String>)
    ensures
        views(r@) == sorted_distinct(all_tags(views(rows@))),
{
    let n: usize = rows.len();
    let mut all: Vec<String> = Vec::new();
    assert(views(all@) =~= Seq::<Seq<char>>::empty());
    assert(views(rows@).take(0) =~= Seq::<Seq<char>>::empty());
    for i in 0..n
        invariant
            n == rows@.len(),
            views(all@) == all_tags(views(rows@).take(i as int)),
    {
        let t: Vec<String> = decode_tags(rows[i].as_str());
        append_texts(&mut all, &t);
        proof {
            let next = views(rows@).take(i + 1);
            assert(next.drop_last() =~= views(rows@).take(i as int));
            assert(next.last() == rows@[i as int]@);
        }
    }
    assert(views(rows@).take(n as int) =~= views(rows@));
    sort_distinct(&all)
}

/// The paths of counted folders.
pub open spec fn counted_paths(counts: Seq<(String, i64)>) -> Seq<Seq<char>> {
    Seq::new(counts.len(), |i: int| counts[i].0@)
}

/// The count of the last entry with this path; zero where there is none.
pub open spec fn count_at(counts: Seq<(String, i64)>, path: Seq<char>) -> i64
    decreases counts.len(),
{
    if counts.len() == 0 {
        0
    } else if counts.last().0@ == path {
        counts.last().1
    } else {
        count_at(counts.drop_last(), path)
    }
}

fn find_count(counts: &Vec<(String, i64)>, path: &str) -> (r: i64)
    ensures
        r == count_at(counts@, path@),
{
    let mut i: usize = counts.len();
    assert(counts@.take(i as int) =~= counts@);
    while i > 0
        invariant
            i <= counts@.len(),
            count_at(counts@, path@) == count_at(counts@.take(i as int), path@),
        decreases i,
    {
        proof {
            let t = counts@.take(i as int);
            assert(t.drop_last() =~= counts@.take(i - 1));
            assert(t.last() == counts@[i - 1]);
        }
        if same_text(counts[i - 1].0.as_str(), path) {
            return counts[i - 1].1;
        }
        i = i - 1;
    }
    0
}

/// The folders to list: the explicit ones, those that snippets lie in, and every
/// ancestor of either.
pub open spec fn folder_paths(explicit: Seq<Seq<char>>, counts: Seq<(String, i64)>) -> Seq<
    Seq<char>,
> {
    sorted_distinct(all_ancestors(explicit) + all_ancestors(counted_paths(counts)))
}

/// Lists folders in order: explicit rows and those that snippets lie in, with
/// every missing parent, each with its direct snippet count.
pub fn list_folders(explicit: &Vec<String>, counts: &Vec<(String, i64)>) -> (r: Vec<FolderInfo>)
    ensures
        r@.len() == folder_paths(views(explicit@), counts@).len(),
        forall|i: int|
            0 <= i < r@.len() ==> (#[trigger] r@[i]).path@ == folder_paths(
                views(explicit@),
                counts@,
            )[i] && r@[i].count == count_at(counts@, r@[i].path@) && r@[i].has_snippets == (
            r@[i].count > 0),
{
    let mut all: Vec<String> = ancestors_of_all(explicit);
    let mut counted: Vec<String> = Vec::new();
    let m: usize = counts.len();
    for i in 0..m
        invariant
            m == counts@.len(),
            views(counted@) =~= counted_paths(counts@).take(i as int),
    {
        push_text(&mut counted, copy_text(counts[i].0.as_str()));
        assert(counted_paths(counts@).take(i + 1) =~= counted_paths(counts@).take(i as int).push(
            counts@[i as int].0@,
        ));
    }
    assert(counted_paths(counts@).take(m as int) =~= counted_paths(counts@));
    let more: Vec<String> = ancestors_of_all(&counted);
    append_texts(&mut all, &more);
    let paths: Vec<String> = sort_distinct(&all);
    let ghost fp = folder_paths(views(explicit@), counts@);
    assert(views(paths@) == fp);
    assert(views(paths@).len() == paths@.len());
    let n: usize = paths.len();
    let mut out: Vec<FolderInfo> = Vec::new();
    for i in 0..n
        invariant
            n == paths@.len(),
            n == fp.len(),
            views(paths@) == fp,
            out@.len() == i,
            forall|k: int|
                0 <= k < out@.len() ==> (#[trigger] out@[k]).path@ == fp[k] && out@[k].count
                    == count_at(counts@, out@[k].path@) && out@[k].has_snippets == (out@[k].count
                    > 0),
    {
        let p = copy_text(paths[i].as_str());
        assert(fp[i as int] == paths@[i as int]@);
        let count: i64 = find_count(counts, p.as_str());
        out.push(FolderInfo { path: p, has_snippets: count > 0, count });
    }
    out
}

/// Every listed folder's parents are listed too, and the list is in order without
/// repeats.
pub proof fn law_listed_folders_have_their_parents(
    explicit: Seq<Seq<char>>,
    counts: Seq<(String, i64)>,
    p: Seq<char>,
    i: int,
)
    requires
        explicit.contains(p) || counted_paths(counts).contains(p),
        0 <= i < ancestors(p).len(),
    ensures
        folder_paths(explicit, counts).contains(ancestors(p)[i]),
        ascending(folder_paths(explicit, counts)),
{
    let a = all_ancestors(explicit);
    let b = all_ancestors(counted_paths(counts));
    law_sorted_distinct(a + b);
    if explicit.contains(p) {
        lemma_ancestor_listed(explicit, p, i);
        let k = choose|k: int| 0 <= k < a.len() && a[k] == ancestors(p)[i];
        assert((a + b)[k] == ancestors(p)[i]);
    } else {
        lemma_ancestor_listed(counted_paths(counts), p, i);
        let k = choose|k: int| 0 <= k < b.len() && b[k] == ancestors(p)[i];
        assert((a + b)[a.len() + k] == ancestors(p)[i]);
    }
    assert((a + b).contains(ancestors(p)[i]));
}

/// Plans a new folder with its ancestors; an empty path is refused.
pub fn plan_create_folder(path: &str, now: i64) -> (r: Result<Vec<Change>, String>)
    ensures
        match r {
            Ok(l) => normalized(path@).len() > 0 && change_views(l@) == folder_changes(
                ancestors(normalized(path@)),
                now,
            ),
            Err(e) => normalized(path@).len() == 0 && e@ == "folder path cannot be empty"@,
        },
{
    let p = normalize_path(path);
    if p.as_str().unicode_len() == 0 {
        return Err("folder path cannot be empty".to_owned());
    }
    let mut out: Vec<Change> = Vec::new();
    push_folders(&mut out, p.as_str(), now);
    assert(change_views(out@) =~= folder_changes(ancestors(normalized(path@)), now));
    Ok(out)
}

/// The changes that rename a folder.
pub open spec fn rename_changes(old: Seq<char>, new: Seq<char>, now: i64) -> Seq<ChangeView> {
    if old == new {
        Seq::empty()
    } else {
        seq![
            ChangeView::RenameFolders { old, new },
            ChangeView::RenameSnippets { old, new },
        ] + folder_changes(ancestors(new), now)
    }
}

/// Plans the renaming of a folder: its path is replaced, as a prefix, in the
/// folders and in the snippets, and the new path's ancestors are made sure of.
pub fn plan_rename_folder(old_path: &str, new_path: &str, now: i64) -> (r: Result<
    Vec<Change>,
    String,
>)
    ensures
        ({
            let old = normalized(old_path@);
            let new = normalized(new_path@);
            match r {
                Ok(l) => old.len() > 0 && new.len() > 0 && change_views(l@) == rename_changes(
                    old,
                    new,
                    now,
                ),
                Err(e) => (old.len() == 0 || new.len() == 0) && e@
                    == "folder paths cannot be empty"@,
            }
        }),
{
    let old = normalize_path(old_path);
    let new = normalize_path(new_path);
    if old.as_str().unicode_len() == 0 || new.as_str().unicode_len() == 0 {
        return Err("folder paths cannot be empty".to_owned());
    }
    let mut out: Vec<Change> = Vec::new();
    assert(change_views(out@) =~= Seq::<ChangeView>::empty());
    if same_text(old.as_str(), new.as_str()) {
        return Ok(out);
    }
    push_change(
        &mut out,
        Change::RenameFolders { old: copy_text(old.as_str()), new: copy_text(new.as_str()) },
    );
    push_change(
        &mut out,
        Change::RenameSnippets { old: copy_text(old.as_str()), new: copy_text(new.as_str()) },
    );
    assert(change_views(out@) =~= seq![
        ChangeView::RenameFolders { old: old@, new: new@ },
        ChangeView::RenameSnippets { old: old@, new: new@ },
    ]);
    push_folders(&mut out, new.as_str(), now);
    Ok(out)
}

/// How many characters of a path a prefix replacement cuts off, counted from one
/// as SQL's `SUBSTR` does.
pub fn suffix_start(old: &str) -> (r: usize)
    requires
        old@.len() < usize::MAX,
    ensures
        r == old@.len() + 1,
{
    old.unicode_len() + 1
}

/// The changes that delete a folder.
pub open spec fn delete_folder_changes(path: Seq<char>, delete_snippets: bool, now: i64) -> Seq<
    ChangeView,
> {
    (if delete_snippets {
        seq![
            ChangeView::QueueDeletesUnder { path, at: now },
            ChangeView::ForgetHistoryUnder { path },
            ChangeView::RemoveSnippetsUnder { path },
        ]
    } else {
        seq![ChangeView::UnfileUnder { path }]
    }).push(ChangeView::RemoveFoldersUnder { path })
}

/// Plans the deletion of a folder and those below it. Its snippets are deleted
/// too, or move to the root.
pub fn plan_delete_folder(path: &str, delete_snippets: bool, now: i64) -> (r: Result<
    Vec<Change>,
    String,
>)
    ensures
        match r {
            Ok(l) => normalized(path@).len() > 0 && change_views(l@) == delete_folder_changes(
                normalized(path@),
                delete_snippets,
                now,
            ),
            Err(e) => normalized(path@).len() == 0 && e@ == "folder path cannot be empty"@,
        },
{
    let p = normalize_path(path);
    if p.as_str().unicode_len() == 0 {
        return Err("folder path cannot be empty".to_owned());
    }
    let mut out: Vec<Change> = Vec::new();
    assert(change_views(out@) =~= Seq::<ChangeView>::empty());
    if delete_snippets {
        push_change(&mut out, Change::QueueDeletesUnder { path: copy_text(p.as_str()), at: now });
        push_change(&mut out, Change::ForgetHistoryUnder { path: copy_text(p.as_str()) });
        push_change(&mut out, Change::RemoveSnippetsUnder { path: copy_text(p.as_str()) });
    } else {
        push_change(&mut out, Change::UnfileUnder { path: copy_text(p.as_str()) });
    }
    push_change(&mut out, Change::RemoveFoldersUnder { path: copy_text(p.as_str()) });
    assert(change_views(out@) =~= delete_folder_changes(normalized(path@), delete_snippets, now));
    Ok(out)
}

/// The changes that take over a snippet from the server.
pub open spec fn remote_changes(
    id: Seq<char>,
    row: RowView,
    version: i64,
    created_at: i64,
    updated_at: i64,
    now: i64,
) -> Seq<ChangeView> {
    ensure_changes(row.folder, now).push(
        ChangeView::UpsertRemote { id, row, version, created_at, updated_at },
    )
}

/// Plans taking over a snippet from the server: it is added or overwritten, and
/// no longer waits to be pushed.
pub fn plan_upsert_from_remote(
    id: &str,
    title: &str,
    body: &str,
    tags: &Vec<String>,
    folder_path: Option<&str>,
    server_version: i64,
    created_at: i64,
    updated_at: i64,
    now: i64,
) -> (r: Vec<Change>)
    ensures
        change_views(r@) == remote_changes(
            id@,
            stored_row(title@, body@, views(tags@), opt_str_view(folder_path)),
            server_version,
            created_at,
            updated_at,
            now,
        ),
{
    let mut out: Vec<Change> = Vec::new();
    assert(change_views(out@) =~= Seq::<ChangeView>::empty());
    let encoded = encode_tags(tags);
    let folder = normalize_folder(folder_path);
    push_opt_folders(&mut out, &folder, now);
    assert(change_views(out@) =~= ensure_changes(opt_view(folder), now));
    push_change(
        &mut out,
        Change::UpsertRemote {
            id: copy_text(id),
            title: copy_text(title),
            body: copy_text(body),
            tags: encoded,
            folder,
            version: server_version,
            created_at,
            updated_at,
        },
    );
    out
}

/// What a deletion on the server does here.
pub open spec fn remote_delete_changes(id: Seq<char>) -> Seq<ChangeView> {
    seq![
        ChangeView::ForgetHistory { id },
        ChangeView::RemoveSnippet { id },
        ChangeView::ClearQueued { id },
    ]
}

/// Plans what a deletion on the server does here: nothing is queued back, and a
/// deletion that was queued is forgotten.
pub fn apply_remote_delete(id: &str) -> (r: Vec<Change>)
    ensures
        change_views(r@) == remote_delete_changes(id@),
{
    let mut out: Vec<Change> = Vec::new();
    push_change(&mut out, Change::ForgetHistory { id: copy_text(id) });
    push_change(&mut out, Change::RemoveSnippet { id: copy_text(id) });
    push_change(&mut out, Change::ClearQueued { id: copy_text(id) });
    assert(change_views(out@) =~= remote_delete_changes(id@));
    out
}

/// What a title is compared by.
pub open spec fn title_key(title: Seq<char>) -> Seq<char> {
    lowercase_text(trimmed(title))
}

/// What a title is compared by.
pub fn key_of_title(title: &str) -> (r: String)
    ensures
        r@ == title_key(title@),
{
    let t = trim(title);
    str_to_lowercase(t.as_str())
}

/// The keys of titles.
pub open spec fn title_keys(titles: Seq<Seq<char>>) -> Seq<Seq<char>> {
    Seq::new(titles.len(), |i: int| title_key(titles[i]))
}

/// Whether the snippet `i` of a list is the one looked for: it has the key, which is not
/// empty, and is not the one left out.
pub open spec fn is_sought(
    ids: Seq<Seq<char>>,
    keys: Seq<Seq<char>>,
    key: Seq<char>,
    exclude_id: Option<Seq<char>>,
    i: int,
) -> bool {
    0 <= i < keys.len() && key.len() > 0 && keys[i] == key && exclude_id != Some(ids[i])
}

/// Whether `r` is the first snippet of a list that is looked for, or none where there is
/// none.
pub open spec fn is_found(
    ids: Seq<Seq<char>>,
    keys: Seq<Seq<char>>,
    key: Seq<char>,
    exclude_id: Option<Seq<char>>,
    r: Option<usize>,
) -> bool {
    match r {
        Some(i) => is_sought(ids, keys, key, exclude_id, i as int) && forall|j: int|
            0 <= j < i ==> !#[trigger] is_sought(ids, keys, key, exclude_id, j),
        None => forall|j: int| !#[trigger] is_sought(ids, keys, key, exclude_id, j),
    }
}

/// The first snippet with a key; none where the key is empty. `exclude_id` leaves that
/// snippet out.
pub fn find_by_key(
    ids: &Vec<String>,
    keys: &Vec<String>,
    key: &str,
    exclude_id: Option<&str>,
) -> (r: Option<usize>)
    requires
        ids@.len() == keys@.len(),
    ensures
        is_found(views(ids@), views(keys@), key@, opt_str_view(exclude_id), r),
{
    if key.unicode_len() == 0 {
        return None;
    }
    let n: usize = keys.len();
    for i in 0..n
        invariant
            n == keys@.len(),
            ids@.len() == keys@.len(),
            key@.len() > 0,
            forall|j: int|
                0 <= j < i ==> !#[trigger] is_sought(
                    views(ids@),
                    views(keys@),
                    key@,
                    opt_str_view(exclude_id),
                    j,
                ),
    {
        assert(views(ids@)[i as int] == ids@[i as int]@);
        assert(views(keys@)[i as int] == keys@[i as int]@);
        if same_text(keys[i].as_str(), key) {
            let left_out: bool = match exclude_id {
                Some(id) => same_text(ids[i].as_str(), id),
                None => false,
            };
            if !left_out {
                return Some(i);
            }
        }
    }
    None
}

/// The first snippet with a title, without regard to case and outer blanks; none where the
/// title is blank. `exclude_id` leaves that snippet out.
pub fn find_by_title(
    ids: &Vec<String>,
    titles: &Vec<String>,
    title: &str,
    exclude_id: Option<&str>,
) -> (r: Option<usize>)
    requires
        ids@.len() == titles@.len(),
    ensures
        is_found(
            views(ids@),
            title_keys(views(titles@)),
            title_key(title@),
            opt_str_view(exclude_id),
            r,
        ),
{
    let mut keys: Vec<String> = Vec::new();
    let n: usize = titles.len();
    for i in 0..n
        invariant
            n == titles@.len(),
            views(keys@) == title_keys(views(titles@)).take(i as int),
    {
        let k = key_of_title(titles[i].as_str());
        push_text(&mut keys, k);
        assert(views(titles@)[i as int] == titles@[i as int]@);
        assert(views(keys@) =~= title_keys(views(titles@)).take(i + 1));
    }
    assert(views(keys@) =~= title_keys(views(titles@)));
    assert(keys@.len() == views(keys@).len());
    let key = key_of_title(title);
    find_by_key(ids, &keys, key.as_str(), exclude_id)
}

/// A snippet whose title is the one looked for, to the letter, is not missed.
pub proof fn law_equal_titles_are_found(
    ids: Seq<Seq<char>>,
    titles: Seq<Seq<char>>,
    exclude_id: Option<Seq<char>>,
    i: int,
    r: Option<usize>,
)
    requires
        ids.len() == titles.len(),
        0 <= i < titles.len(),
        title_key(titles[i]).len() > 0,
        exclude_id != Some(ids[i]),
        is_found(ids, title_keys(titles), title_key(titles[i]), exclude_id, r),
    ensures
        r matches Some(k) && k <= i && title_key(titles[k as int]) == title_key(titles[i]),
{
    assert(is_sought(ids, title_keys(titles), title_key(titles[i]), exclude_id, i));
}

/// The items of an import that are taken, given the keys that are there: in
/// order, those with a key that is neither empty nor there, nor that of an item
/// taken before.
pub open spec fn taken(items: Seq<NewSnippetView>, keys: Seq<Seq<char>>) -> Seq<NewSnippetView>
    decreases items.len(),
{
    if items.len() == 0 {
        Seq::empty()
    } else {
        let before = taken(items.drop_last(), keys);
        if is_taken(before, keys, items.last()) {
            before.push(items.last())
        } else {
            before
        }
    }
}

/// Whether an item is taken after `before`.
pub open spec fn is_taken(
    before: Seq<NewSnippetView>,
    keys: Seq<Seq<char>>,
    item: NewSnippetView,
) -> bool {
    let k = title_key(item.title);
    k.len() > 0 && !keys.contains(k) && !taken_keys(before).contains(k)
}

/// The keys of taken items.
pub open spec fn taken_keys(l: Seq<NewSnippetView>) -> Seq<Seq<char>> {
    Seq::new(l.len(), |i: int| title_key(l[i].title))
}

/// The changes of an import: each taken item is created, with the ids in order.
pub open spec fn import_changes(l: Seq<NewSnippetView>, ids: Seq<Seq<char>>, now: i64) -> Seq<
    ChangeView,
>
    decreases l.len(),
{
    if l.len() == 0 {
        Seq::empty()
    } else {
        import_changes(l.drop_last(), ids, now) + create_changes(l.last(), ids[l.len() - 1], now)
    }
}

fn append_changes(l: &mut Vec<Change>, more: Vec<Change>)
    ensures
        change_views(final(l)@) == change_views(old(l)@) + change_views(more@),
{
    let ghost before = l@;
    let mut rest: Vec<Change> = more;
    l.append(&mut rest);
    assert(change_views(l@) =~= change_views(before) + change_views(more@));
}

/// Plans an import with these ids, as of `now`. Items without a title, and items
/// whose title is there already or came before in the same import, are counted
/// as skipped.
pub fn plan_import(
    existing_titles: &Vec<String>,
    items: &Vec<NewSnippet>,
    ids: &Vec<String>,
    now: i64,
) -> (r: (Vec<Change>, ImportResult))
    requires
        ids@.len() >= items@.len(),
    ensures
        ({
            let t = taken(new_snippet_views(items@), title_keys(views(existing_titles@)));
            &&& change_views(r.0@) == import_changes(t, views(ids@), now)
            &&& r.1.imported == t.len()
            &&& r.1.skipped_duplicates == items@.len() - t.len()
        }),
{
    let mut keys: Vec<String> = Vec::new();
    let m: usize = existing_titles.len();
    let ghost old_keys = title_keys(views(existing_titles@));
    for i in 0..m
        invariant
            m == existing_titles@.len(),
            old_keys == title_keys(views(existing_titles@)),
            views(keys@) =~= old_keys.take(i as int),
    {
        let k = key_of_title(existing_titles[i].as_str());
        assert(old_keys[i as int] == k@);
        push_text(&mut keys, k);
        assert(old_keys.take(i + 1) =~= old_keys.take(i as int).push(old_keys[i as int]));
    }
    assert(old_keys.take(m as int) =~= old_keys);
    let mut out: Vec<Change> = Vec::new();
    let n: usize = items.len();
    let mut imported: usize = 0;
    let mut skipped: usize = 0;
    let ghost all = new_snippet_views(items@);
    proof {
        assert(all.take(0) =~= Seq::<NewSnippetView>::empty());
        assert(change_views(out@) =~= Seq::<ChangeView>::empty());
        assert(taken_keys(Seq::<NewSnippetView>::empty()) =~= Seq::<Seq<char>>::empty());
        assert(views(keys@) =~= old_keys + taken_keys(taken(all.take(0), old_keys)));
    }
    for i in 0..n
        invariant
            n == items@.len(),
            ids@.len() >= n,
            all == new_snippet_views(items@),
            views(keys@) == old_keys + taken_keys(taken(all.take(i as int), old_keys)),
            change_views(out@) == import_changes(
                taken(all.take(i as int), old_keys),
                views(ids@),
                now,
            ),
            imported == taken(all.take(i as int), old_keys).len(),
            imported + skipped == i,
    {
        let ghost before = taken(all.take(i as int), old_keys);
        proof {
            let t = all.take(i + 1);
            assert(t.drop_last() =~= all.take(i as int));
            assert(t.last() == items@[i as int]@);
        }
        let key = key_of_title(items[i].title.as_str());
        let ghost kv = key@;
        proof {
            lemma_contains_either(old_keys, taken_keys(before), kv);
        }
        if key.as_str().unicode_len() == 0 || is_one_of(key.as_str(), &keys) {
            skipped = skipped + 1;
        } else {
            let plan = plan_create(&items[i], ids[imported].as_str(), now);
            assert(views(ids@)[imported as int] == ids@[imported as int]@);
            let ghost prev = change_views(out@);
            append_changes(&mut out, plan);
            push_text(&mut keys, key);
            imported = imported + 1;
            proof {
                let after = before.push(items@[i as int]@);
                assert(after.drop_last() =~= before);
                assert(taken_keys(after) =~= taken_keys(before).push(kv));
                assert((old_keys + taken_keys(before)).push(kv) =~= old_keys + taken_keys(after));
            }
        }
    }
    assert(all.take(n as int) =~= all);
    (out, ImportResult { imported, skipped_duplicates: skipped })
}

proof fn lemma_contains_either(a: Seq<Seq<char>>, b: Seq<Seq<char>>, k: Seq<char>)
    ensures
        (a + b).contains(k) <==> a.contains(k) || b.contains(k),
{
    if a.contains(k) {
        let i = choose|i: int| 0 <= i < a.len() && a[i] == k;
        assert((a + b)[i] == k);
    }
    if b.contains(k) {
        let i = choose|i: int| 0 <= i < b.len() && b[i] == k;
        assert((a + b)[a.len() + i] == k);
    }
    if (a + b).contains(k) {
        let i = choose|i: int| 0 <= i < (a + b).len() && (a + b)[i] == k;
        if i < a.len() {
            assert(a[i] == k);
        } else {
            assert(b[i - a.len()] == k);
        }
    }
}

/// Whether there is an id for each of `n` items, in the form of a random identifier.
pub open spec fn ids_for(ids: Seq<Seq<char>>, n: nat) -> bool {
    ids.len() >= n && forall|i: int| 0 <= i < n ==> uuid_form(#[trigger] ids[i])
}

/// Whether a list of changes creates these items at some time, each under an id that was
/// made for it.
pub open spec fn imports(l: Seq<ChangeView>, t: Seq<NewSnippetView>) -> bool {
    exists|ids: Seq<Seq<char>>, now: i64|
        ids_for(ids, t.len()) && l == #[trigger] import_changes(t, ids, now)
}

/// Plans an import with fresh ids, as of now.
pub fn import(existing_titles: &Vec<String>, items: &Vec<NewSnippet>) -> (r: (
    Vec<Change>,
    ImportResult,
))
    ensures
        ({
            let t = taken(new_snippet_views(items@), title_keys(views(existing_titles@)));
            &&& imports(change_views(r.0@), t)
            &&& r.1.imported == t.len()
            &&& r.1.skipped_duplicates == items@.len() - t.len()
        }),
{
    let n: usize = items.len();
    let mut ids: Vec<String> = Vec::new();
    for i in 0..n
        invariant
            ids@.len() == i,
            forall|k: int| 0 <= k < i ==> uuid_form(#[trigger] ids@[k]@),
    {
        ids.push(new_uuid());
    }
    let now: i64 = utc_now();
    let r = plan_import(existing_titles, items, &ids, now);
    proof {
        let t = taken(new_snippet_views(items@), title_keys(views(existing_titles@)));
        assert forall|k: int| 0 <= k < n implies uuid_form(#[trigger] views(ids@)[k]) by {
            assert(views(ids@)[k] == ids@[k]@);
        }
        assert(ids_for(views(ids@), t.len()));
    }
    assert(change_views(r.0@) == import_changes(
        taken(new_snippet_views(items@), title_keys(views(existing_titles@))),
        views(ids@),
        now,
    ));
    r
}

/// The id that a team snippet is stored under: its own, or one made of its title.
pub open spec fn team_id_of(s: TeamSnippet) -> Seq<char> {
    match s.id {
        Some(id) => id@,
        None => "auto:"@ + title_key(s.title@),
    }
}

/// The change that stores a team snippet.
pub open spec fn team_change(s: TeamSnippet, now: i64) -> ChangeView {
    ChangeView::PutTeam {
        team_id: team_id_of(s),
        row: stored_row(s.title@, s.body@, views(s.tags@), opt_view(s.folder)),
        at: now,
        version: 0,
    }
}

/// The changes that replace the team library.
pub open spec fn team_changes(l: Seq<TeamSnippet>, now: i64) -> Seq<ChangeView> {
    seq![ChangeView::ClearTeam] + Seq::new(l.len(), |i: int| team_change(l[i], now))
}

fn team_put(s: &TeamSnippet, now: i64) -> (r: Change)
    ensures
        r@ == team_change(*s, now),
{
    let team_id = match &s.id {
        Some(id) => copy_text(id.as_str()),
        None => {
            let k = key_of_title(s.title.as_str());
            let mut a: String = "auto:".to_owned();
            a.push_str(k.as_str());
            a
        },
    };
    Change::PutTeam {
        team_id,
        title: copy_text(s.title.as_str()),
        body: copy_text(s.body.as_str()),
        tags: encode_tags(&s.tags),
        folder: normalize_folder(borrow_folder(&s.folder)),
        at: now,
        version: 0,
    }
}

/// Plans the replacement of the team library: the old rows go, so that what was
/// deleted upstream vanishes here too. The count is that of the snippets given.
pub fn plan_replace_team(snippets: &Vec<TeamSnippet>, now: i64) -> (r: (Vec<Change>, usize))
    ensures
        change_views(r.0@) == team_changes(snippets@, now),
        r.1 == snippets@.len(),
{
    let mut out: Vec<Change> = Vec::new();
    assert(change_views(out@) =~= Seq::<ChangeView>::empty());
    push_change(&mut out, Change::ClearTeam);
    let n: usize = snippets.len();
    let ghost all = team_changes(snippets@, now);
    assert(change_views(out@) =~= all.take(1));
    for i in 0..n
        invariant
            n == snippets@.len(),
            all == team_changes(snippets@, now),
            change_views(out@) == all.take(i + 1),
    {
        push_change(&mut out, team_put(&snippets[i], now));
        assert(all.take(i + 2) =~= all.take(i + 1).push(all[i + 1]));
    }
    assert(all.take(n + 1) =~= all);
    (out, n)
}

/// Plans taking over one row of the server's team library.
pub fn plan_upsert_library(
    team_id: &str,
    title: &str,
    body: &str,
    tags: &Vec<String>,
    folder_path: Option<&str>,
    server_version: i64,
    now: i64,
) -> (r: Change)
    ensures
        r@ == (ChangeView::PutTeam {
            team_id: team_id@,
            row: stored_row(title@, body@, views(tags@), opt_str_view(folder_path)),
            at: now,
            version: server_version,
        }),
{
    Change::PutTeam {
        team_id: copy_text(team_id),
        title: copy_text(title),
        body: copy_text(body),
        tags: encode_tags(tags),
        folder: normalize_folder(folder_path),
        at: now,
        version: server_version,
    }
}

/// Plans what signing out does: the sync state goes, the snippets stay.
pub fn reset_sync_metadata() -> (r: Vec<Change>)
    ensures
        change_views(r@) == seq![ChangeView::ResetSync, ChangeView::ClearTeam],
{
    let mut out: Vec<Change> = Vec::new();
    push_change(&mut out, Change::ResetSync);
    push_change(&mut out, Change::ClearTeam);
    assert(change_views(out@) =~= seq![ChangeView::ResetSync, ChangeView::ClearTeam]);
    out
}

/// The outcome of a statement on one snippet, by the number of rows it changed.
pub fn found_or_missing(rows: usize, id: &str) -> (r: Result<(), String>)
    ensures
        r is Ok <==> rows > 0,
        r matches Err(e) ==> e@ == "snippet not found: "@ + id@,
{
    if rows == 0 {
        let mut e: String = "snippet not found: ".to_owned();
        e.push_str(id);
        Err(e)
    } else {
        Ok(())
    }
}

} // verus!
