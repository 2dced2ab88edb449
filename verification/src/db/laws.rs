//! What the planned changes do to the store as a whole.
use vstd::prelude::*;

verus! {

use crate::db::ops::{library_change, use_change};
use crate::db::{
    all_tags,
    apply,
    apply_all,
    at_or_below,
    count_at,
    create_changes,
    delete_changes,
    delete_folder_changes,
    ensure_changes,
    folder_changes,
    folder_column,
    import_changes,
    is_taken,
    made_at,
    remote_changes,
    remote_delete_changes,
    rename_changes,
    renamed,
    stored_row,
    stored_under,
    taken,
    taken_keys,
    team_change,
    team_changes,
    team_id_of,
    title_key,
    unused,
    update_changes,
    uses_of,
    ChangeView,
    NewSnippetView,
    RowView,
    Store,
    StoredSnippet,
    Uses,
};
use crate::paths::{
    ancestors,
    ancestors_below,
    law_a_name_is_a_segment,
    lemma_ancestors_below,
    normalized,
    slash,
};
use crate::shared_library::TeamSnippet;
use crate::tags::{decoded_tags, encoded_tags};
use crate::text::white_space;
use crate::trim::{
    all_blank,
    joined,
    law_blank_texts,
    law_split_undoes_join,
    lemma_trimmed_parts_keep,
    trimmed,
};

pub proof fn lemma_apply_concat(st: Store, a: Seq<ChangeView>, b: Seq<ChangeView>)
    ensures
        apply_all(st, a + b) == apply_all(apply_all(st, a), b),
    decreases b.len(),
{
    if b.len() == 0 {
        assert(a + b =~= a);
    } else {
        assert((a + b).drop_last() =~= a + b.drop_last());
        assert((a + b).last() == b.last());
        lemma_apply_concat(st, a, b.drop_last());
    }
}

pub proof fn lemma_apply_push(st: Store, a: Seq<ChangeView>, c: ChangeView)
    ensures
        apply_all(st, a.push(c)) == apply(apply_all(st, a), c),
{
    assert(a.push(c).drop_last() =~= a);
}

/// Adding folder rows changes nothing but the folders.
pub proof fn lemma_add_folders(st: Store, paths: Seq<Seq<char>>, at: i64)
    ensures
        apply_all(st, folder_changes(paths, at)) == (Store {
            folders: st.folders.union(paths.to_set()),
            ..st
        }),
    decreases paths.len(),
{
    let l = folder_changes(paths, at);
    if paths.len() == 0 {
        assert(st.folders.union(paths.to_set()) =~= st.folders);
    } else {
        let front = paths.drop_last();
        assert(l.drop_last() =~= folder_changes(front, at));
        assert(l.last() == (ChangeView::AddFolder { path: paths.last(), at }));
        lemma_add_folders(st, front, at);
        assert forall|p: Seq<char>| #[trigger]
            st.folders.union(paths.to_set()).contains(p) == st.folders.union(
                front.to_set(),
            ).insert(paths.last()).contains(p) by {
            if paths.contains(p) {
                let k = choose|k: int| 0 <= k < paths.len() && paths[k] == p;
                if k < front.len() {
                    assert(front[k] == p);
                }
            }
            if front.contains(p) {
                let k = choose|k: int| 0 <= k < front.len() && front[k] == p;
                assert(paths[k] == p);
            }
            if p == paths.last() {
                assert(paths[paths.len() - 1] == p);
            }
        }
        assert(st.folders.union(paths.to_set()) =~= st.folders.union(front.to_set()).insert(
            paths.last(),
        ));
    }
}

/// The folder rows that a snippet in `folder` makes sure of.
pub open spec fn folder_rows(folder: Option<Seq<char>>) -> Set<Seq<char>> {
    match folder {
        Some(f) => ancestors(f).to_set(),
        None => Set::empty(),
    }
}

pub proof fn lemma_ensure(st: Store, folder: Option<Seq<char>>, at: i64)
    ensures
        apply_all(st, ensure_changes(folder, at)) == (Store {
            folders: st.folders.union(folder_rows(folder)),
            ..st
        }),
{
    match folder {
        Some(f) => lemma_add_folders(st, ancestors(f), at),
        None => {
            assert(st.folders.union(Set::empty()) =~= st.folders);
        },
    }
}

/// Whether every snippet's folder is listed, with all its parents.
pub open spec fn folders_listed(st: Store) -> bool {
    forall|id: Seq<char>| #[trigger] st.snippets.dom().contains(id) ==> listed(st, st.snippets[id].row)
}

/// Whether the folder of a row is listed, with all its parents.
pub open spec fn listed(st: Store, row: RowView) -> bool {
    folder_rows(row.folder).subset_of(st.folders)
}

/// A new snippet is stored as it was given, dated now, waits for its first push, and
/// touches no other snippet. Its folder is listed with its parents.
pub proof fn law_create_stores_the_snippet(
    st: Store,
    input: NewSnippetView,
    id: Seq<char>,
    now: i64,
)
    ensures
        ({
            let row = stored_row(input.title, input.body, input.tags, input.folder_path);
            apply_all(st, create_changes(input, id, now)) == (Store {
                snippets: st.snippets.insert(
                    id,
                    StoredSnippet {
                        row,
                        server_version: None,
                        dirty: true,
                        uses: unused(),
                        created_at: now,
                        updated_at: now,
                    },
                ),
                folders: st.folders.union(folder_rows(row.folder)),
                ..st
            })
        }),
        folders_listed(st) ==> folders_listed(apply_all(st, create_changes(input, id, now))),
{
    let row = stored_row(input.title, input.body, input.tags, input.folder_path);
    lemma_ensure(st, row.folder, now);
    lemma_apply_push(
        st,
        ensure_changes(row.folder, now),
        ChangeView::InsertSnippet { id, row, at: now },
    );
}

/// An edit keeps what the server has acknowledged, how often the snippet was used and when
/// it was made, marks it for the next push and touches no other snippet. Its folder is listed
/// with its parents.
pub proof fn law_update_marks_the_snippet(
    st: Store,
    id: Seq<char>,
    title: Seq<char>,
    body: Seq<char>,
    tags: Seq<Seq<char>>,
    folder: Option<Seq<char>>,
    now: i64,
)
    requires
        st.snippets.dom().contains(id),
    ensures
        ({
            let row = stored_row(title, body, tags, folder);
            let after = apply_all(st, update_changes(id, title, body, tags, folder, now));
            after == (Store {
                snippets: st.snippets.insert(
                    id,
                    StoredSnippet {
                        row,
                        server_version: st.snippets[id].server_version,
                        dirty: true,
                        uses: st.snippets[id].uses,
                        created_at: st.snippets[id].created_at,
                        updated_at: now,
                    },
                ),
                folders: st.folders.union(folder_rows(row.folder)),
                ..st
            })
        }),
        folders_listed(st) ==> folders_listed(
            apply_all(st, update_changes(id, title, body, tags, folder, now)),
        ),
{
    let row = stored_row(title, body, tags, folder);
    lemma_ensure(st, row.folder, now);
    lemma_apply_push(
        st,
        ensure_changes(row.folder, now),
        ChangeView::UpdateSnippet { id, row, at: now },
    );
}

/// A deletion removes one snippet with its remembered values. It leaves a queued
/// deletion exactly where the server knows the snippet.
pub proof fn law_delete_queues_what_the_server_knows(st: Store, id: Seq<char>, now: i64)
    requires
        st.snippets.dom().contains(id),
    ensures
        apply_all(st, delete_changes(id, st.snippets[id].server_version, now)) == (Store {
            snippets: st.snippets.remove(id),
            history: st.history.remove(id),
            pending_deletes: if st.snippets[id].server_version is Some {
                st.pending_deletes.insert(id)
            } else {
                st.pending_deletes
            },
            ..st
        }),
{
    let drop = seq![ChangeView::ForgetHistory { id }, ChangeView::RemoveSnippet { id }];
    reveal_with_fuel(apply_all, 3);
    assert(drop.drop_last() =~= seq![ChangeView::ForgetHistory { id }]);
    assert(drop.drop_last().drop_last() =~= Seq::<ChangeView>::empty());
    if st.snippets[id].server_version is Some {
        lemma_apply_push(st, drop, ChangeView::QueueDelete { id, at: now });
    }
}

/// What the server sends overwrites the snippet, which then no longer waits to be
/// pushed; its remembered values stay, and so do how often it was used here and when it
/// was made. When it was last edited is taken over.
pub proof fn law_remote_wins(
    st: Store,
    id: Seq<char>,
    row: RowView,
    version: i64,
    created_at: i64,
    updated_at: i64,
    now: i64,
)
    ensures
        apply_all(st, remote_changes(id, row, version, created_at, updated_at, now)) == (Store {
            snippets: st.snippets.insert(
                id,
                StoredSnippet {
                    row,
                    server_version: Some(version),
                    dirty: false,
                    uses: uses_of(st, id),
                    created_at: made_at(st, id, created_at),
                    updated_at,
                },
            ),
            folders: st.folders.union(folder_rows(row.folder)),
            ..st
        }),
{
    lemma_ensure(st, row.folder, now);
    lemma_apply_push(
        st,
        ensure_changes(row.folder, now),
        ChangeView::UpsertRemote { id, row, version, created_at, updated_at },
    );
}

/// A deletion on the server removes the snippet with its remembered values, and
/// leaves nothing to tell the server of.
pub proof fn law_remote_deletion_is_final(st: Store, id: Seq<char>)
    ensures
        apply_all(st, remote_delete_changes(id)) == (Store {
            snippets: st.snippets.remove(id),
            history: st.history.remove(id),
            pending_deletes: st.pending_deletes.remove(id),
            ..st
        }),
{
    let l = remote_delete_changes(id);
    reveal_with_fuel(apply_all, 4);
    assert(l.drop_last() =~= seq![
        ChangeView::ForgetHistory { id },
        ChangeView::RemoveSnippet { id },
    ]);
    assert(l.drop_last().drop_last() =~= seq![ChangeView::ForgetHistory { id }]);
    assert(l.drop_last().drop_last().drop_last() =~= Seq::<ChangeView>::empty());
}

/// A push that the server has acknowledged is not repeated: the snippet keeps its
/// content, uses and dates, and waits no longer. No other snippet is touched.
pub proof fn law_acknowledged_pushes_are_over(st: Store, id: Seq<char>, version: i64)
    requires
        st.snippets.dom().contains(id),
    ensures
        apply(st, ChangeView::MarkSynced { id, version }) == (Store {
            snippets: st.snippets.insert(
                id,
                StoredSnippet {
                    row: st.snippets[id].row,
                    server_version: Some(version),
                    dirty: false,
                    uses: st.snippets[id].uses,
                    created_at: st.snippets[id].created_at,
                    updated_at: st.snippets[id].updated_at,
                },
            ),
            ..st
        }),
{
}

/// Using a snippet counts the use, and leaves nothing more to push than before.
pub proof fn law_uses_stay_local(st: Store, id: Seq<char>, other: Seq<char>, at: i64)
    requires
        st.snippets.dom().contains(id),
        st.snippets.dom().contains(other),
    ensures
        ({
            let after = apply(st, ChangeView::RecordUse { id, at });
            &&& after.snippets.dom() == st.snippets.dom()
            &&& after.snippets[id].uses == (Uses {
                count: st.snippets[id].uses.count + 1,
                last: Some(at),
            })
            &&& after.snippets[other].row == st.snippets[other].row
            &&& after.snippets[other].created_at == st.snippets[other].created_at
            &&& after.snippets[other].updated_at == st.snippets[other].updated_at
            &&& after.snippets[other].dirty == st.snippets[other].dirty
            &&& after.snippets[other].server_version == st.snippets[other].server_version
            &&& other != id ==> after.snippets[other] == st.snippets[other]
        }),
{
    assert(apply(st, ChangeView::RecordUse { id, at }).snippets.dom() =~= st.snippets.dom());
}

/// Signing out keeps every snippet with its content and dates; each will be pushed anew.
/// Queued deletions and the team library are gone.
pub proof fn law_sign_out_keeps_content(st: Store)
    ensures
        ({
            let after = apply_all(st, seq![ChangeView::ResetSync, ChangeView::ClearTeam]);
            &&& after.snippets.dom() == st.snippets.dom()
            &&& forall|id: Seq<char>| #[trigger]
                st.snippets.dom().contains(id) ==> after.snippets[id] == (StoredSnippet {
                    row: st.snippets[id].row,
                    server_version: None,
                    dirty: true,
                    uses: st.snippets[id].uses,
                    created_at: st.snippets[id].created_at,
                    updated_at: st.snippets[id].updated_at,
                })
            &&& after.folders == st.folders
            &&& after.history == st.history
            &&& after.pending_deletes == Set::<Seq<char>>::empty()
            &&& after.team == Map::<Seq<char>, RowView>::empty()
        }),
{
    let l = seq![ChangeView::ResetSync, ChangeView::ClearTeam];
    reveal_with_fuel(apply_all, 3);
    assert(l.drop_last() =~= seq![ChangeView::ResetSync]);
    assert(l.drop_last().drop_last() =~= Seq::<ChangeView>::empty());
    let after = apply_all(st, l);
    assert(after.snippets.dom() =~= st.snippets.dom());
}

/// Deleting a folder with its snippets removes exactly those that lie in it or
/// below it, and queues the deletion of those that the server knows.
pub proof fn law_delete_folder_takes_its_snippets(st: Store, path: Seq<char>, now: i64)
    ensures
        ({
            let after = apply_all(st, delete_folder_changes(path, true, now));
            &&& forall|id: Seq<char>| #[trigger]
                after.snippets.dom().contains(id) <==> st.snippets.dom().contains(id)
                    && !stored_under(st.snippets[id], path)
            &&& forall|id: Seq<char>| #[trigger]
                after.snippets.dom().contains(id) ==> after.snippets[id] == st.snippets[id]
            &&& forall|id: Seq<char>| #[trigger]
                after.pending_deletes.contains(id) <==> st.pending_deletes.contains(id) || (
                st.snippets.dom().contains(id) && stored_under(st.snippets[id], path)
                    && st.snippets[id].server_version is Some)
            &&& forall|id: Seq<char>| #[trigger]
                after.history.contains(id) <==> st.history.contains(id) && !(
                st.snippets.dom().contains(id) && stored_under(st.snippets[id], path))
            &&& forall|p: Seq<char>| #[trigger]
                after.folders.contains(p) <==> st.folders.contains(p) && !at_or_below(p, path)
        }),
{
    let a = seq![
        ChangeView::QueueDeletesUnder { path, at: now },
        ChangeView::ForgetHistoryUnder { path },
        ChangeView::RemoveSnippetsUnder { path },
    ];
    reveal_with_fuel(apply_all, 4);
    assert(a.drop_last() =~= seq![
        ChangeView::QueueDeletesUnder { path, at: now },
        ChangeView::ForgetHistoryUnder { path },
    ]);
    assert(a.drop_last().drop_last() =~= seq![ChangeView::QueueDeletesUnder { path, at: now }]);
    assert(a.drop_last().drop_last().drop_last() =~= Seq::<ChangeView>::empty());
    lemma_apply_push(st, a, ChangeView::RemoveFoldersUnder { path });
}

/// Deleting a folder without its snippets keeps every snippet. Those that lay in
/// it or below it move to the root and will be pushed; the others are as before.
pub proof fn law_delete_folder_keeps_its_snippets(st: Store, path: Seq<char>, now: i64)
    ensures
        ({
            let after = apply_all(st, delete_folder_changes(path, false, now));
            &&& after.snippets.dom() == st.snippets.dom()
            &&& forall|id: Seq<char>| #[trigger]
                st.snippets.dom().contains(id) ==> after.snippets[id] == (if stored_under(
                    st.snippets[id],
                    path,
                ) {
                    StoredSnippet {
                        row: RowView { folder: None, ..st.snippets[id].row },
                        dirty: true,
                        ..st.snippets[id]
                    }
                } else {
                    st.snippets[id]
                })
            &&& after.pending_deletes == st.pending_deletes
            &&& after.history == st.history
            &&& forall|p: Seq<char>| #[trigger]
                after.folders.contains(p) <==> st.folders.contains(p) && !at_or_below(p, path)
        }),
{
    let a = seq![ChangeView::UnfileUnder { path }];
    reveal_with_fuel(apply_all, 2);
    assert(a.drop_last() =~= Seq::<ChangeView>::empty());
    lemma_apply_push(st, a, ChangeView::RemoveFoldersUnder { path });
    let after = apply_all(st, delete_folder_changes(path, false, now));
    assert(after.snippets.dom() =~= st.snippets.dom());
}

/// What renaming a folder leaves behind.
pub proof fn lemma_rename(st: Store, old: Seq<char>, new: Seq<char>, now: i64)
    requires
        old != new,
    ensures
        ({
            let after = apply_all(st, rename_changes(old, new, now));
            let r1 = apply(st, ChangeView::RenameFolders { old, new });
            let r2 = apply(r1, ChangeView::RenameSnippets { old, new });
            after == (Store {
                folders: r2.folders.union(ancestors(new).to_set()),
                ..r2
            })
        }),
{
    let a = seq![ChangeView::RenameFolders { old, new }, ChangeView::RenameSnippets { old, new }];
    lemma_apply_concat(st, a, folder_changes(ancestors(new), now));
    reveal_with_fuel(apply_all, 3);
    assert(a.drop_last() =~= seq![ChangeView::RenameFolders { old, new }]);
    assert(a.drop_last().drop_last() =~= Seq::<ChangeView>::empty());
    lemma_add_folders(apply_all(st, a), ancestors(new), now);
}

/// Renaming a folder moves exactly the snippets in it or below it: each keeps the
/// rest of its path and will be pushed. Every other snippet is as before.
pub proof fn law_rename_moves_the_subtree(st: Store, old: Seq<char>, new: Seq<char>, now: i64)
    requires
        old != new,
    ensures
        ({
            let after = apply_all(st, rename_changes(old, new, now));
            &&& after.snippets.dom() == st.snippets.dom()
            &&& forall|id: Seq<char>| #[trigger]
                st.snippets.dom().contains(id) ==> after.snippets[id] == (if stored_under(
                    st.snippets[id],
                    old,
                ) {
                    StoredSnippet {
                        row: RowView {
                            folder: Some(renamed(st.snippets[id].row.folder->0, old, new)),
                            ..st.snippets[id].row
                        },
                        dirty: true,
                        ..st.snippets[id]
                    }
                } else {
                    st.snippets[id]
                })
            &&& after.pending_deletes == st.pending_deletes
            &&& after.history == st.history
        }),
{
    lemma_rename(st, old, new, now);
    let after = apply_all(st, rename_changes(old, new, now));
    assert(after.snippets.dom() =~= st.snippets.dom());
}

/// Renaming a folder back gives every path below it back, and every path that
/// does not lie below the new name.
pub proof fn law_rename_back(path: Seq<char>, old: Seq<char>, new: Seq<char>)
    requires
        at_or_below(path, old) || !at_or_below(path, new),
    ensures
        renamed(renamed(path, old, new), new, old) == path,
{
    if at_or_below(path, old) {
        let rest = path.skip(old.len() as int);
        let moved = new + rest;
        if path == old {
            assert(rest =~= Seq::<char>::empty());
            assert(moved =~= new);
        } else {
            assert((old + slash())[old.len() as int] == '/');
            assert(path[old.len() as int] == '/');
            assert(rest[0] == '/');
            assert forall|i: int| 0 <= i < (new + slash()).len() implies (new + slash())[i]
                == moved[i] by {}
            assert((new + slash()).is_prefix_of(moved));
        }
        assert(moved.skip(new.len() as int) =~= rest);
        assert(old + rest =~= path) by {
            assert forall|i: int| 0 <= i < path.len() implies (old + rest)[i] == path[i] by {
                if i < old.len() && path != old {
                    assert((old + slash())[i] == path[i]);
                }
            }
        }
    }
}

/// A path whose ancestor lies at or below `base` lies there too.
proof fn lemma_below_by_ancestor(path: Seq<char>, base: Seq<char>, i: int)
    requires
        0 <= i < ancestors(path).len(),
        at_or_below(ancestors(path)[i], base),
        normalized(path) == path,
        path.len() > 0,
    ensures
        at_or_below(path, base),
    decreases ancestors(path).len() - i,
{
    if i + 1 < ancestors(path).len() {
        crate::paths::law_ancestors_nest(path, i);
        let a = ancestors(path)[i];
        let b = ancestors(path)[i + 1];
        assert((base + slash()).is_prefix_of(b)) by {
            assert forall|k: int| 0 <= k < (base + slash()).len() implies (base + slash())[k]
                == b[k] by {
                if a == base {
                    assert((a + slash())[k] == b[k]);
                } else {
                    assert((base + slash())[k] == a[k]);
                    assert((a + slash())[k] == b[k]);
                }
            }
            if a == base {
                assert((a + slash()).len() <= b.len());
            } else {
                assert((base + slash()).len() <= a.len());
            }
        }
        lemma_below_by_ancestor(path, base, i + 1);
    } else {
        crate::paths::law_ancestors_end_in_the_path(path);
    }
}

/// Whether every stored folder is written as `normalized` leaves it.
pub open spec fn folders_normal(st: Store) -> bool {
    forall|id: Seq<char>| #[trigger]
        st.snippets.dom().contains(id) ==> (st.snippets[id].row.folder matches Some(f) ==> f.len()
            > 0 && normalized(f) == f)
}

/// Renaming a folder keeps every snippet's folder listed with its parents.
pub proof fn law_rename_keeps_folders_listed(st: Store, old: Seq<char>, new: Seq<char>, now: i64)
    requires
        old != new,
        old.len() > 0,
        new.len() > 0,
        normalized(old) == old,
        normalized(new) == new,
        folders_listed(st),
        folders_normal(st),
    ensures
        folders_listed(apply_all(st, rename_changes(old, new, now))),
{
    let after = apply_all(st, rename_changes(old, new, now));
    lemma_rename(st, old, new, now);
    law_rename_moves_the_subtree(st, old, new, now);
    assert forall|id: Seq<char>| #[trigger] after.snippets.dom().contains(id) implies listed(
        after,
        after.snippets[id].row,
    ) by {
        assert(st.snippets.dom().contains(id));
        if let Some(f) = st.snippets[id].row.folder {
            assert(listed(st, st.snippets[id].row));
            if at_or_below(f, old) {
                let g = renamed(f, old, new);
                assert(after.snippets[id].row.folder == Some(g));
                assert forall|p: Seq<char>| ancestors(g).contains(p) implies after.folders.contains(
                    p,
                ) by {
                    let i = choose|i: int| 0 <= i < ancestors(g).len() && ancestors(g)[i] == p;
                    lemma_renamed_ancestor(st, f, old, new, i);
                    if !ancestors(new).contains(p) {
                        let q = choose|q: Seq<char>| st.folders.contains(q) && p == #[trigger] renamed(
                            q,
                            old,
                            new,
                        );
                        assert(apply(st, ChangeView::RenameFolders { old, new }).folders.contains(p));
                    }
                }
            } else {
                assert forall|p: Seq<char>| ancestors(f).contains(p) implies after.folders.contains(
                    p,
                ) by {
                    let i = choose|i: int| 0 <= i < ancestors(f).len() && ancestors(f)[i] == p;
                    if at_or_below(p, old) {
                        lemma_below_by_ancestor(f, old, i);
                    }
                    assert(folder_rows(Some(f)).contains(p));
                    assert(st.folders.contains(p));
                    assert(renamed(p, old, new) == p);
                    assert(apply(st, ChangeView::RenameFolders { old, new }).folders.contains(p));
                }
            }
        }
    }
}

/// An ancestor of a renamed path is an ancestor of the new folder, or comes from
/// a listed folder.
proof fn lemma_renamed_ancestor(st: Store, f: Seq<char>, old: Seq<char>, new: Seq<char>, i: int)
    requires
        at_or_below(f, old),
        old.len() > 0,
        new.len() > 0,
        normalized(old) == old,
        normalized(new) == new,
        ancestors(f).to_set().subset_of(st.folders),
        0 <= i < ancestors(renamed(f, old, new)).len(),
    ensures
        ancestors(new).contains(ancestors(renamed(f, old, new))[i]) || exists|q: Seq<char>|
            st.folders.contains(q) && ancestors(renamed(f, old, new))[i] == #[trigger] renamed(
                q,
                old,
                new,
            ),
{
    let g = renamed(f, old, new);
    let p = ancestors(g)[i];
    if f == old {
        assert(f.skip(old.len() as int) =~= Seq::<char>::empty());
        assert(g =~= new);
        assert(ancestors(new)[i] == p);
    } else {
        let rest = f.skip(old.len() as int + 1);
        assert((old + slash())[old.len() as int] == '/');
        assert(f =~= old + slash() + rest) by {
            assert forall|k: int| 0 <= k < f.len() implies f[k] == (old + slash() + rest)[k] by {
                if k <= old.len() {
                    assert((old + slash())[k] == f[k]);
                }
            }
        }
        assert(g =~= new + slash() + rest) by {
            assert(f.skip(old.len() as int) =~= slash() + rest);
        }
        lemma_ancestors_below(old, rest);
        lemma_ancestors_below(new, rest);
        let n = ancestors(new).len();
        if i < n {
            assert(ancestors(new)[i] == p);
        } else {
            let j = i - n;
            let q = ancestors_below(old, rest)[j];
            assert(ancestors(f)[ancestors(old).len() + j] == q);
            assert(ancestors(f).contains(q));
            assert(ancestors(f).to_set().contains(q));
            assert(st.folders.contains(q));
            let tail = q.skip(old.len() as int + 1);
            assert((old + slash()).is_prefix_of(q));
            assert(q.skip(old.len() as int) =~= slash() + tail);
            assert(p =~= new + slash() + tail);
            assert(renamed(q, old, new) =~= p);
        }
    }
}

/// What an import takes has distinct titles, none of them blank or there before;
/// what it leaves out is blank, there before, or taken already.
pub proof fn law_import_takes_each_title_once(items: Seq<NewSnippetView>, keys: Seq<Seq<char>>)
    ensures
        forall|i: int|
            0 <= i < taken(items, keys).len() ==> title_key(
                (#[trigger] taken(items, keys)[i]).title,
            ).len() > 0 && !keys.contains(title_key(taken(items, keys)[i].title)),
        forall|i: int, j: int|
            0 <= i < j < taken(items, keys).len() ==> title_key(
                (#[trigger] taken(items, keys)[i]).title,
            ) != title_key((#[trigger] taken(items, keys)[j]).title),
        forall|k: int|
            0 <= k < items.len() ==> {
                let key = title_key((#[trigger] items[k]).title);
                key.len() == 0 || keys.contains(key) || taken_keys(taken(items, keys)).contains(key)
            },
        taken(items, keys).len() <= items.len(),
    decreases items.len(),
{
    if items.len() > 0 {
        let front = items.drop_last();
        law_import_takes_each_title_once(front, keys);
        let before = taken(front, keys);
        let after = taken(items, keys);
        let key = title_key(items.last().title);
        assert forall|i: int, j: int| 0 <= i < j < after.len() implies title_key(
            (#[trigger] after[i]).title,
        ) != title_key((#[trigger] after[j]).title) by {
            if j == before.len() {
                assert(taken_keys(before)[i] == title_key(before[i].title));
                assert(taken_keys(before).contains(title_key(before[i].title)));
            }
        }
        assert forall|k: int| 0 <= k < items.len() implies {
            let key = title_key((#[trigger] items[k]).title);
            key.len() == 0 || keys.contains(key) || taken_keys(after).contains(key)
        } by {
            let kk = title_key(items[k].title);
            if k < front.len() {
                assert(front[k] == items[k]);
                if taken_keys(before).contains(kk) {
                    let m = choose|m: int|
                        0 <= m < before.len() && #[trigger] taken_keys(before)[m] == kk;
                    assert(taken_keys(after)[m] == kk);
                }
            } else if is_taken(before, keys, items.last()) {
                assert(taken_keys(after)[before.len() as int] == kk);
            } else if taken_keys(before).contains(kk) {
                assert(after == before);
            }
        }
    }
}

/// What is stored of a snippet that was made just now.
pub open spec fn newly_stored(input: NewSnippetView, now: i64) -> StoredSnippet {
    StoredSnippet {
        row: stored_row(input.title, input.body, input.tags, input.folder_path),
        server_version: None,
        dirty: true,
        uses: unused(),
        created_at: now,
        updated_at: now,
    }
}

/// An import keeps what was stored, and keeps every snippet's folder listed. Under
/// distinct ids each item is stored as it was given.
pub proof fn law_import_only_adds(
    st: Store,
    l: Seq<NewSnippetView>,
    ids: Seq<Seq<char>>,
    now: i64,
)
    requires
        l.len() <= ids.len(),
        folders_listed(st),
        forall|i: int| 0 <= i < ids.len() ==> !st.snippets.dom().contains(#[trigger] ids[i]),
    ensures
        ({
            let after = apply_all(st, import_changes(l, ids, now));
            &&& forall|id: Seq<char>| #[trigger]
                st.snippets.dom().contains(id) ==> after.snippets.dom().contains(id)
                    && after.snippets[id] == st.snippets[id]
            &&& forall|i: int| 0 <= i < l.len() ==> after.snippets.dom().contains(#[trigger] ids[i])
            &&& ids.no_duplicates() ==> forall|i: int|
                0 <= i < l.len() ==> after.snippets[#[trigger] ids[i]] == newly_stored(l[i], now)
            &&& st.folders.subset_of(after.folders)
            &&& folders_listed(after)
        }),
    decreases l.len(),
{
    if l.len() > 0 {
        law_import_only_adds(st, l.drop_last(), ids, now);
        let mid = apply_all(st, import_changes(l.drop_last(), ids, now));
        let id = ids[l.len() - 1];
        lemma_apply_concat(
            st,
            import_changes(l.drop_last(), ids, now),
            create_changes(l.last(), id, now),
        );
        law_create_stores_the_snippet(mid, l.last(), id, now);
        let after = apply_all(st, import_changes(l, ids, now));
        if ids.no_duplicates() {
            assert forall|i: int| 0 <= i < l.len() implies after.snippets[#[trigger] ids[i]]
                == newly_stored(l[i], now) by {
                if i < l.len() - 1 {
                    assert(ids[i] != id);
                    assert(l.drop_last()[i] == l[i]);
                }
            }
        }
    }
}

/// After a replacement the team library holds exactly the ids of the snippets
/// that were given.
pub proof fn law_team_library_is_replaced(st: Store, l: Seq<TeamSnippet>, now: i64, id: Seq<char>)
    ensures
        ({
            let after = apply_all(st, team_changes(l, now));
            &&& after.team.dom().contains(id) <==> exists|i: int|
                0 <= i < l.len() && team_id_of(#[trigger] l[i]) == id
            &&& after.snippets == st.snippets
            &&& after.folders == st.folders
        }),
    decreases l.len(),
{
    let all = team_changes(l, now);
    let after = apply_all(st, all);
    if l.len() == 0 {
        assert(all =~= seq![ChangeView::ClearTeam]);
        reveal_with_fuel(apply_all, 2);
        assert(all.drop_last() =~= Seq::<ChangeView>::empty());
    } else {
        let front = l.drop_last();
        assert(all.drop_last() =~= team_changes(front, now));
        assert(all.last() == team_change(l.last(), now));
        law_team_library_is_replaced(st, front, now, id);
        let before = apply_all(st, team_changes(front, now));
        if before.team.dom().contains(id) {
            let i = choose|i: int| 0 <= i < front.len() && team_id_of(#[trigger] front[i]) == id;
            assert(team_id_of(l[i]) == id);
        }
        if team_id_of(l.last()) == id {
            assert(team_id_of(l[l.len() - 1]) == id);
        }
        if exists|i: int| 0 <= i < l.len() && team_id_of(#[trigger] l[i]) == id {
            let i = choose|i: int| 0 <= i < l.len() && team_id_of(#[trigger] l[i]) == id;
            if i < front.len() {
                assert(team_id_of(front[i]) == id);
            }
        }
    }
}

/// A snippet is stored with the title and the body that it was given, with its tags, and in
/// the folder that it was given: a path of names as it stands, and none where it is blank.
pub proof fn law_snippets_are_stored_as_given(
    title: Seq<char>,
    body: Seq<char>,
    tags: Seq<Seq<char>>,
    names: Seq<Seq<char>>,
    none: Seq<char>,
)
    requires
        names.len() > 0,
        forall|i: int|
            0 <= i < names.len() ==> (#[trigger] names[i]).len() > 0 && trimmed(names[i])
                == names[i] && !names[i].contains('/'),
        all_blank(none),
    ensures
        ({
            let row = stored_row(title, body, tags, Some(joined(names, seq!['/'])));
            &&& row.title == title
            &&& row.body == body
            &&& row.tags == encoded_tags(tags)
            &&& row.folder == Some(joined(names, seq!['/']))
            &&& stored_row(title, body, tags, Some(none)).folder is None
            &&& stored_row(title, body, tags, None).folder is None
        }),
{
    let p = joined(names, seq!['/']);
    assert forall|i: int, j: int|
        0 <= i < names.len() && 0 <= j < names[i].len() implies #[trigger] names[i][j] != '/' by {
        assert(names[i].contains(names[i][j]));
    }
    law_split_undoes_join(names, '/');
    lemma_trimmed_parts_keep(names);
    assert(normalized(p) == p);
    lemma_joined_len(names);
    assert(!none.contains('/')) by {
        if none.contains('/') {
            let i = choose|i: int| 0 <= i < none.len() && none[i] == '/';
            assert(white_space(none[i]));
        }
    }
    law_blank_texts(none);
    law_a_name_is_a_segment(none);
}

proof fn lemma_joined_len(names: Seq<Seq<char>>)
    requires
        names.len() > 0,
        names[0].len() > 0,
    ensures
        joined(names, seq!['/']).len() > 0,
    decreases names.len(),
{
    if names.len() > 1 {
        assert(names.drop_last()[0] == names[0]);
        lemma_joined_len(names.drop_last());
    }
}

/// A use is counted once and its time is kept; a snippet of the team is kept under its id.
/// Nothing else changes.
pub proof fn law_uses_are_counted(
    st: Store,
    id: Seq<char>,
    other: Seq<char>,
    at: i64,
    row: RowView,
    version: i64,
)
    requires
        st.snippets.dom().contains(id),
        other != id,
    ensures
        ({
            let after = apply(st, use_change(id, at));
            &&& after.snippets[id].uses.count == st.snippets[id].uses.count + 1
            &&& after.snippets[id].uses.last == Some(at)
            &&& after.snippets[id].row == st.snippets[id].row
            &&& after.snippets.dom() == st.snippets.dom()
            &&& after.snippets[other] == st.snippets[other]
            &&& after.team == st.team
        }),
        ({
            let after = apply(st, library_change(id, row, version, at));
            &&& after.team.dom().contains(id) && after.team[id] == row
            &&& after.team.dom().contains(other) == st.team.dom().contains(other)
            &&& after.snippets == st.snippets
        }),
{
    assert(apply(st, use_change(id, at)).snippets.dom() =~= st.snippets.dom());
}

/// What lies in a folder moves with it: its own path becomes the new one, a path below it
/// keeps what stands behind, and any other path stays.
pub proof fn law_paths_move_with_their_folder(
    old: Seq<char>,
    new: Seq<char>,
    rest: Seq<char>,
    path: Seq<char>,
)
    ensures
        renamed(old, old, new) == new,
        renamed(old + seq!['/'] + rest, old, new) == new + seq!['/'] + rest,
        at_or_below(old, old),
        at_or_below(old + seq!['/'] + rest, old),
        !at_or_below(path, old) ==> renamed(path, old, new) == path,
        at_or_below(path, old) <==> path == old || (path.len() > old.len() && path[old.len() as int]
            == '/' && path.take(old.len() as int) == old),
{
    let w = old + seq!['/'] + rest;
    let o = old + seq!['/'];
    assert(w.subrange(0, o.len() as int) =~= o);
    assert(o.is_prefix_of(w));
    assert(old.skip(old.len() as int) =~= Seq::empty());
    assert(new + Seq::<char>::empty() =~= new);
    assert(w.skip(old.len() as int) =~= seq!['/'] + rest);
    assert(new + (seq!['/'] + rest) =~= new + seq!['/'] + rest);
    assert(w.len() > old.len());
    if o.is_prefix_of(path) {
        assert(path.subrange(0, o.len() as int) == o);
        assert(path.subrange(0, o.len() as int)[old.len() as int] == '/');
        assert(path.take(old.len() as int) =~= old) by {
            assert forall|i: int| 0 <= i < old.len() implies path[i] == old[i] by {
                assert(path.subrange(0, o.len() as int)[i] == o[i]);
            }
        }
    }
    if path.len() > old.len() && path[old.len() as int] == '/' && path.take(old.len() as int)
        == old {
        assert(path.subrange(0, o.len() as int) =~= o) by {
            assert forall|i: int| 0 <= i < old.len() implies path[i] == old[i] by {
                assert(path.take(old.len() as int)[i] == old[i]);
            }
        }
        assert(o.is_prefix_of(path));
    }
}

/// The tags of all snippets are those of each; a column without a text is no folder; and the
/// snippets of a folder are those that the last row with its path counts.
pub proof fn law_columns_are_gathered(
    rows: Seq<Seq<char>>,
    r: Seq<char>,
    counts: Seq<(String, i64)>,
    c: (String, i64),
    path: Seq<char>,
)
    ensures
        all_tags(Seq::empty()).len() == 0,
        all_tags(rows.push(r)) == all_tags(rows) + decoded_tags(r),
        folder_column(None) is None,
        folder_column(Some(Seq::empty())) is None,
        r.len() > 0 ==> folder_column(Some(r)) == Some(r),
        count_at(Seq::empty(), path) == 0,
        c.0@ == path ==> count_at(counts.push(c), path) == c.1,
        c.0@ != path ==> count_at(counts.push(c), path) == count_at(counts, path),
{
    assert(rows.push(r).drop_last() =~= rows);
    assert(counts.push(c).drop_last() =~= counts);
}

} // verus!
