//! The operations on the store, as of now.
use crate::clock::unix_now;
use crate::csv::trim_or_none;
use crate::db::{
    create,
    duplicate_of,
    plan_create_folder,
    plan_delete,
    plan_delete_folder,
    plan_rename_folder,
    plan_replace_team,
    plan_update,
    plan_upsert_from_remote,
    plan_upsert_library,
    Change,
    Snippet,
    UpdateSnippet,
};
use crate::shared_library::TeamSnippet;
use crate::text::copy_text;
use vstd::prelude::*;

verus! {

use crate::csv::trimmed_or_none;
use crate::db::{
    change_views,
    creates,
    delete_changes,
    delete_folder_changes,
    folder_changes,
    remote_changes,
    rename_changes,
    stored_row,
    team_changes,
    update_changes,
    ChangeView,
    NewSnippetView,
    RowView,
};
use crate::ident::uuid_form;
use crate::paths::{ancestors, normalized};
use crate::text::{opt_str_view, opt_view, views};
use crate::trim::{all_blank, law_blank_texts, trimmed};

/// Overwrites a snippet.
pub fn update(id: &str, input: &UpdateSnippet) -> (r: Vec<Change>)
    ensures
        exists|now: i64|
            change_views(r@) == #[trigger] update_changes(
                id@,
                input.title@,
                input.body@,
                views(input.tags@),
                opt_view(input.folder_path),
                now,
            ),
{
    let now: i64 = unix_now();
    plan_update(id, input, now)
}

/// Deletes a snippet, given the version that the server has of it; none where it was
/// never pushed.
pub fn delete(id: &str, server_version: Option<i64>) -> (r: Vec<Change>)
    ensures
        exists|now: i64|
            change_views(r@) == #[trigger] delete_changes(id@, server_version, now),
{
    let now: i64 = unix_now();
    plan_delete(id, server_version, now)
}

/// What a copy of a snippet holds: the same, under a title that says so.
pub open spec fn copy_of(src: Snippet) -> NewSnippetView {
    NewSnippetView {
        title: src.title@ + " (copy)"@,
        body: src.body@,
        tags: views(src.tags@),
        folder_path: opt_view(src.folder_path),
    }
}

/// Adds a copy of a snippet under an id of its own, which comes with the plan.
pub fn duplicate(src: &Snippet) -> (r: (String, Vec<Change>))
    ensures
        creates(change_views(r.1@), copy_of(*src), r.0@),
        uuid_form(r.0@),
{
    let input = duplicate_of(src);
    assert(input@ =~= copy_of(*src));
    create(&input)
}

/// Lists a folder with its parents.
pub fn create_folder(path: &str) -> (r: Result<Vec<Change>, String>)
    ensures
        match r {
            Ok(l) => normalized(path@).len() > 0 && exists|now: i64|
                change_views(l@) == #[trigger] folder_changes(ancestors(normalized(path@)), now),
            Err(e) => normalized(path@).len() == 0 && e@ == "folder path cannot be empty"@,
        },
{
    let now: i64 = unix_now();
    plan_create_folder(path, now)
}

/// Renames a folder and everything below it.
pub fn rename_folder(old_path: &str, new_path: &str) -> (r: Result<Vec<Change>, String>)
    ensures
        ({
            let old = normalized(old_path@);
            let new = normalized(new_path@);
            match r {
                Ok(l) => old.len() > 0 && new.len() > 0 && exists|now: i64|
                    change_views(l@) == #[trigger] rename_changes(old, new, now),
                Err(e) => (old.len() == 0 || new.len() == 0) && e@
                    == "folder paths cannot be empty"@,
            }
        }),
{
    let now: i64 = unix_now();
    plan_rename_folder(old_path, new_path, now)
}

/// Deletes a folder and those below it; the snippets go too, or move to the root.
pub fn delete_folder(path: &str, delete_snippets: bool) -> (r: Result<Vec<Change>, String>)
    ensures
        match r {
            Ok(l) => normalized(path@).len() > 0 && exists|now: i64|
                change_views(l@) == #[trigger] delete_folder_changes(
                    normalized(path@),
                    delete_snippets,
                    now,
                ),
            Err(e) => normalized(path@).len() == 0 && e@ == "folder path cannot be empty"@,
        },
{
    let now: i64 = unix_now();
    plan_delete_folder(path, delete_snippets, now)
}

/// Takes over a snippet as the server has it.
pub fn upsert_from_remote(
    id: &str,
    title: &str,
    body: &str,
    tags: &Vec<String>,
    folder_path: Option<&str>,
    server_version: i64,
    created_at: i64,
    updated_at: i64,
) -> (r: Vec<Change>)
    ensures
        exists|now: i64|
            change_views(r@) == #[trigger] remote_changes(
                id@,
                stored_row(title@, body@, views(tags@), opt_str_view(folder_path)),
                server_version,
                created_at,
                updated_at,
                now,
            ),
{
    let now: i64 = unix_now();
    plan_upsert_from_remote(
        id,
        title,
        body,
        tags,
        folder_path,
        server_version,
        created_at,
        updated_at,
        now,
    )
}

/// Replaces the team library; the count is that of the snippets given.
pub fn replace_team_snippets(snippets: &Vec<TeamSnippet>) -> (r: (Vec<Change>, usize))
    ensures
        exists|now: i64| change_views(r.0@) == #[trigger] team_changes(snippets@, now),
        r.1 == snippets@.len(),
{
    let now: i64 = unix_now();
    plan_replace_team(snippets, now)
}

/// The change that takes over a row of the team library at a time.
pub open spec fn library_change(
    team_id: Seq<char>,
    row: RowView,
    version: i64,
    at: i64,
) -> ChangeView {
    ChangeView::PutTeam { team_id, row, at, version }
}

/// Takes over one row of the server's team library.
pub fn upsert_library_snippet(
    team_id: &str,
    title: &str,
    body: &str,
    tags: &Vec<String>,
    folder_path: Option<&str>,
    server_version: i64,
) -> (r: Change)
    ensures
        exists|now: i64|
            r@ == #[trigger] library_change(
                team_id@,
                stored_row(title@, body@, views(tags@), opt_str_view(folder_path)),
                server_version,
                now,
            ),
{
    let now: i64 = unix_now();
    let r = plan_upsert_library(team_id, title, body, tags, folder_path, server_version, now);
    assert(r@ == library_change(
        team_id@,
        stored_row(title@, body@, views(tags@), opt_str_view(folder_path)),
        server_version,
        now,
    ));
    r
}

/// Drops a row of the team library that the server has no more.
pub fn delete_library_snippet(team_id: &str) -> (r: Change)
    ensures
        r@ == (ChangeView::RemoveTeam { team_id: team_id@ }),
{
    Change::RemoveTeam { team_id: copy_text(team_id) }
}

/// Drops the team library.
pub fn clear_library_snippets() -> (r: Change)
    ensures
        r@ == ChangeView::ClearTeam,
{
    Change::ClearTeam
}

/// Notes that the server has acknowledged a push at this version.
pub fn mark_synced(id: &str, server_version: i64) -> (r: Change)
    ensures
        r@ == (ChangeView::MarkSynced { id: id@, version: server_version }),
{
    Change::MarkSynced { id: copy_text(id), version: server_version }
}

/// Forgets a queued deletion that the server has acknowledged.
pub fn clear_pending_delete(snippet_id: &str) -> (r: Change)
    ensures
        r@ == (ChangeView::ClearQueued { id: snippet_id@ }),
{
    Change::ClearQueued { id: copy_text(snippet_id) }
}

/// The change that counts a use at a time.
pub open spec fn use_change(id: Seq<char>, at: i64) -> ChangeView {
    ChangeView::RecordUse { id, at }
}

/// Counts a use of a snippet.
pub fn record_use(id: &str) -> (r: Change)
    ensures
        exists|now: i64| r@ == #[trigger] use_change(id@, now),
{
    let now: i64 = unix_now();
    let r = Change::RecordUse { id: copy_text(id), at: now };
    assert(r@ == use_change(id@, now));
    r
}

/// What pairs of a variable and its value hold.
pub open spec fn value_views(l: Seq<(String, String)>) -> Seq<(Seq<char>, Seq<char>)> {
    Seq::new(l.len(), |i: int| (l[i].0@, l[i].1@))
}

/// The values that are worth remembering: trimmed, and not empty.
pub open spec fn kept_values(l: Seq<(Seq<char>, Seq<char>)>) -> Seq<(Seq<char>, Seq<char>)>
    decreases l.len(),
{
    if l.len() == 0 {
        Seq::empty()
    } else {
        let before = kept_values(l.drop_last());
        match trimmed_or_none(l.last().1) {
            Some(v) => before.push((l.last().0, v)),
            None => before,
        }
    }
}

/// The values of variables that are remembered for the next time: trimmed, and not
/// empty.
pub fn record_variable_values(vars: &Vec<(String, String)>) -> (r: Vec<(String, String)>)
    ensures
        value_views(r@) == kept_values(value_views(vars@)),
{
    let n: usize = vars.len();
    let mut out: Vec<(String, String)> = Vec::new();
    let ghost all = value_views(vars@);
    assert(all.take(0) =~= Seq::<(Seq<char>, Seq<char>)>::empty());
    assert(value_views(out@) =~= Seq::<(Seq<char>, Seq<char>)>::empty());
    for i in 0..n
        invariant
            n == vars@.len(),
            all == value_views(vars@),
            value_views(out@) == kept_values(all.take(i as int)),
    {
        proof {
            let t = all.take(i + 1);
            assert(t.drop_last() =~= all.take(i as int));
            assert(t.last() == (vars@[i as int].0@, vars@[i as int].1@));
        }
        if let Some(v) = trim_or_none(vars[i].1.as_str()) {
            let e = (copy_text(vars[i].0.as_str()), v);
            let ghost before = out@;
            out.push(e);
            assert(value_views(out@) =~= value_views(before).push((e.0@, e.1@)));
        }
    }
    assert(all.take(n as int) =~= all);
    out
}

/// The values that are remembered for variables are those that are not blank, without their
/// outer blanks, in order.
pub proof fn law_values_are_remembered(
    l: Seq<(Seq<char>, Seq<char>)>,
    name: Seq<char>,
    value: Seq<char>,
)
    ensures
        all_blank(value) ==> kept_values(l.push((name, value))) == kept_values(l),
        !all_blank(value) ==> kept_values(l.push((name, value))) == kept_values(l).push(
            (name, trimmed(value)),
        ),
        kept_values(Seq::empty()).len() == 0,
{
    law_blank_texts(value);
    assert(l.push((name, value)).drop_last() =~= l);
}

/// A copy has the body, the tags and the folder of its snippet, and a title that tells it from
/// it.
pub proof fn law_copies_are_told_apart(s: Snippet)
    ensures
        copy_of(s).body == s.body@,
        copy_of(s).tags == views(s.tags@),
        copy_of(s).folder_path == opt_view(s.folder_path),
        s.title@.is_prefix_of(copy_of(s).title),
        copy_of(s).title != s.title@,
        copy_of(s).title == s.title@ + seq![' ', '(', 'c', 'o', 'p', 'y', ')'],
{
    reveal_strlit(" (copy)");
    assert(" (copy)"@ =~= seq![' ', '(', 'c', 'o', 'p', 'y', ')']);
    assert(copy_of(s).title.len() == s.title@.len() + 7);
}

} // verus!
