//! What the log is told of an action is what the audit page says of it.
use crate::audit::action::{LIBRARY_EXPORT, LIBRARY_FOLDER_DELETE, LIBRARY_IMPORT, USER_CREATE};
use crate::audit::{Actor, AuditEntry};
use crate::dashboard::transfer::ExportScope;
use crate::library::{FOLDER_ALL, FOLDER_UNFILED};
use vstd::prelude::*;

verus! {

use crate::audit::{event_by, holds_details, is_detail, notes, DetailView};
use crate::dashboard::audit_text::{
    and_its,
    count_note,
    created_html,
    details_label,
    em_html,
    exported_html,
    folder_bit,
    folder_gone,
    imported_html,
    moved_html,
    moved_out,
    plural,
    search_bit,
    skipped_html,
};
use crate::dashboard::folders::{delete_details, move_details};
use crate::dashboard::sign_in::first_account_details;
use crate::dashboard::transfer::{export_details, import_details, scope_texts};
use crate::dashboard::users::account_details;
use crate::json::{json_of_text, member, JsonView};
use crate::text::{opt_view, uppercase_text};
use crate::trim::joined;

/// The actions that the page tells apart are different texts.
proof fn lemma_actions_differ()
    ensures
        "user.create"@.len() == 11,
        "user.update"@.len() == 11,
        "user.delete"@.len() == 11,
        "library.create"@.len() == 14,
        "library.update"@.len() == 14,
        "library.delete"@.len() == 14,
        "library.export"@.len() == 14,
        "library.import"@.len() == 14,
        "library.folder.move"@.len() == 19,
        "library.folder.delete"@.len() == 21,
        "library.export"@[8] == 'e',
        "library.import"@[8] == 'i',
        "library.create"@[8] == 'c',
        "library.update"@[8] == 'u',
        "library.delete"@[8] == 'd',
{
    reveal_strlit("user.create");
    reveal_strlit("user.update");
    reveal_strlit("user.delete");
    reveal_strlit("library.create");
    reveal_strlit("library.update");
    reveal_strlit("library.delete");
    reveal_strlit("library.export");
    reveal_strlit("library.import");
    reveal_strlit("library.folder.move");
    reveal_strlit("library.folder.delete");
}

/// A member that was told can be read.
proof fn lemma_told(j: Option<JsonView>, l: Seq<(Seq<char>, DetailView)>, i: int)
    requires
        holds_details(j, l),
        0 <= i < l.len(),
    ensures
        j is Some,
        is_detail(member(j->0, l[i].0), l[i].1),
{
    let e = l[i];
}

/// The page says of a move where the folder went, and how many snippets with it.
pub proof fn law_moves_are_told(
    r: AuditEntry,
    actor: Actor,
    old: Seq<char>,
    new: Seq<char>,
    snippets: nat,
)
    requires
        notes(
            r,
            event_by(
                actor,
                "library.folder.move"@,
                "folder"@,
                Some(new),
                Some(move_details(old, new, snippets)),
            ),
        ),
        snippets <= i64::MAX,
    ensures
        details_label(r.action@, opt_view(r.details)) == moved_html(
            old,
            if new.len() == 0 {
                "<em>(root)</em>"@
            } else {
                em_html(new)
            },
            if snippets > 0 {
                count_note(snippets as i64, plural(snippets as int))
            } else {
                Seq::empty()
            },
        ),
{
    lemma_actions_differ();
    let l = move_details(old, new, snippets);
    let j = json_of_text(r.details->0@);
    lemma_told(j, l, 0);
    lemma_told(j, l, 1);
    lemma_told(j, l, 2);
}

/// The page says of a deletion what became of the snippets in the folder.
pub proof fn law_folder_deletions_are_told(
    r: AuditEntry,
    actor: Actor,
    path: Seq<char>,
    cascade: bool,
    snippets: nat,
)
    requires
        notes(
            r,
            event_by(
                actor,
                LIBRARY_FOLDER_DELETE@,
                "folder"@,
                None,
                Some(delete_details(path, cascade, snippets)),
            ),
        ),
        snippets <= i64::MAX,
    ensures
        details_label(r.action@, opt_view(r.details)) == folder_gone(
            path,
            if snippets == 0 {
                " (empty)"@
            } else if cascade {
                and_its(snippets as i64, plural(snippets as int))
            } else {
                moved_out(snippets as i64, plural(snippets as int))
            },
        ),
{
    lemma_actions_differ();
    reveal_strlit("delete");
    reveal_strlit("move");
    assert("delete"@.len() != "move"@.len());
    let l = delete_details(path, cascade, snippets);
    let j = json_of_text(r.details->0@);
    lemma_told(j, l, 0);
    lemma_told(j, l, 1);
    lemma_told(j, l, 2);
}

/// The page says of an account that an admin made whose it is and in which role.
pub proof fn law_new_accounts_are_told(
    r: AuditEntry,
    actor: Actor,
    id: Seq<char>,
    email: Seq<char>,
    role: Seq<char>,
)
    requires
        notes(
            r,
            event_by(
                actor,
                USER_CREATE@,
                "user"@,
                Some(id),
                Some(account_details(email, role)),
            ),
        ),
    ensures
        details_label(r.action@, opt_view(r.details)) == created_html(email, role, ""@),
{
    reveal_strlit("email");
    reveal_strlit("role");
    reveal_strlit("via");
    let l = account_details(email, role);
    let j = json_of_text(r.details->0@);
    lemma_told(j, l, 0);
    lemma_told(j, l, 1);
    assert("via"@.len() == 3 && "email"@.len() == 5 && "role"@.len() == 4);
    if member(j->0, "via"@) is Some {
        let i = choose|i: int| 0 <= i < l.len() && (#[trigger] l[i]).0 == "via"@;
        assert(l[i].0 == "via"@);
    }
}

/// The page says of the first account that it came from the setup form.
pub proof fn law_the_first_account_is_told(
    r: AuditEntry,
    actor: Actor,
    id: Seq<char>,
    email: Seq<char>,
)
    requires
        notes(
            r,
            event_by(
                actor,
                USER_CREATE@,
                "user"@,
                Some(id),
                Some(first_account_details(email)),
            ),
        ),
    ensures
        details_label(r.action@, opt_view(r.details)) == created_html(
            email,
            "admin"@,
            " via first-run setup"@,
        ),
{
    let l = first_account_details(email);
    let j = json_of_text(r.details->0@);
    lemma_told(j, l, 0);
    lemma_told(j, l, 1);
    lemma_told(j, l, 2);
}

/// The page says of an import how many snippets came in, and how many were skipped.
pub proof fn law_imports_are_told(r: AuditEntry, actor: Actor, imported: nat, skipped: nat)
    requires
        notes(
            r,
            event_by(
                actor,
                LIBRARY_IMPORT@,
                "library"@,
                None,
                Some(import_details(imported, skipped)),
            ),
        ),
        imported <= i64::MAX,
        skipped <= i64::MAX,
    ensures
        details_label(r.action@, opt_view(r.details)) == imported_html(
            imported as i64,
            plural(imported as int),
        ) + (if skipped > 0 {
            skipped_html(skipped as i64, plural(skipped as int))
        } else {
            Seq::empty()
        }),
{
    lemma_actions_differ();
    let l = import_details(imported, skipped);
    let j = json_of_text(r.details->0@);
    lemma_told(j, l, 0);
    lemma_told(j, l, 1);
}

/// What the page says an export covered.
pub open spec fn told_scope(s: ExportScope) -> Seq<char> {
    match s {
        ExportScope::Selection => " (hand-picked selection)"@,
        ExportScope::Filter { q, folder } => {
            let search = if q@.len() == 0 {
                Seq::empty()
            } else {
                seq![search_bit(q@)]
            };
            let view = if folder@ == FOLDER_UNFILED@ {
                seq!["unfiled snippets"@]
            } else if folder@.len() > 0 && folder@ != FOLDER_ALL@ {
                seq![folder_bit(folder@)]
            } else {
                Seq::empty()
            };
            if (search + view).len() == 0 {
                " (whole library)"@
            } else {
                " ("@ + joined(search + view, ", "@) + ")"@
            }
        },
    }
}

/// The page says of an export how many snippets went out, in which format, and what
/// they were narrowed by.
pub proof fn law_exports_are_told(
    r: AuditEntry,
    actor: Actor,
    count: nat,
    format: Seq<char>,
    s: ExportScope,
)
    requires
        notes(
            r,
            event_by(
                actor,
                LIBRARY_EXPORT@,
                "library"@,
                None,
                Some(export_details(count, format, s)),
            ),
        ),
        count <= i64::MAX,
    ensures
        details_label(r.action@, opt_view(r.details)) == exported_html(
            count as i64,
            plural(count as int),
            uppercase_text(format),
            told_scope(s),
        ),
{
    lemma_actions_differ();
    reveal_strlit("q");
    reveal_strlit("folder");
    reveal_strlit("selection");
    let l = export_details(count, format, s);
    let j = json_of_text(r.details->0@);
    lemma_told(j, l, 0);
    lemma_told(j, l, 1);
    lemma_told(j, l, 2);
    let o = member(j->0, "scope"@)->0;
    let g = scope_texts(s);
    assert("q"@.len() == 1 && "folder"@.len() == 6 && "selection"@.len() == 9);
    match s {
        ExportScope::Selection => {
            assert(g[0].0 == "selection"@);
        },
        ExportScope::Filter { q, folder } => {
            assert(g[0] == ("folder"@, folder@));
            assert(g[1] == ("q"@, q@));
            if member(o, "selection"@) is Some {
                let i = choose|i: int| 0 <= i < g.len() && (#[trigger] g[i]).0 == "selection"@;
                assert(g[i].0 == "selection"@);
            }
        },
    }
}

} // verus!
