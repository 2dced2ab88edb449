//! Saving library snippets from the editor.
use crate::csv::trim_or_none;
use crate::dashboard::forms::{LibraryCreateForm, LibraryEditForm, LibraryMoveForm};
use crate::dashboard::transfer::LibraryPayload;
use crate::ident::new_uuid;
use crate::library::LibraryRow;
use crate::tags::{decode_tags, encode_tags};
use crate::text::copy_text;
use crate::trim::{is_blank, trim};
use vstd::prelude::*;

verus! {

use crate::csv::{trimmed_or_none, EntryView};
use crate::dashboard::transfer::payload_view;
use crate::ident::uuid_form;
use crate::tags::{decoded_tags, encoded_tags};
use crate::text::{opt_view, views};
use crate::trim::{
    all_blank,
    joined,
    law_blank_texts,
    law_split_undoes_join,
    lemma_trimmed_parts_keep,
    trimmed,
};

/// What is said where the title or the text is missing.
pub const TITLE_AND_BODY_REQUIRED: &'static str =
    "<div class=\"banner error\">Title and body are required.</div>";

/// What is said where there is no such snippet.
pub const SNIPPET_NOT_FOUND: &'static str =
    "<div class=\"banner error\">Snippet not found.</div>";

/// Whether a form can be saved: it has a title and a text.
pub open spec fn complete_form(title: Seq<char>, body: Seq<char>) -> bool {
    trimmed(title).len() > 0 && trimmed(body).len() > 0
}

/// What a form asks to be saved: the title is trimmed, the text is not, the tags
/// are those between commas, and a blank folder is none.
pub open spec fn form_payload(
    title: Seq<char>,
    body: Seq<char>,
    tags: Seq<char>,
    folder: Seq<char>,
) -> EntryView {
    EntryView {
        title: trimmed(title),
        body,
        tags: decoded_tags(tags),
        folder_path: trimmed_or_none(folder),
    }
}

/// What a form asks to be saved; none where the title or the text is missing.
fn payload_of_form(title: &str, body: &str, tags: &str, folder_path: &str) -> (r: Option<
    LibraryPayload,
>)
    ensures
        match r {
            Some(p) => complete_form(title@, body@) && payload_view(p) == form_payload(
                title@,
                body@,
                tags@,
                folder_path@,
            ),
            None => !complete_form(title@, body@),
        },
{
    let t = trim(title);
    if t.as_str().unicode_len() == 0 || is_blank(body) {
        return None;
    }
    let p = LibraryPayload {
        title: t,
        body: copy_text(body),
        tags: decode_tags(tags),
        folder_path: trim_or_none(folder_path),
    };
    assert(payload_view(p) =~= form_payload(title@, body@, tags@, folder_path@));
    Some(p)
}

/// A snippet to be added under an id.
#[derive(Debug)]
pub struct CreateRequest {
    pub id: String,
    pub payload: LibraryPayload,
}

/// A snippet to be saved, provided that it still has this version.
#[derive(Debug)]
pub struct UpdateRequest {
    pub expected_version: i64,
    pub payload: LibraryPayload,
}

/// What the form for a new snippet asks for, under an id of its own; none where the
/// title or the text is missing.
pub fn library_create(f: &LibraryCreateForm) -> (r: Option<CreateRequest>)
    ensures
        match r {
            Some(c) => complete_form(f.title@, f.body@) && uuid_form(c.id@) && payload_view(
                c.payload,
            ) == form_payload(f.title@, f.body@, f.tags@, f.folder_path@),
            None => !complete_form(f.title@, f.body@),
        },
{
    match payload_of_form(
        f.title.as_str(),
        f.body.as_str(),
        f.tags.as_str(),
        f.folder_path.as_str(),
    ) {
        Some(payload) => Some(CreateRequest { id: new_uuid(), payload }),
        None => None,
    }
}

/// What the form for a snippet asks for, with the version that it was opened at;
/// none where the title or the text is missing.
pub fn library_update(f: &LibraryEditForm) -> (r: Option<UpdateRequest>)
    ensures
        match r {
            Some(u) => complete_form(f.title@, f.body@) && u.expected_version
                == f.expected_version && payload_view(u.payload) == form_payload(
                f.title@,
                f.body@,
                f.tags@,
                f.folder_path@,
            ),
            None => !complete_form(f.title@, f.body@),
        },
{
    match payload_of_form(
        f.title.as_str(),
        f.body.as_str(),
        f.tags.as_str(),
        f.folder_path.as_str(),
    ) {
        Some(payload) => Some(UpdateRequest { expected_version: f.expected_version, payload }),
        None => None,
    }
}

/// The row of a snippet that was just saved, as a fresh read would give it.
pub fn saved_row(
    p: LibraryPayload,
    id: String,
    version: i64,
    updated_at: i64,
    use_count: i64,
    last_used: Option<i64>,
) -> (r: LibraryRow)
    ensures
        r.id@ == id@,
        r.title@ == p.title@,
        r.body@ == p.body@,
        r.tags@ == encoded_tags(views(p.tags@)),
        opt_view(r.folder_path) == opt_view(p.folder_path),
        r.version == version,
        r.updated_at == updated_at,
        r.use_count == use_count,
        r.last_used == last_used,
{
    let tags = encode_tags(&p.tags);
    LibraryRow {
        id,
        title: p.title,
        body: p.body,
        tags,
        folder_path: p.folder_path,
        version,
        updated_at,
        use_count,
        last_used,
    }
}

/// What a drag to another folder saves: the snippet as it is, in that folder.
pub fn library_move(row: &LibraryRow, f: &LibraryMoveForm) -> (r: UpdateRequest)
    ensures
        r.expected_version == row.version,
        payload_view(r.payload) == (EntryView {
            title: row.title@,
            body: row.body@,
            tags: decoded_tags(row.tags@),
            folder_path: trimmed_or_none(f.folder_path@),
        }),
{
    UpdateRequest {
        expected_version: row.version,
        payload: LibraryPayload {
            title: copy_text(row.title.as_str()),
            body: copy_text(row.body.as_str()),
            tags: decode_tags(row.tags.as_str()),
            folder_path: trim_or_none(f.folder_path.as_str()),
        },
    }
}

/// A form becomes a snippet where it has a title and a body: with the title without its outer
/// blanks, the body as it is, the tags that commas part, and the folder without its outer
/// blanks where it names one.
pub proof fn law_forms_become_snippets(
    title: Seq<char>,
    body: Seq<char>,
    tags: Seq<Seq<char>>,
    folder: Seq<char>,
)
    requires
        tags.len() > 0,
        forall|i: int|
            0 <= i < tags.len() ==> !(#[trigger] tags[i]).contains(',') && trimmed(tags[i])
                == tags[i] && tags[i].len() > 0,
    ensures
        complete_form(title, body) <==> !all_blank(title) && !all_blank(body),
        ({
            let p = form_payload(title, body, joined(tags, seq![',']), folder);
            &&& p.title == trimmed(title)
            &&& p.body == body
            &&& p.tags == tags
            &&& all_blank(folder) ==> p.folder_path is None
            &&& !all_blank(folder) ==> p.folder_path == Some(trimmed(folder))
        }),
{
    law_blank_texts(title);
    law_blank_texts(body);
    law_blank_texts(folder);
    assert forall|i: int, j: int|
        0 <= i < tags.len() && 0 <= j < tags[i].len() implies #[trigger] tags[i][j] != ',' by {
        assert(tags[i].contains(tags[i][j]));
    }
    law_split_undoes_join(tags, ',');
    lemma_trimmed_parts_keep(tags);
}

} // verus!
