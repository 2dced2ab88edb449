//! Size and character limits for snippet data, enforced on every write path.
use crate::decimal::count_text;
use crate::text::{chars_of, is_control};
use crate::trim::is_blank;
use vstd::prelude::*;

verus! {

use crate::decimal::decimal;
use crate::text::{control_code, opt_str_view, views};
use crate::trim::{all_blank, law_blank_texts, trimmed};

pub const TITLE_MAX_CHARS: usize = 300;

pub const BODY_MAX_CHARS: usize = 100_000;

pub const TAG_MAX_CHARS: usize = 60;

pub const MAX_TAGS: usize = 50;

/// Full path, separators included.
pub const FOLDER_MAX_CHARS: usize = 300;

/// What a body may not hold: control codes other than line breaks and tabs.
pub open spec fn forbidden_in_body(c: char) -> bool {
    control_code(c) && c != '\n' && c != '\r' && c != '\t'
}

/// What a one-line field may not hold: any control code.
pub open spec fn forbidden_in_line(c: char) -> bool {
    control_code(c)
}

/// Whether some character of `s` may not stand in a one-line field.
pub open spec fn bad_line(s: Seq<char>) -> bool {
    exists|i: int| 0 <= i < s.len() && forbidden_in_line(#[trigger] s[i])
}

/// Whether some character of `s` may not stand in a body.
pub open spec fn bad_body(s: Seq<char>) -> bool {
    exists|i: int| 0 <= i < s.len() && forbidden_in_body(#[trigger] s[i])
}

/// The message for a text of `n` characters where at most `max` are allowed.
pub open spec fn too_long(what: Seq<char>, n: nat, max: nat) -> Seq<char> {
    what + " is too long ("@ + decimal(n) + " characters; max "@ + decimal(max) + ")"@
}

/// What is wrong with a title, if anything.
pub open spec fn title_fault(title: Seq<char>) -> Option<Seq<char>> {
    if trimmed(title).len() == 0 {
        Some("title is required"@)
    } else if title.len() > TITLE_MAX_CHARS {
        Some(too_long("title"@, title.len(), TITLE_MAX_CHARS as nat))
    } else if bad_line(title) {
        Some("title contains control characters"@)
    } else {
        None
    }
}

/// What is wrong with a body, if anything.
pub open spec fn body_fault(body: Seq<char>) -> Option<Seq<char>> {
    if body.len() > BODY_MAX_CHARS {
        Some(too_long("snippet body"@, body.len(), BODY_MAX_CHARS as nat))
    } else if bad_body(body) {
        Some("snippet body contains control characters"@)
    } else {
        None
    }
}

/// What is wrong with one tag, if anything.
pub open spec fn tag_fault(tag: Seq<char>) -> Option<Seq<char>> {
    if tag.len() > TAG_MAX_CHARS {
        Some(too_long("tag"@, tag.len(), TAG_MAX_CHARS as nat))
    } else if bad_line(tag) {
        Some("tag contains control characters"@)
    } else {
        None
    }
}

/// The fault of the first faulty tag from `i` on.
pub open spec fn first_tag_fault(tags: Seq<Seq<char>>, i: int) -> Option<Seq<char>>
    decreases tags.len() - i,
{
    if i < 0 || i >= tags.len() {
        None
    } else if tag_fault(tags[i]) is Some {
        tag_fault(tags[i])
    } else {
        first_tag_fault(tags, i + 1)
    }
}

/// What is wrong with a list of tags, if anything.
pub open spec fn tags_fault(tags: Seq<Seq<char>>) -> Option<Seq<char>> {
    if tags.len() > MAX_TAGS {
        Some("too many tags ("@ + decimal(tags.len()) + "; max "@ + decimal(MAX_TAGS as nat) + ")"@)
    } else {
        first_tag_fault(tags, 0)
    }
}

/// What is wrong with a folder path, if anything.
pub open spec fn folder_fault(folder: Option<Seq<char>>) -> Option<Seq<char>> {
    match folder {
        None => None,
        Some(p) => if p.len() > FOLDER_MAX_CHARS {
            Some(too_long("folder path"@, p.len(), FOLDER_MAX_CHARS as nat))
        } else if bad_line(p) {
            Some("folder path contains control characters"@)
        } else {
            None
        },
    }
}

/// What is wrong with a snippet: the first fault of its title, body, tags and
/// folder, in this order.
pub open spec fn snippet_fault(
    title: Seq<char>,
    body: Seq<char>,
    tags: Seq<Seq<char>>,
    folder: Option<Seq<char>>,
) -> Option<Seq<char>> {
    if title_fault(title) is Some {
        title_fault(title)
    } else if body_fault(body) is Some {
        body_fault(body)
    } else if tags_fault(tags) is Some {
        tags_fault(tags)
    } else {
        folder_fault(folder)
    }
}

/// Whether a check's outcome says exactly what is wrong.
pub open spec fn reports(r: Result<(), String>, fault: Option<Seq<char>>) -> bool {
    match r {
        Ok(_) => fault is None,
        Err(e) => fault == Some(e@),
    }
}

fn too_long_text(what: &str, n: usize, max: usize) -> (r: String)
    ensures
        r@ == too_long(what@, n as nat, max as nat),
{
    let mut out: String = what.to_owned();
    out.push_str(" is too long (");
    let a = count_text(n);
    out.push_str(a.as_str());
    out.push_str(" characters; max ");
    let b = count_text(max);
    out.push_str(b.as_str());
    out.push_str(")");
    out
}

fn has_bad_line(v: &Vec<char>) -> (r: bool)
    ensures
        r == bad_line(v@),
{
    let n: usize = v.len();
    for i in 0..n
        invariant
            n == v@.len(),
            forall|j: int| 0 <= j < i ==> !forbidden_in_line(#[trigger] v@[j]),
    {
        if is_control(v[i]) {
            assert(forbidden_in_line(v@[i as int]));
            return true;
        }
    }
    false
}

/// Checks a title: not blank, at most `TITLE_MAX_CHARS` characters, no control
/// characters.
pub fn validate_title(title: &str) -> (r: Result<(), String>)
    ensures
        reports(r, title_fault(title@)),
{
    if is_blank(title) {
        return Err("title is required".to_owned());
    }
    let v: Vec<char> = chars_of(title);
    if v.len() > TITLE_MAX_CHARS {
        return Err(too_long_text("title", v.len(), TITLE_MAX_CHARS));
    }
    if has_bad_line(&v) {
        return Err("title contains control characters".to_owned());
    }
    Ok(())
}

/// Checks a body: at most `BODY_MAX_CHARS` characters, no control characters but
/// line breaks and tabs.
pub fn validate_body(body: &str) -> (r: Result<(), String>)
    ensures
        reports(r, body_fault(body@)),
{
    let v: Vec<char> = chars_of(body);
    let n: usize = v.len();
    if n > BODY_MAX_CHARS {
        return Err(too_long_text("snippet body", n, BODY_MAX_CHARS));
    }
    for i in 0..n
        invariant
            n == v@.len(),
            n <= BODY_MAX_CHARS,
            v@ == body@,
            forall|j: int| 0 <= j < i ==> !forbidden_in_body(#[trigger] v@[j]),
    {
        let c = v[i];
        if is_control(c) && c != '\n' && c != '\r' && c != '\t' {
            assert(forbidden_in_body(body@[i as int]));
            return Err("snippet body contains control characters".to_owned());
        }
    }
    Ok(())
}

/// Checks a list of tags: at most `MAX_TAGS`, each at most `TAG_MAX_CHARS`
/// characters without control characters.
pub fn validate_tags(tags: &[String]) -> (r: Result<(), String>)
    ensures
        reports(r, tags_fault(views(tags@))),
{
    let n: usize = tags.len();
    if n > MAX_TAGS {
        let mut out: String = "too many tags (".to_owned();
        let a = count_text(n);
        out.push_str(a.as_str());
        out.push_str("; max ");
        let b = count_text(MAX_TAGS);
        out.push_str(b.as_str());
        out.push_str(")");
        return Err(out);
    }
    for i in 0..n
        invariant
            n == tags@.len(),
            n <= MAX_TAGS,
            first_tag_fault(views(tags@), 0) == first_tag_fault(views(tags@), i as int),
    {
        let v: Vec<char> = chars_of(tags[i].as_str());
        assert(views(tags@)[i as int] == tags@[i as int]@);
        if v.len() > TAG_MAX_CHARS {
            return Err(too_long_text("tag", v.len(), TAG_MAX_CHARS));
        }
        if has_bad_line(&v) {
            return Err("tag contains control characters".to_owned());
        }
    }
    Ok(())
}

/// Checks a folder path: at most `FOLDER_MAX_CHARS` characters, no control
/// characters.
pub fn validate_folder(folder_path: Option<&str>) -> (r: Result<(), String>)
    ensures
        reports(r, folder_fault(opt_str_view(folder_path))),
{
    match folder_path {
        None => Ok(()),
        Some(p) => {
            let v: Vec<char> = chars_of(p);
            if v.len() > FOLDER_MAX_CHARS {
                return Err(too_long_text("folder path", v.len(), FOLDER_MAX_CHARS));
            }
            if has_bad_line(&v) {
                return Err("folder path contains control characters".to_owned());
            }
            Ok(())
        },
    }
}

/// Checks a whole snippet; the first fault found is reported.
pub fn validate_snippet(
    title: &str,
    body: &str,
    tags: &[String],
    folder_path: Option<&str>,
) -> (r: Result<(), String>)
    ensures
        reports(r, snippet_fault(title@, body@, views(tags@), opt_str_view(folder_path))),
{
    match validate_title(title) {
        Err(e) => return Err(e),
        Ok(_) => {},
    }
    match validate_body(body) {
        Err(e) => return Err(e),
        Ok(_) => {},
    }
    match validate_tags(tags) {
        Err(e) => return Err(e),
        Ok(_) => {},
    }
    validate_folder(folder_path)
}

/// A snippet passes exactly where its title, body, every tag and folder pass.
pub proof fn law_snippet_passes_iff_its_parts_do(
    title: Seq<char>,
    body: Seq<char>,
    tags: Seq<Seq<char>>,
    folder: Option<Seq<char>>,
)
    ensures
        snippet_fault(title, body, tags, folder) is None <==> title_fault(title) is None
            && body_fault(body) is None && folder_fault(folder) is None && tags.len() <= MAX_TAGS
            && forall|i: int| 0 <= i < tags.len() ==> tag_fault(#[trigger] tags[i]) is None,
{
    lemma_first_tag_fault(tags, 0);
}

proof fn lemma_first_tag_fault(tags: Seq<Seq<char>>, i: int)
    requires
        0 <= i <= tags.len(),
    ensures
        first_tag_fault(tags, i) is None <==> forall|j: int|
            i <= j < tags.len() ==> tag_fault(#[trigger] tags[j]) is None,
    decreases tags.len() - i,
{
    if i < tags.len() {
        lemma_first_tag_fault(tags, i + 1);
    }
}

/// Whether a text holds a control character: one below the space, or from delete to the end
/// of the second set of controls.
pub open spec fn holds_controls(s: Seq<char>) -> bool {
    exists|i: int|
        0 <= i < s.len() && (#[trigger] s[i] as u32 <= 0x1f || 0x7f <= s[i] as u32 <= 0x9f)
}

/// A title passes exactly where some of it is no blank, it has at most three hundred
/// characters and none of them is a control character.
pub proof fn law_titles_that_pass(title: Seq<char>)
    ensures
        title_fault(title) is None <==> !all_blank(title) && title.len() <= 300 && !holds_controls(
            title,
        ),
{
    law_blank_texts(title);
    lemma_line_controls(title);
}

/// A body passes exactly where it has at most a hundred thousand characters, and none of them
/// is a control character but line feeds, carriage returns and tabs.
pub proof fn law_bodies_that_pass(body: Seq<char>)
    ensures
        body_fault(body) is None <==> body.len() <= 100_000 && forall|i: int|
            0 <= i < body.len() && (#[trigger] body[i] as u32 <= 0x1f || 0x7f <= body[i] as u32
                <= 0x9f) ==> body[i] == '\n' || body[i] == '\r' || body[i] == '\t',
{
    if bad_body(body) {
        let i = choose|i: int| 0 <= i < body.len() && forbidden_in_body(#[trigger] body[i]);
        assert(body[i] as u32 <= 0x1f || 0x7f <= body[i] as u32 <= 0x9f);
    } else {
        assert forall|i: int|
            0 <= i < body.len() && (#[trigger] body[i] as u32 <= 0x1f || 0x7f <= body[i] as u32
                <= 0x9f) implies body[i] == '\n' || body[i] == '\r' || body[i] == '\t' by {
            assert(!forbidden_in_body(body[i]));
        }
    }
}

/// Tags pass exactly where there are at most fifty, each with at most sixty characters, none
/// of them a control character.
pub proof fn law_tags_that_pass(tags: Seq<Seq<char>>)
    ensures
        tags_fault(tags) is None <==> tags.len() <= 50 && forall|i: int|
            0 <= i < tags.len() ==> (#[trigger] tags[i]).len() <= 60 && !holds_controls(tags[i]),
{
    lemma_first_tag_fault(tags, 0);
    assert forall|i: int| 0 <= i < tags.len() implies (tag_fault(#[trigger] tags[i]) is None <==>
        tags[i].len() <= 60 && !holds_controls(tags[i])) by {
        lemma_line_controls(tags[i]);
    }
}

/// A folder passes exactly where there is none, or where its path has at most three hundred
/// characters, none of them a control character.
pub proof fn law_folders_that_pass(path: Seq<char>)
    ensures
        folder_fault(None) is None,
        folder_fault(Some(path)) is None <==> path.len() <= 300 && !holds_controls(path),
{
    lemma_line_controls(path);
}

proof fn lemma_line_controls(s: Seq<char>)
    ensures
        bad_line(s) == holds_controls(s),
{
    if bad_line(s) {
        let i = choose|i: int| 0 <= i < s.len() && forbidden_in_line(#[trigger] s[i]);
        assert(s[i] as u32 <= 0x1f || 0x7f <= s[i] as u32 <= 0x9f);
    }
    if holds_controls(s) {
        let i = choose|i: int|
            0 <= i < s.len() && (#[trigger] s[i] as u32 <= 0x1f || 0x7f <= s[i] as u32 <= 0x9f);
        assert(forbidden_in_line(s[i]));
    }
}

} // verus!
