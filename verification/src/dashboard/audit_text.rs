//! Entries of the audit log, as they read to people.
use crate::decimal::i64_text;
use crate::diff::render_diff_field;
use crate::html::escape_html;
use crate::json::{as_bool, as_int, as_text, get, parse_json, value_to_string, Json};
use crate::library::{FOLDER_ALL, FOLDER_UNFILED};
use crate::text::{
    char_to_uppercase,
    chars_of,
    copy_text,
    push_text,
    same_text,
    str_to_uppercase,
    string_of,
    text_between,
};
use crate::trim::{join, split};
use crate::url::url_encode;
use vstd::prelude::*;

verus! {

use crate::dashboard::layout::or_empty;
use crate::decimal::decimal_int;
use crate::diff::diff_field_html;
use crate::html::escaped;
use crate::json::{bool_of, int_of, json_of_text, json_view, member, opt_json, plain_text, text_of, JsonView};
use crate::text::{opt_str_view, opt_view, uppercase_char, uppercase_text, views};
use crate::trim::{joined, lemma_pieces_nonempty, pieces};
use crate::url::percent_encoded;
use vstd::utf8::encode_utf8;

/// What stands for nothing.
pub const DASH: &'static str = "<span class=\"muted\">-</span>";

/// A text with its first letter in upper case.
pub open spec fn capitalized(s: Seq<char>) -> Seq<char> {
    if s.len() == 0 {
        Seq::empty()
    } else {
        uppercase_char(s[0]) + s.skip(1)
    }
}

/// A text with its first letter in upper case.
pub fn capitalize(s: &str) -> (r: String)
    ensures
        r@ == capitalized(s@),
{
    let v: Vec<char> = chars_of(s);
    let n: usize = v.len();
    if n == 0 {
        let e: String = String::new();
        assert(e@ =~= Seq::<char>::empty());
        return e;
    }
    let u: Vec<char> = char_to_uppercase(v[0]);
    let mut out: String = string_of(&u);
    let rest = text_between(&v, 1, n);
    assert(v@.subrange(1, n as int) =~= s@.skip(1));
    out.push_str(rest.as_str());
    out
}

/// The part of an action code before the first dot.
pub open spec fn action_kind(action: Seq<char>) -> Seq<char> {
    pieces(action, '.')[0]
}

/// The part of an action code after the first dot; empty without a dot.
pub open spec fn action_verb(action: Seq<char>) -> Seq<char> {
    if action_kind(action).len() == action.len() {
        Seq::empty()
    } else {
        action.skip(action_kind(action).len() as int + 1)
    }
}

/// An action, from its parts.
pub open spec fn action_html(raw: Seq<char>, kind: Seq<char>, verb: Seq<char>) -> Seq<char> {
    "<span title=\""@
        + escaped(raw)
        + "\">"@
        + escaped(kind)
        + escaped(verb)
        + "</span>"@
}

/// An action, from its parts.
fn action_text(raw: &str, kind: &str, verb: &str) -> (r: String)
    ensures
        r@ == action_html(raw@, kind@, verb@),
{
    let raw_e = escape_html(raw);
    let kind_e = escape_html(kind);
    let verb_e = escape_html(verb);
    let mut out: String = "<span title=\"".to_owned();
    out.push_str(raw_e.as_str());
    out.push_str("\">");
    out.push_str(kind_e.as_str());
    out.push_str(verb_e.as_str());
    out.push_str("</span>");
    out
}

/// An action code as it reads to people: `user.update` becomes `User update`. The
/// code itself is kept as a title.
pub open spec fn action_label(action: Seq<char>) -> Seq<char> {
    let verb = action_verb(action);
    action_html(
        action,
        capitalized(action_kind(action)),
        if verb.len() == 0 {
            Seq::empty()
        } else {
            " "@ + verb
        },
    )
}

proof fn lemma_first_piece(s: Seq<char>, c: char)
    ensures
        pieces(s, c)[0].is_prefix_of(s),
        pieces(s, c).len() == 1 <==> pieces(s, c)[0].len() == s.len(),
        pieces(s, c).len() == 1 ==> pieces(s, c)[0] == s,
        pieces(s, c).len() > 1 ==> s[pieces(s, c)[0].len() as int] == c,
    decreases s.len(),
{
    if s.len() > 0 {
        let t = s.drop_last();
        lemma_first_piece(t, c);
        lemma_pieces_nonempty(t, c);
        let before = pieces(t, c);
        let after = pieces(s, c);
        if before.len() == 1 {
            assert(t =~= before[0]);
            if s.last() == c {
                assert(after[0] == before[0]);
            } else {
                assert(after[0] =~= s);
            }
        } else {
            assert(after[0] == before[0]);
            assert(before[0].len() < t.len());
        }
    }
}

/// An action code as it reads to people.
pub fn humanize_audit_action(action: &str) -> (r: String)
    ensures
        r@ == action_label(action@),
{
    let parts: Vec<String> = split(action, '.');
    proof {
        lemma_pieces_nonempty(action@, '.');
        lemma_first_piece(action@, '.');
        assert(views(parts@)[0] == parts@[0]@);
        assert(views(parts@).len() == parts@.len());
    }
    let kind = capitalize(parts[0].as_str());
    let k: usize = parts[0].as_str().unicode_len();
    let v: Vec<char> = chars_of(action);
    let n: usize = v.len();
    let mut verb: String = String::new();
    assert(verb@ =~= Seq::<char>::empty());
    if k < n {
        let rest = text_between(&v, k + 1, n);
        assert(v@.subrange(k + 1, n as int) =~= action@.skip(k + 1));
        if rest.as_str().unicode_len() > 0 {
            verb = " ".to_owned();
            verb.push_str(rest.as_str());
        }
    }
    action_text(action, kind.as_str(), verb.as_str())
}

/// A user as a target: the name and the email, or the id where the user is not
/// known.
#[derive(Debug)]
pub struct KnownUser {
    pub id: String,
    pub name: String,
    pub email: String,
}

/// A library snippet as a target: where it lies, and whether it is deleted.
#[derive(Debug)]
pub struct KnownSnippet {
    pub id: String,
    pub folder: Option<String>,
    pub deleted: bool,
}

/// The place of a user in a list, the last one counting; none where it is not
/// there.
pub open spec fn user_at(l: Seq<KnownUser>, id: Seq<char>) -> Option<int>
    decreases l.len(),
{
    if l.len() == 0 {
        None
    } else if l.last().id@ == id {
        Some(l.len() - 1)
    } else {
        user_at(l.drop_last(), id)
    }
}

/// The place of a snippet in a list, the last one counting; none where it is not
/// there.
pub open spec fn snippet_at(l: Seq<KnownSnippet>, id: Seq<char>) -> Option<int>
    decreases l.len(),
{
    if l.len() == 0 {
        None
    } else if l.last().id@ == id {
        Some(l.len() - 1)
    } else {
        snippet_at(l.drop_last(), id)
    }
}

fn find_user(l: &Vec<KnownUser>, id: &str) -> (r: Option<usize>)
    ensures
        user_at(l@, id@) == (match r {
            Some(i) => Some(i as int),
            None => None,
        }),
        r matches Some(i) ==> i < l@.len(),
{
    let mut i: usize = l.len();
    assert(l@.take(i as int) =~= l@);
    while i > 0
        invariant
            i <= l@.len(),
            user_at(l@, id@) == user_at(l@.take(i as int), id@),
        decreases i,
    {
        proof {
            let t = l@.take(i as int);
            assert(t.drop_last() =~= l@.take(i - 1));
            assert(t.last() == l@[i - 1]);
        }
        if same_text(l[i - 1].id.as_str(), id) {
            return Some(i - 1);
        }
        i = i - 1;
    }
    None
}

fn find_snippet(l: &Vec<KnownSnippet>, id: &str) -> (r: Option<usize>)
    ensures
        snippet_at(l@, id@) == (match r {
            Some(i) => Some(i as int),
            None => None,
        }),
        r matches Some(i) ==> i < l@.len(),
{
    let mut i: usize = l.len();
    assert(l@.take(i as int) =~= l@);
    while i > 0
        invariant
            i <= l@.len(),
            snippet_at(l@, id@) == snippet_at(l@.take(i as int), id@),
        decreases i,
    {
        proof {
            let t = l@.take(i as int);
            assert(t.drop_last() =~= l@.take(i - 1));
            assert(t.last() == l@[i - 1]);
        }
        if same_text(l[i - 1].id.as_str(), id) {
            return Some(i - 1);
        }
        i = i - 1;
    }
    None
}

/// A user who is known.
pub open spec fn known_label(name: Seq<char>, email: Seq<char>) -> Seq<char> {
    escaped(name)
        + " &lt;"@
        + escaped(email)
        + "&gt;"@
}

/// A user who is known.
fn known_label_text(name: &str, email: &str) -> (r: String)
    ensures
        r@ == known_label(name@, email@),
{
    let name_e = escape_html(name);
    let email_e = escape_html(email);
    let mut out: String = copy_text(name_e.as_str());
    out.push_str(" &lt;");
    out.push_str(email_e.as_str());
    out.push_str("&gt;");
    out
}

/// A user who is not known.
pub open spec fn unknown_label(id: Seq<char>) -> Seq<char> {
    "user "@
        + escaped(id)
}

/// A user who is not known.
fn unknown_label_text(id: &str) -> (r: String)
    ensures
        r@ == unknown_label(id@),
{
    let id_e = escape_html(id);
    let mut out: String = "user ".to_owned();
    out.push_str(id_e.as_str());
    out
}

/// How a user is named: name and email, or the id.
pub open spec fn user_label(users: Seq<KnownUser>, id: Seq<char>) -> Seq<char> {
    match user_at(users, id) {
        Some(i) => known_label(users[i].name@, users[i].email@),
        None => unknown_label(id),
    }
}

/// How a user is named: name and email, or the id.
pub fn user_target_label(users: &Vec<KnownUser>, uid: &str) -> (r: String)
    ensures
        r@ == user_label(users@, uid@),
{
    match find_user(users, uid) {
        Some(i) => known_label_text(users[i].name.as_str(), users[i].email.as_str()),
        None => unknown_label_text(uid),
    }
}

/// A link to a user.
pub open spec fn user_link(id: Seq<char>, label: Seq<char>) -> Seq<char> {
    "<a href=\"/dashboard/users/"@
        + escaped(id)
        + "\">"@
        + label
        + "</a>"@
}

/// A link to a user.
fn user_link_text(id: &str, label: &str) -> (r: String)
    ensures
        r@ == user_link(id@, label@),
{
    let id_e = escape_html(id);
    let mut out: String = "<a href=\"/dashboard/users/".to_owned();
    out.push_str(id_e.as_str());
    out.push_str("\">");
    out.push_str(label);
    out.push_str("</a>");
    out
}

/// A snippet that is deleted.
pub open spec fn deleted_snippet(id: Seq<char>) -> Seq<char> {
    "<span class=\"muted\" title=\"deleted snippet "@
        + escaped(id)
        + "\">library snippet (deleted)</span>"@
}

/// A snippet that is deleted.
fn deleted_snippet_text(id: &str) -> (r: String)
    ensures
        r@ == deleted_snippet(id@),
{
    let id_e = escape_html(id);
    let mut out: String = "<span class=\"muted\" title=\"deleted snippet ".to_owned();
    out.push_str(id_e.as_str());
    out.push_str("\">library snippet (deleted)</span>");
    out
}

/// A link to a snippet in its folder.
pub open spec fn snippet_link(folder: Seq<char>, id: Seq<char>) -> Seq<char> {
    "<a href=\"/dashboard/library"@
        + folder
        + "#lib-"@
        + escaped(id)
        + "\" title=\"library snippet "@
        + escaped(id)
        + "\">library snippet</a>"@
}

/// A link to a snippet in its folder.
fn snippet_link_text(folder: &str, id: &str) -> (r: String)
    ensures
        r@ == snippet_link(folder@, id@),
{
    let id_e = escape_html(id);
    let mut out: String = "<a href=\"/dashboard/library".to_owned();
    out.push_str(folder);
    out.push_str("#lib-");
    out.push_str(id_e.as_str());
    out.push_str("\" title=\"library snippet ");
    out.push_str(id_e.as_str());
    out.push_str("\">library snippet</a>");
    out
}

/// A snippet that is not known.
pub open spec fn lost_snippet(id: Seq<char>) -> Seq<char> {
    "<a href=\"/dashboard/library\" title=\"library snippet "@
        + escaped(id)
        + "\">library snippet</a>"@
}

/// A snippet that is not known.
fn lost_snippet_text(id: &str) -> (r: String)
    ensures
        r@ == lost_snippet(id@),
{
    let id_e = escape_html(id);
    let mut out: String = "<a href=\"/dashboard/library\" title=\"library snippet ".to_owned();
    out.push_str(id_e.as_str());
    out.push_str("\">library snippet</a>");
    out
}

/// The query that shows a folder; nothing where there is none.
pub open spec fn folder_query(f: Option<Seq<char>>) -> Seq<char> {
    match f {
        Some(p) => if p.len() == 0 {
            Seq::empty()
        } else {
            "?folder="@ + percent_encoded(encode_utf8(p))
        },
        None => Seq::empty(),
    }
}

fn folder_query_text(f: &Option<String>) -> (r: String)
    ensures
        r@ == folder_query(opt_view(*f)),
{
    if let Some(p) = f {
        if p.as_str().unicode_len() > 0 {
            let q = url_encode(p.as_str());
            let mut s: String = "?folder=".to_owned();
            s.push_str(q.as_str());
            return s;
        }
    }
    let e: String = String::new();
    assert(e@ =~= Seq::<char>::empty());
    e
}

/// A snippet as a target.
pub open spec fn snippet_target(l: Seq<KnownSnippet>, id: Seq<char>) -> Seq<char> {
    match snippet_at(l, id) {
        Some(i) => if l[i].deleted {
            deleted_snippet(id)
        } else {
            snippet_link(folder_query(opt_view(l[i].folder)), id)
        },
        None => lost_snippet(id),
    }
}

fn snippet_target_text(l: &Vec<KnownSnippet>, id: &str) -> (r: String)
    ensures
        r@ == snippet_target(l@, id@),
{
    match find_snippet(l, id) {
        Some(i) => if l[i].deleted {
            deleted_snippet_text(id)
        } else {
            let f = folder_query_text(&l[i].folder);
            snippet_link_text(f.as_str(), id)
        },
        None => lost_snippet_text(id),
    }
}

/// A folder as a target.
pub open spec fn folder_target(path: Seq<char>) -> Seq<char> {
    "<a href=\"/dashboard/library?folder="@ + percent_encoded(encode_utf8(path))
        + "\">folder <em>"@ + escaped(path) + "</em></a>"@
}

fn folder_target_text(path: &str) -> (r: String)
    ensures
        r@ == folder_target(path@),
{
    let q = url_encode(path);
    let p = escape_html(path);
    let mut s: String = "<a href=\"/dashboard/library?folder=".to_owned();
    s.push_str(q.as_str());
    s.push_str("\">folder <em>");
    s.push_str(p.as_str());
    s.push_str("</em></a>");
    s
}

/// Any other target.
pub open spec fn plain_target(kind: Seq<char>, id: Seq<char>) -> Seq<char> {
    escaped(kind)
        + ":"@
        + escaped(id)
}

/// Any other target.
fn plain_target_text(kind: &str, id: &str) -> (r: String)
    ensures
        r@ == plain_target(kind@, id@),
{
    let kind_e = escape_html(kind);
    let id_e = escape_html(id);
    let mut out: String = copy_text(kind_e.as_str());
    out.push_str(":");
    out.push_str(id_e.as_str());
    out
}

/// The target of an entry: a link where it leads somewhere, a dash where there is
/// none.
pub open spec fn target_label(
    kind: Option<Seq<char>>,
    id: Option<Seq<char>>,
    users: Seq<KnownUser>,
    snippets: Seq<KnownSnippet>,
) -> Seq<char> {
    if kind is None || id is None || id->0.len() == 0 {
        DASH@
    } else if kind->0 == "user"@ {
        user_link(id->0, user_label(users, id->0))
    } else if kind->0 == "library"@ {
        snippet_target(snippets, id->0)
    } else if kind->0 == "folder"@ {
        folder_target(id->0)
    } else {
        plain_target(kind->0, id->0)
    }
}

/// The target of an entry: a link where it leads somewhere, a dash where there is
/// none.
pub fn humanize_audit_target(
    kind: &Option<String>,
    id: &Option<String>,
    users: &Vec<KnownUser>,
    snippets: &Vec<KnownSnippet>,
) -> (r: String)
    ensures
        r@ == target_label(opt_view(*kind), opt_view(*id), users@, snippets@),
{
    if let Some(k) = kind {
        if let Some(i) = id {
            if i.as_str().unicode_len() == 0 {
                return DASH.to_owned();
            }
            if same_text(k.as_str(), "user") {
                let label = user_target_label(users, i.as_str());
                return user_link_text(i.as_str(), label.as_str());
            }
            if same_text(k.as_str(), "library") {
                return snippet_target_text(snippets, i.as_str());
            }
            if same_text(k.as_str(), "folder") {
                return folder_target_text(i.as_str());
            }
            return plain_target_text(k.as_str(), i.as_str());
        }
    }
    DASH.to_owned()
}

/// The text at a key; empty where there is none.
pub open spec fn text_at(j: JsonView, key: Seq<char>) -> Seq<char> {
    or_empty(text_of(member(j, key)))
}

fn get_text<'a>(j: &'a Json, key: &str) -> (r: &'a str)
    ensures
        r@ == text_at(j@, key@),
{
    match as_text(get(j, key)) {
        Some(t) => t,
        None => {
            proof {
                reveal_strlit("");
                assert(""@ =~= Seq::<char>::empty());
            }
            ""
        },
    }
}

/// The number at a key; zero where there is none.
pub open spec fn int_at(j: JsonView, key: Seq<char>) -> int {
    match int_of(member(j, key)) {
        Some(n) => n,
        None => 0,
    }
}

fn get_int(j: &Json, key: &str) -> (r: i64)
    ensures
        r == int_at(j@, key@),
{
    match as_int(get(j, key)) {
        Some(n) => n,
        None => 0,
    }
}

/// What a key changed from and to; none where it did not change.
pub open spec fn change_at(j: JsonView, key: Seq<char>) -> Option<(Seq<char>, Seq<char>)> {
    match member(j, key) {
        Some(o) => match (member(o, "from"@), member(o, "to"@)) {
            (Some(a), Some(b)) => Some((plain_text(a), plain_text(b))),
            _ => None,
        },
        None => None,
    }
}

fn get_change(j: &Json, key: &str) -> (r: Option<(String, String)>)
    ensures
        match r {
            Some(c) => change_at(j@, key@) == Some((c.0@, c.1@)),
            None => change_at(j@, key@) is None,
        },
{
    if let Some(o) = get(j, key) {
        if let Some(a) = get(o, "from") {
            if let Some(b) = get(o, "to") {
                return Some((value_to_string(a), value_to_string(b)));
            }
        }
    }
    None
}

/// The ending of a plural.
pub open spec fn plural(n: int) -> Seq<char> {
    if n == 1 {
        ""@
    } else {
        "s"@
    }
}

fn plural_of(n: i64) -> (r: &'static str)
    ensures
        r@ == plural(n as int),
{
    if n == 1 {
        ""
    } else {
        "s"
    }
}

/// That an account came through an identity provider.
pub open spec fn via_provider(provider: Seq<char>) -> Seq<char> {
    " via SSO ("@
        + escaped(provider)
        + ")"@
}

/// That an account came through an identity provider.
fn via_provider_text(provider: &str) -> (r: String)
    ensures
        r@ == via_provider(provider@),
{
    let provider_e = escape_html(provider);
    let mut out: String = " via SSO (".to_owned();
    out.push_str(provider_e.as_str());
    out.push_str(")");
    out
}

/// How an account came to be, where it was not made by an admin.
pub open spec fn via(j: JsonView) -> Seq<char> {
    match text_of(member(j, "via"@)) {
        Some(v) => if v == "dashboard_setup"@ {
            " via first-run setup"@
        } else if v == "oidc"@ {
            match text_of(member(j, "provider"@)) {
                Some(p) => via_provider(p),
                None => " via SSO"@,
            }
        } else {
            ""@
        },
        None => ""@,
    }
}

fn via_text(j: &Json) -> (r: String)
    ensures
        r@ == via(j@),
{
    if let Some(v) = as_text(get(j, "via")) {
        if same_text(v, "dashboard_setup") {
            return " via first-run setup".to_owned();
        }
        if same_text(v, "oidc") {
            return match as_text(get(j, "provider")) {
                Some(p) => via_provider_text(p),
                None => " via SSO".to_owned(),
            };
        }
    }
    "".to_owned()
}

/// That an account was made.
pub open spec fn created_html(email: Seq<char>, role: Seq<char>, via: Seq<char>) -> Seq<char> {
    "Created <strong>"@
        + escaped(email)
        + "</strong> as "@
        + escaped(role)
        + via
}

/// That an account was made.
fn created_text(email: &str, role: &str, via: &str) -> (r: String)
    ensures
        r@ == created_html(email@, role@, via@),
{
    let email_e = escape_html(email);
    let role_e = escape_html(role);
    let mut out: String = "Created <strong>".to_owned();
    out.push_str(email_e.as_str());
    out.push_str("</strong> as ");
    out.push_str(role_e.as_str());
    out.push_str(via);
    out
}

/// That a role changed.
pub open spec fn role_change(from: Seq<char>, to: Seq<char>) -> Seq<char> {
    "role "@
        + escaped(from)
        + " &rarr; <strong>"@
        + escaped(to)
        + "</strong>"@
}

/// That a role changed.
fn role_change_text(from: &str, to: &str) -> (r: String)
    ensures
        r@ == role_change(from@, to@),
{
    let from_e = escape_html(from);
    let to_e = escape_html(to);
    let mut out: String = "role ".to_owned();
    out.push_str(from_e.as_str());
    out.push_str(" &rarr; <strong>");
    out.push_str(to_e.as_str());
    out.push_str("</strong>");
    out
}

/// That a status changed.
pub open spec fn status_change(from: Seq<char>, to: Seq<char>) -> Seq<char> {
    "status "@
        + escaped(from)
        + " &rarr; <strong>"@
        + escaped(to)
        + "</strong>"@
}

/// That a status changed.
fn status_change_text(from: &str, to: &str) -> (r: String)
    ensures
        r@ == status_change(from@, to@),
{
    let from_e = escape_html(from);
    let to_e = escape_html(to);
    let mut out: String = "status ".to_owned();
    out.push_str(from_e.as_str());
    out.push_str(" &rarr; <strong>");
    out.push_str(to_e.as_str());
    out.push_str("</strong>");
    out
}

/// A flag as a status.
pub open spec fn status_word(s: Seq<char>) -> Seq<char> {
    if s == "true"@ {
        "disabled"@
    } else if s == "false"@ {
        "active"@
    } else {
        s
    }
}

fn status_word_of(s: &str) -> (r: &str)
    ensures
        r@ == status_word(s@),
{
    if same_text(s, "true") {
        "disabled"
    } else if same_text(s, "false") {
        "active"
    } else {
        s
    }
}

/// What changed of an account, one part after the other.
pub open spec fn update_parts(j: JsonView) -> Seq<Seq<char>> {
    let role = match change_at(j, "role"@) {
        Some(c) => seq![role_change(c.0, c.1)],
        None => Seq::empty(),
    };
    let status = match change_at(j, "is_disabled"@) {
        Some(c) => seq![status_change(status_word(c.0), status_word(c.1))],
        None => Seq::empty(),
    };
    let reset = if bool_of(member(j, "password_reset"@)) == Some(true) {
        seq!["password reset"@]
    } else {
        Seq::empty()
    };
    role + status + reset
}

/// What changed of an account.
pub open spec fn user_update(j: JsonView) -> Seq<char> {
    if update_parts(j).len() == 0 {
        "<span class=\"muted\">no fields changed</span>"@
    } else {
        capitalized(joined(update_parts(j), ", "@))
    }
}

fn user_update_text(j: &Json) -> (r: String)
    ensures
        r@ == user_update(j@),
{
    let mut parts: Vec<String> = Vec::new();
    assert(views(parts@) =~= Seq::<Seq<char>>::empty());
    if let Some(c) = get_change(j, "role") {
        push_text(&mut parts, role_change_text(c.0.as_str(), c.1.as_str()));
    }
    if let Some(c) = get_change(j, "is_disabled") {
        push_text(
            &mut parts,
            status_change_text(status_word_of(c.0.as_str()), status_word_of(c.1.as_str())),
        );
    }
    let reset = match as_bool(get(j, "password_reset")) {
        Some(b) => b,
        None => false,
    };
    if reset {
        push_text(&mut parts, "password reset".to_owned());
    }
    assert(views(parts@) =~= update_parts(j@));
    assert(views(parts@).len() == parts@.len());
    if parts.len() == 0 {
        return "<span class=\"muted\">no fields changed</span>".to_owned();
    }
    let all = join(&parts, ", ");
    capitalize(all.as_str())
}

/// That an account was deleted.
pub open spec fn deleted_user_html(email: Seq<char>) -> Seq<char> {
    "Deleted <strong>"@
        + escaped(email)
        + "</strong>"@
}

/// That an account was deleted.
fn deleted_user_text(email: &str) -> (r: String)
    ensures
        r@ == deleted_user_html(email@),
{
    let email_e = escape_html(email);
    let mut out: String = "Deleted <strong>".to_owned();
    out.push_str(email_e.as_str());
    out.push_str("</strong>");
    out
}

/// That an account was deleted, by its email where that is known.
pub open spec fn user_delete(email: Seq<char>) -> Seq<char> {
    if email.len() == 0 {
        "Deleted account"@
    } else {
        deleted_user_html(email)
    }
}

/// That an account was deleted, by its email where that is known.
fn user_delete_text(email: &str) -> (r: String)
    ensures
        r@ == user_delete(email@),
{
    if email.unicode_len() == 0 {
        "Deleted account".to_owned()
    } else {
        deleted_user_text(email)
    }
}

/// What was done to a snippet.
pub open spec fn titled_html(verb: Seq<char>, title: Seq<char>) -> Seq<char> {
    verb
        + " \"<strong>"@
        + escaped(title)
        + "</strong>\""@
}

/// What was done to a snippet.
fn titled_text(verb: &str, title: &str) -> (r: String)
    ensures
        r@ == titled_html(verb@, title@),
{
    let title_e = escape_html(title);
    let mut out: String = copy_text(verb);
    out.push_str(" \"<strong>");
    out.push_str(title_e.as_str());
    out.push_str("</strong>\"");
    out
}

/// What was done to a snippet in a folder.
pub open spec fn titled_in_html(
    verb: Seq<char>,
    title: Seq<char>,
    link: Seq<char>,
    folder: Seq<char>,
) -> Seq<char> {
    verb
        + " \"<strong>"@
        + escaped(title)
        + "</strong>\" "@
        + link
        + " <em>"@
        + escaped(folder)
        + "</em>"@
}

/// What was done to a snippet in a folder.
fn titled_in_text(verb: &str, title: &str, link: &str, folder: &str) -> (r: String)
    ensures
        r@ == titled_in_html(verb@, title@, link@, folder@),
{
    let title_e = escape_html(title);
    let folder_e = escape_html(folder);
    let mut out: String = copy_text(verb);
    out.push_str(" \"<strong>");
    out.push_str(title_e.as_str());
    out.push_str("</strong>\" ");
    out.push_str(link);
    out.push_str(" <em>");
    out.push_str(folder_e.as_str());
    out.push_str("</em>");
    out
}

/// What was done to a snippet, with its folder where it has one.
pub open spec fn snippet_done(
    verb: Seq<char>,
    title: Seq<char>,
    link: Seq<char>,
    folder: Seq<char>,
) -> Seq<char> {
    if folder.len() == 0 {
        titled_html(verb, title)
    } else {
        titled_in_html(verb, title, link, folder)
    }
}

/// What was done to a snippet, with its folder where it has one.
fn snippet_done_text(verb: &str, title: &str, link: &str, folder: &str) -> (r: String)
    ensures
        r@ == snippet_done(verb@, title@, link@, folder@),
{
    if folder.unicode_len() == 0 {
        titled_text(verb, title)
    } else {
        titled_in_text(verb, title, link, folder)
    }
}

/// What was searched for.
pub open spec fn search_bit(q: Seq<char>) -> Seq<char> {
    "search \""@
        + escaped(q)
        + "\""@
}

/// What was searched for.
fn search_bit_text(q: &str) -> (r: String)
    ensures
        r@ == search_bit(q@),
{
    let q_e = escape_html(q);
    let mut out: String = "search \"".to_owned();
    out.push_str(q_e.as_str());
    out.push_str("\"");
    out
}

/// Which folder was viewed.
pub open spec fn folder_bit(folder: Seq<char>) -> Seq<char> {
    "folder <em>"@
        + escaped(folder)
        + "</em>"@
}

/// Which folder was viewed.
fn folder_bit_text(folder: &str) -> (r: String)
    ensures
        r@ == folder_bit(folder@),
{
    let folder_e = escape_html(folder);
    let mut out: String = "folder <em>".to_owned();
    out.push_str(folder_e.as_str());
    out.push_str("</em>");
    out
}

/// What an export was narrowed by.
pub open spec fn scope_bits(s: JsonView) -> Seq<Seq<char>> {
    let q = text_at(s, "q"@);
    let folder = text_at(s, "folder"@);
    let search = if q.len() == 0 {
        Seq::empty()
    } else {
        seq![search_bit(q)]
    };
    let view = if folder == FOLDER_UNFILED@ {
        seq!["unfiled snippets"@]
    } else if folder.len() > 0 && folder != FOLDER_ALL@ {
        seq![folder_bit(folder)]
    } else {
        Seq::empty()
    };
    search + view
}

/// What an export covered.
pub open spec fn scope_label(scope: Option<JsonView>) -> Seq<char> {
    match scope {
        Some(s) => if member(s, "selection"@) is Some {
            " (hand-picked selection)"@
        } else if scope_bits(s).len() == 0 {
            " (whole library)"@
        } else {
            " ("@ + joined(scope_bits(s), ", "@) + ")"@
        },
        None => ""@,
    }
}

fn scope_label_text(scope: Option<&Json>) -> (r: String)
    ensures
        r@ == scope_label(opt_json(scope)),
{
    match scope {
        Some(s) => {
            if get(s, "selection").is_some() {
                return " (hand-picked selection)".to_owned();
            }
            let q = get_text(s, "q");
            let folder = get_text(s, "folder");
            let mut bits: Vec<String> = Vec::new();
            assert(views(bits@) =~= Seq::<Seq<char>>::empty());
            if q.unicode_len() > 0 {
                push_text(&mut bits, search_bit_text(q));
            }
            if same_text(folder, FOLDER_UNFILED) {
                push_text(&mut bits, "unfiled snippets".to_owned());
            } else if folder.unicode_len() > 0 && !same_text(folder, FOLDER_ALL) {
                push_text(&mut bits, folder_bit_text(folder));
            }
            assert(views(bits@) =~= scope_bits(s@));
            assert(views(bits@).len() == bits@.len());
            if bits.len() == 0 {
                return " (whole library)".to_owned();
            }
            let all = join(&bits, ", ");
            let mut out: String = " (".to_owned();
            out.push_str(all.as_str());
            out.push_str(")");
            out
        },
        None => "".to_owned(),
    }
}

/// That snippets were exported.
pub open spec fn exported_html(
    count: i64,
    s: Seq<char>,
    fmt: Seq<char>,
    scope: Seq<char>,
) -> Seq<char> {
    "Exported <strong>"@
        + decimal_int(count as int)
        + "</strong> snippet"@
        + s
        + " as "@
        + escaped(fmt)
        + scope
}

/// That snippets were exported.
fn exported_text(count: i64, s: &str, fmt: &str, scope: &str) -> (r: String)
    ensures
        r@ == exported_html(count, s@, fmt@, scope@),
{
    let count_n = i64_text(count);
    let fmt_e = escape_html(fmt);
    let mut out: String = "Exported <strong>".to_owned();
    out.push_str(count_n.as_str());
    out.push_str("</strong> snippet");
    out.push_str(s);
    out.push_str(" as ");
    out.push_str(fmt_e.as_str());
    out.push_str(scope);
    out
}

/// The format of an export; JSON where it was not noted.
pub open spec fn format_at(j: JsonView) -> Seq<char> {
    match text_of(member(j, "format"@)) {
        Some(f) => f,
        None => "json"@,
    }
}

/// That snippets were exported.
pub open spec fn library_export(j: JsonView) -> Seq<char> {
    let n = int_at(j, "count"@);
    exported_html(
        n as i64,
        plural(n),
        uppercase_text(format_at(j)),
        scope_label(member(j, "scope"@)),
    )
}

fn library_export_text(j: &Json) -> (r: String)
    ensures
        r@ == library_export(j@),
{
    let n: i64 = get_int(j, "count");
    let format = match as_text(get(j, "format")) {
        Some(f) => f,
        None => "json",
    };
    let upper = str_to_uppercase(format);
    let scope = scope_label_text(get(j, "scope"));
    exported_text(n, plural_of(n), upper.as_str(), scope.as_str())
}

/// That snippets were imported.
pub open spec fn imported_html(imported: i64, s: Seq<char>) -> Seq<char> {
    "Imported <strong>"@
        + decimal_int(imported as int)
        + "</strong> snippet"@
        + s
}

/// That snippets were imported.
fn imported_text(imported: i64, s: &str) -> (r: String)
    ensures
        r@ == imported_html(imported, s@),
{
    let imported_n = i64_text(imported);
    let mut out: String = "Imported <strong>".to_owned();
    out.push_str(imported_n.as_str());
    out.push_str("</strong> snippet");
    out.push_str(s);
    out
}

/// That duplicates were skipped.
pub open spec fn skipped_html(skipped: i64, s: Seq<char>) -> Seq<char> {
    ", skipped "@
        + decimal_int(skipped as int)
        + " duplicate"@
        + s
}

/// That duplicates were skipped.
fn skipped_text(skipped: i64, s: &str) -> (r: String)
    ensures
        r@ == skipped_html(skipped, s@),
{
    let skipped_n = i64_text(skipped);
    let mut out: String = ", skipped ".to_owned();
    out.push_str(skipped_n.as_str());
    out.push_str(" duplicate");
    out.push_str(s);
    out
}

/// That snippets were imported, and how many were skipped.
pub open spec fn library_import(j: JsonView) -> Seq<char> {
    let n = int_at(j, "imported"@);
    let k = int_at(j, "skipped"@);
    imported_html(n as i64, plural(n)) + (if k > 0 {
        skipped_html(k as i64, plural(k))
    } else {
        Seq::empty()
    })
}

fn library_import_text(j: &Json) -> (r: String)
    ensures
        r@ == library_import(j@),
{
    let n: i64 = get_int(j, "imported");
    let k: i64 = get_int(j, "skipped");
    let mut out = imported_text(n, plural_of(n));
    if k > 0 {
        let s = skipped_text(k, plural_of(k));
        out.push_str(s.as_str());
    } else {
        assert(out@ + Seq::<char>::empty() =~= out@);
    }
    out
}

/// A name, set apart.
pub open spec fn em_html(name: Seq<char>) -> Seq<char> {
    "<em>"@
        + escaped(name)
        + "</em>"@
}

/// A name, set apart.
fn em_text(name: &str) -> (r: String)
    ensures
        r@ == em_html(name@),
{
    let name_e = escape_html(name);
    let mut out: String = "<em>".to_owned();
    out.push_str(name_e.as_str());
    out.push_str("</em>");
    out
}

/// How many snippets were moved.
pub open spec fn count_note(count: i64, s: Seq<char>) -> Seq<char> {
    " ("@
        + decimal_int(count as int)
        + " snippet"@
        + s
        + ")"@
}

/// How many snippets were moved.
fn count_note_text(count: i64, s: &str) -> (r: String)
    ensures
        r@ == count_note(count, s@),
{
    let count_n = i64_text(count);
    let mut out: String = " (".to_owned();
    out.push_str(count_n.as_str());
    out.push_str(" snippet");
    out.push_str(s);
    out.push_str(")");
    out
}

/// That a folder was moved.
pub open spec fn moved_html(from: Seq<char>, to: Seq<char>, note: Seq<char>) -> Seq<char> {
    "Moved folder <strong>"@
        + escaped(from)
        + "</strong> to "@
        + to
        + note
}

/// That a folder was moved.
fn moved_text(from: &str, to: &str, note: &str) -> (r: String)
    ensures
        r@ == moved_html(from@, to@, note@),
{
    let from_e = escape_html(from);
    let mut out: String = "Moved folder <strong>".to_owned();
    out.push_str(from_e.as_str());
    out.push_str("</strong> to ");
    out.push_str(to);
    out.push_str(note);
    out
}

/// That a folder was moved, and how many snippets with it.
pub open spec fn folder_move(j: JsonView) -> Seq<char> {
    let to = text_at(j, "to"@);
    let n = int_at(j, "snippets_moved"@);
    moved_html(
        text_at(j, "from"@),
        if to.len() == 0 {
            "<em>(root)</em>"@
        } else {
            em_html(to)
        },
        if n > 0 {
            count_note(n as i64, plural(n))
        } else {
            Seq::empty()
        },
    )
}

fn folder_move_text(j: &Json) -> (r: String)
    ensures
        r@ == folder_move(j@),
{
    let to = get_text(j, "to");
    let n: i64 = get_int(j, "snippets_moved");
    let dest = if to.unicode_len() == 0 {
        "<em>(root)</em>".to_owned()
    } else {
        em_text(to)
    };
    let note = if n > 0 {
        count_note_text(n, plural_of(n))
    } else {
        String::new()
    };
    assert(n <= 0 ==> note@ =~= Seq::<char>::empty());
    moved_text(get_text(j, "from"), dest.as_str(), note.as_str())
}

/// That snippets went with their folder.
pub open spec fn and_its(count: i64, s: Seq<char>) -> Seq<char> {
    " and its "@
        + decimal_int(count as int)
        + " snippet"@
        + s
}

/// That snippets went with their folder.
fn and_its_text(count: i64, s: &str) -> (r: String)
    ensures
        r@ == and_its(count, s@),
{
    let count_n = i64_text(count);
    let mut out: String = " and its ".to_owned();
    out.push_str(count_n.as_str());
    out.push_str(" snippet");
    out.push_str(s);
    out
}

/// That snippets were moved out of their folder.
pub open spec fn moved_out(count: i64, s: Seq<char>) -> Seq<char> {
    "; moved "@
        + decimal_int(count as int)
        + " snippet"@
        + s
        + " to Unfiled"@
}

/// That snippets were moved out of their folder.
fn moved_out_text(count: i64, s: &str) -> (r: String)
    ensures
        r@ == moved_out(count, s@),
{
    let count_n = i64_text(count);
    let mut out: String = "; moved ".to_owned();
    out.push_str(count_n.as_str());
    out.push_str(" snippet");
    out.push_str(s);
    out.push_str(" to Unfiled");
    out
}

/// That a folder was deleted.
pub open spec fn folder_gone(path: Seq<char>, contents: Seq<char>) -> Seq<char> {
    "Deleted folder <strong>"@
        + escaped(path)
        + "</strong>"@
        + contents
}

/// That a folder was deleted.
fn folder_gone_text(path: &str, contents: &str) -> (r: String)
    ensures
        r@ == folder_gone(path@, contents@),
{
    let path_e = escape_html(path);
    let mut out: String = "Deleted folder <strong>".to_owned();
    out.push_str(path_e.as_str());
    out.push_str("</strong>");
    out.push_str(contents);
    out
}

/// That a folder was deleted, and what became of its snippets.
pub open spec fn folder_delete(j: JsonView) -> Seq<char> {
    let n = int_at(j, "count"@);
    folder_gone(
        text_at(j, "path"@),
        if n == 0 {
            " (empty)"@
        } else if text_of(member(j, "mode"@)) == Some("delete"@) {
            and_its(n as i64, plural(n))
        } else {
            moved_out(n as i64, plural(n))
        },
    )
}

fn folder_delete_text(j: &Json) -> (r: String)
    ensures
        r@ == folder_delete(j@),
{
    let n: i64 = get_int(j, "count");
    let cascade = match as_text(get(j, "mode")) {
        Some(m) => same_text(m, "delete"),
        None => false,
    };
    let contents = if n == 0 {
        " (empty)".to_owned()
    } else if cascade {
        and_its_text(n, plural_of(n))
    } else {
        moved_out_text(n, plural_of(n))
    };
    folder_gone_text(get_text(j, "path"), contents.as_str())
}

/// The texts of an array, in order; other elements are left out.
pub open spec fn texts_in(l: Seq<JsonView>) -> Seq<Seq<char>>
    decreases l.len(),
{
    if l.len() == 0 {
        Seq::empty()
    } else {
        match l.last() {
            JsonView::Text(t) => texts_in(l.drop_last()).push(t),
            _ => texts_in(l.drop_last()),
        }
    }
}

/// The texts of the array at a key; none where there is no array.
pub open spec fn texts_at(j: JsonView, key: Seq<char>) -> Seq<Seq<char>> {
    match member(j, key) {
        Some(JsonView::Array(l, _)) => texts_in(l),
        _ => Seq::empty(),
    }
}

fn get_texts(j: &Json, key: &str) -> (r: Vec<String>)
    ensures
        views(r@) == texts_at(j@, key@),
{
    let mut out: Vec<String> = Vec::new();
    assert(views(out@) =~= Seq::<Seq<char>>::empty());
    if let Some(v) = get(j, key) {
        if let Json::Array(l, t) = v {
            let n: usize = l.len();
            let ghost all = crate::json::json_views(l@);
            proof {
                crate::json::lemma_json_views(l@);
                assert(all.take(0) =~= Seq::<JsonView>::empty());
            }
            for i in 0..n
                invariant
                    n == l@.len(),
                    all == crate::json::json_views(l@),
                    all.len() == l@.len(),
                    forall|k: int| 0 <= k < l@.len() ==> #[trigger] all[k] == json_view(l@[k]),
                    views(out@) == texts_in(all.take(i as int)),
            {
                proof {
                    let t = all.take(i + 1);
                    assert(t.drop_last() =~= all.take(i as int));
                    assert(t.last() == json_view(l@[i as int]));
                }
                if let Json::Text(s) = &l[i] {
                    push_text(&mut out, copy_text(s.as_str()));
                }
            }
            assert(all.take(n as int) =~= all);
        }
    }
    out
}

/// The last segments of paths.
pub open spec fn leaves(l: Seq<Seq<char>>) -> Seq<Seq<char>> {
    Seq::new(l.len(), |i: int| pieces(l[i], '/').last())
}

fn leaves_of(l: &Vec<String>) -> (r: Vec<String>)
    ensures
        views(r@) == leaves(views(l@)),
{
    let n: usize = l.len();
    let mut out: Vec<String> = Vec::new();
    for i in 0..n
        invariant
            n == l@.len(),
            views(out@) =~= leaves(views(l@)).take(i as int),
    {
        let parts: Vec<String> = split(l[i].as_str(), '/');
        let k: usize = parts.len();
        proof {
            lemma_pieces_nonempty(l@[i as int]@, '/');
            assert(views(parts@).len() == parts@.len());
            assert(views(parts@).last() == parts@[k - 1]@);
            assert(leaves(views(l@)).take(i + 1) =~= leaves(views(l@)).take(i as int).push(
                leaves(views(l@))[i as int],
            ));
        }
        push_text(&mut out, copy_text(parts[k - 1].as_str()));
    }
    assert(leaves(views(l@)).take(n as int) =~= leaves(views(l@)));
    out
}

/// The folder whose children were put in order.
pub open spec fn parent_label(parent: Seq<char>) -> Seq<char> {
    if parent.len() == 0 {
        "root level"@
    } else {
        em_html(parent)
    }
}

/// That folders were put in order.
pub open spec fn folder_reorder(j: JsonView) -> Seq<char> {
    let parent = parent_label(text_at(j, "parent"@));
    let names = leaves(texts_at(j, "order"@));
    if names.len() == 0 {
        "Reordered children of "@ + parent
    } else {
        "Reordered "@ + parent + ": "@ + escaped(joined(names, ", "@))
    }
}

fn folder_reorder_text(j: &Json) -> (r: String)
    ensures
        r@ == folder_reorder(j@),
{
    let p = get_text(j, "parent");
    let parent = if p.unicode_len() == 0 {
        "root level".to_owned()
    } else {
        em_text(p)
    };
    let paths: Vec<String> = get_texts(j, "order");
    let names: Vec<String> = leaves_of(&paths);
    assert(views(names@).len() == names@.len());
    if names.len() == 0 {
        let mut out: String = "Reordered children of ".to_owned();
        out.push_str(parent.as_str());
        return out;
    }
    let all = join(&names, ", ");
    let list = escape_html(all.as_str());
    let mut out: String = "Reordered ".to_owned();
    out.push_str(parent.as_str());
    out.push_str(": ");
    out.push_str(list.as_str());
    out
}

/// Details as they stand.
pub open spec fn raw_details(s: Seq<char>) -> Seq<char> {
    "<code>"@
        + escaped(s)
        + "</code>"@
}

/// Details as they stand.
fn raw_details_text(s: &str) -> (r: String)
    ensures
        r@ == raw_details(s@),
{
    let s_e = escape_html(s);
    let mut out: String = "<code>".to_owned();
    out.push_str(s_e.as_str());
    out.push_str("</code>");
    out
}

/// What the details of an action say, read as JSON. Those of an action that is not
/// known stand as they are.
pub open spec fn details_sentence(action: Seq<char>, j: JsonView, raw: Seq<char>) -> Seq<char> {
    let title = text_at(j, "title"@);
    let folder = text_at(j, "folder_path"@);
    if action == "user.create"@ {
        created_html(text_at(j, "email"@), text_at(j, "role"@), via(j))
    } else if action == "user.update"@ {
        user_update(j)
    } else if action == "user.delete"@ {
        user_delete(text_at(j, "email"@))
    } else if action == "library.create"@ {
        snippet_done("Created"@, title, "in"@, folder)
    } else if action == "library.update"@ {
        snippet_done("Updated"@, title, "in"@, folder)
    } else if action == "library.delete"@ {
        if title.len() == 0 {
            "Deleted library snippet"@
        } else {
            snippet_done("Deleted"@, title, "from"@, folder)
        }
    } else if action == "library.export"@ {
        library_export(j)
    } else if action == "library.import"@ {
        library_import(j)
    } else if action == "library.folder.move"@ {
        folder_move(j)
    } else if action == "library.folder.delete"@ {
        folder_delete(j)
    } else if action == "library.folder.create"@ {
        "Created folder"@
    } else if action == "library.folder.reorder"@ {
        folder_reorder(j)
    } else {
        raw_details(raw)
    }
}

/// What the details of an action say, read as JSON.
pub fn details_of_json(action: &str, j: &Json, raw: &str) -> (r: String)
    ensures
        r@ == details_sentence(action@, j@, raw@),
{
    let title = get_text(j, "title");
    let folder = get_text(j, "folder_path");
    if same_text(action, "user.create") {
        let v = via_text(j);
        created_text(get_text(j, "email"), get_text(j, "role"), v.as_str())
    } else if same_text(action, "user.update") {
        user_update_text(j)
    } else if same_text(action, "user.delete") {
        user_delete_text(get_text(j, "email"))
    } else if same_text(action, "library.create") {
        snippet_done_text("Created", title, "in", folder)
    } else if same_text(action, "library.update") {
        snippet_done_text("Updated", title, "in", folder)
    } else if same_text(action, "library.delete") {
        if title.unicode_len() == 0 {
            "Deleted library snippet".to_owned()
        } else {
            snippet_done_text("Deleted", title, "from", folder)
        }
    } else if same_text(action, "library.export") {
        library_export_text(j)
    } else if same_text(action, "library.import") {
        library_import_text(j)
    } else if same_text(action, "library.folder.move") {
        folder_move_text(j)
    } else if same_text(action, "library.folder.delete") {
        folder_delete_text(j)
    } else if same_text(action, "library.folder.create") {
        "Created folder".to_owned()
    } else if same_text(action, "library.folder.reorder") {
        folder_reorder_text(j)
    } else {
        raw_details_text(raw)
    }
}

/// What the details of an entry say: a sentence where they are JSON, a dash where
/// there are none.
pub open spec fn details_label(action: Seq<char>, details: Option<Seq<char>>) -> Seq<char> {
    match details {
        Some(s) => if s.len() == 0 {
            DASH@
        } else {
            match json_of_text(s) {
                Some(j) => details_sentence(action, j, s),
                None => raw_details(s),
            }
        },
        None => DASH@,
    }
}

/// What the details of an entry say: a sentence where they are JSON, a dash where
/// there are none.
pub fn humanize_audit_details(action: &str, details: Option<&str>) -> (r: String)
    ensures
        r@ == details_label(action@, opt_str_view(details)),
{
    match details {
        Some(s) => {
            if s.unicode_len() == 0 {
                return DASH.to_owned();
            }
            match parse_json(s) {
                Some(j) => details_of_json(action, &j, s),
                None => raw_details_text(s),
            }
        },
        None => DASH.to_owned(),
    }
}

/// The block of a field that changed; nothing where it did not.
pub open spec fn field_diff(label: Seq<char>, before: Seq<char>, after: Seq<char>) -> Seq<char> {
    if before == after {
        Seq::empty()
    } else {
        diff_field_html(label, before, after)
    }
}

fn field_diff_text(label: &str, before: &str, after: &str) -> (r: String)
    ensures
        r@ == field_diff(label@, before@, after@),
{
    match render_diff_field(label, before, after) {
        Some(s) => s,
        None => {
            let e: String = String::new();
            assert(e@ =~= Seq::<char>::empty());
            e
        },
    }
}

/// What an edit changed, field by field.
pub open spec fn diff_sections(before: JsonView, after: JsonView) -> Seq<char> {
    field_diff("Title"@, text_at(before, "title"@), text_at(after, "title"@)) + field_diff(
        "Folder"@,
        text_at(before, "folder_path"@),
        text_at(after, "folder_path"@),
    ) + field_diff(
        "Tags"@,
        joined(texts_at(before, "tags"@), ", "@),
        joined(texts_at(after, "tags"@), ", "@),
    ) + field_diff("Body"@, text_at(before, "body"@), text_at(after, "body"@))
}

/// What an edit changed; none where it was not noted, or nothing changed.
pub open spec fn update_diff(details: JsonView) -> Option<Seq<char>> {
    match (member(details, "before"@), member(details, "after"@)) {
        (Some(b), Some(a)) => if diff_sections(b, a).len() == 0 {
            None
        } else {
            Some(diff_sections(b, a))
        },
        _ => None,
    }
}

/// What an edit changed; none where it was not noted, or nothing changed.
pub fn render_library_update_diff(details: &Json) -> (r: Option<String>)
    ensures
        opt_view(r) == update_diff(details@),
{
    let before = match get(details, "before") {
        Some(b) => b,
        None => {
            return None;
        },
    };
    let after = match get(details, "after") {
        Some(a) => a,
        None => {
            return None;
        },
    };
    let tags_before: Vec<String> = get_texts(before, "tags");
    let tags_after: Vec<String> = get_texts(after, "tags");
    let tb = join(&tags_before, ", ");
    let ta = join(&tags_after, ", ");
    let mut out = field_diff_text("Title", get_text(before, "title"), get_text(after, "title"));
    let folder = field_diff_text(
        "Folder",
        get_text(before, "folder_path"),
        get_text(after, "folder_path"),
    );
    let tags = field_diff_text("Tags", tb.as_str(), ta.as_str());
    let body = field_diff_text("Body", get_text(before, "body"), get_text(after, "body"));
    out.push_str(folder.as_str());
    out.push_str(tags.as_str());
    out.push_str(body.as_str());
    if out.as_str().unicode_len() == 0 {
        return None;
    }
    Some(out)
}

/// An edit that changed no field has no difference to show, and one that changed
/// any has.
pub proof fn law_difference_shows_any_change(before: JsonView, after: JsonView)
    ensures
        diff_sections(before, after).len() == 0 <==> {
            &&& text_at(before, "title"@) == text_at(after, "title"@)
            &&& text_at(before, "folder_path"@) == text_at(after, "folder_path"@)
            &&& joined(texts_at(before, "tags"@), ", "@) == joined(texts_at(after, "tags"@), ", "@)
            &&& text_at(before, "body"@) == text_at(after, "body"@)
        },
{
    reveal_strlit("<div class=\"diff-field\"><div class=\"diff-field-label\">");
}

} // verus!
