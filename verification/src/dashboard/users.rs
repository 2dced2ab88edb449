//! The list of users.
use crate::audit::action::USER_CREATE;
use crate::audit::{event_of, Actor, AuditEvent, Detail};
use crate::auth::hash_password;
use crate::clock::unix_now;
use crate::dashboard::ages::format_last_seen;
use crate::dashboard::forms::CreateUserForm;
use crate::decimal::{count_text, i64_text};
use crate::find::contains_char;
use crate::html::escape_html;
use crate::ident::new_uuid;
use crate::text::{at_least_bytes, copy_text, same_text, str_to_lowercase};
use crate::trim::trim;
use vstd::prelude::*;

verus! {

use crate::audit::{detail_views, event_by, DetailView};
use crate::auth::{password_accepted, MAX_PASSWORD_BYTES};
use crate::dashboard::ages::last_seen;
use crate::decimal::{decimal, decimal_int};
use crate::html::escaped;
use crate::ident::uuid_form;
use crate::text::{byte_count, lowercase_text, white_space};
use crate::trim::{all_blank, law_blank_texts, law_outer_blanks_are_trimmed, trimmed};

/// A user as admins see them: counts and dates, never snippets.
#[derive(Debug)]
pub struct AdminUserView {
    pub id: String,
    pub email: String,
    pub display_name: String,
    pub role: String,
    pub is_disabled: bool,
    pub created_at: i64,
    pub last_seen_at: Option<i64>,
    pub snippet_count: i64,
}

/// A user's row.
#[derive(Debug)]
pub struct UserRow {
    pub id: String,
    pub email: String,
    pub display_name: String,
    pub role: String,
    pub is_disabled: i64,
    pub created_at: i64,
    pub last_seen_at: Option<i64>,
    pub snippet_count: i64,
}

/// The view of a row.
pub fn user_view(r: UserRow) -> (v: AdminUserView)
    ensures
        v.id == r.id,
        v.email == r.email,
        v.display_name == r.display_name,
        v.role == r.role,
        v.is_disabled == (r.is_disabled != 0),
        v.created_at == r.created_at,
        v.last_seen_at == r.last_seen_at,
        v.snippet_count == r.snippet_count,
{
    AdminUserView {
        id: r.id,
        email: r.email,
        display_name: r.display_name,
        role: r.role,
        is_disabled: r.is_disabled != 0,
        created_at: r.created_at,
        last_seen_at: r.last_seen_at,
        snippet_count: r.snippet_count,
    }
}

/// The form that adds a user.
pub const NEW_USER_FORM: &'static str =
    "<details class=\"lib-form\" style=\"margin-bottom:16px;\"><summary>Add user</summary><form \
        class=\"stack\" hx-post=\"/dashboard/users\" hx-target=\"#users-tbody\" \
        hx-swap=\"afterbegin\" hx-on::after-request=\"if(event.detail.successful) this.reset()\" \
        style=\"margin-top:10px\"><div class=\"row\"><label>Display name<input type=\"text\" \
        name=\"display_name\" required /></label><label>Email<input type=\"email\" name=\"email\" \
        required /></label></div><div class=\"row\"><label>Password (min 10 chars)<input \
        type=\"text\" name=\"password\" required minlength=\"10\" /></label><label>Role<select \
        name=\"role\"><option value=\"member\">member</option><option value=\"admin\">admin\
        </option></select></label></div><div class=\"actions\"><button class=\"primary\" \
        type=\"submit\">Create user</button></div></form></details>";

/// Which steps of the onboarding a user has taken, besides signing up.
#[derive(Copy, Clone, Debug, PartialEq, Eq, Structural)]
pub struct Signals {
    pub saved: bool,
    pub tried: bool,
    pub pasted: bool,
}

/// The text of a flag.
pub open spec fn flag(b: bool) -> Seq<char> {
    if b {
        "true"@
    } else {
        "false"@
    }
}

/// The text of a flag.
pub fn flag_text(b: bool) -> (r: &'static str)
    ensures
        r@ == flag(b),
{
    if b {
        "true"
    } else {
        "false"
    }
}

/// One, where a step was taken.
pub open spec fn step_count(taken: bool) -> nat {
    if taken {
        1
    } else {
        0
    }
}

/// The class of a pip.
pub open spec fn pip_class(taken: bool) -> Seq<char> {
    if taken {
        " on"@
    } else {
        ""@
    }
}

fn class_of_pip(taken: bool) -> (r: &'static str)
    ensures
        r@ == pip_class(taken),
{
    if taken {
        " on"
    } else {
        ""
    }
}

/// One pip of the onboarding.
pub open spec fn pip_html(class: Seq<char>, label: Seq<char>) -> Seq<char> {
    "<span class=\"ob-pip"@
        + class
        + "\" title=\""@
        + label
        + "\"></span>"@
}

/// One pip of the onboarding.
fn pip_text(class: &str, label: &str) -> (r: String)
    ensures
        r@ == pip_html(class@, label@),
{
    let mut out: String = "<span class=\"ob-pip".to_owned();
    out.push_str(class);
    out.push_str("\" title=\"");
    out.push_str(label);
    out.push_str("\"></span>");
    out
}

/// How many of the four steps were taken. Signing up always was.
pub open spec fn steps_taken(s: Signals) -> nat {
    1 + step_count(s.saved) + step_count(s.tried) + step_count(s.pasted)
}

/// The four pips.
pub open spec fn pips(s: Signals) -> Seq<char> {
    pip_html(pip_class(true), "Signed up"@) + pip_html(pip_class(s.saved), "Saved a snippet"@)
        + pip_html(pip_class(s.tried), "Tried the shortcut"@) + pip_html(
        pip_class(s.pasted),
        "Pasted a snippet"@,
    )
}

/// The onboarding of a user in four pips, filled for each step taken.
pub open spec fn pips_html(s: Signals) -> Seq<char> {
    "<span class=\"ob-pips\" aria-label=\""@ + decimal(steps_taken(s))
        + " of 4 onboarding steps\">"@ + pips(s) + "</span>"@
}

/// The onboarding of a user in four pips, filled for each step taken.
pub fn onboarding_pips(s: Signals) -> (r: String)
    ensures
        r@ == pips_html(s),
{
    let mut reached: usize = 1;
    if s.saved {
        reached = reached + 1;
    }
    if s.tried {
        reached = reached + 1;
    }
    if s.pasted {
        reached = reached + 1;
    }
    let mut row: String = pip_text(class_of_pip(true), "Signed up");
    let b = pip_text(class_of_pip(s.saved), "Saved a snippet");
    row.push_str(b.as_str());
    let c = pip_text(class_of_pip(s.tried), "Tried the shortcut");
    row.push_str(c.as_str());
    let d = pip_text(class_of_pip(s.pasted), "Pasted a snippet");
    row.push_str(d.as_str());
    let n = count_text(reached);
    let mut out: String = "<span class=\"ob-pips\" aria-label=\"".to_owned();
    out.push_str(n.as_str());
    out.push_str(" of 4 onboarding steps\">");
    out.push_str(row.as_str());
    out.push_str("</span>");
    out
}

/// The signals of a user among those that were loaded; none taken where the user
/// is not there. Of two entries the later counts.
pub open spec fn signals_of(l: Seq<(String, Signals)>, id: Seq<char>) -> Signals
    decreases l.len(),
{
    if l.len() == 0 {
        Signals { saved: false, tried: false, pasted: false }
    } else if l.last().0@ == id {
        l.last().1
    } else {
        signals_of(l.drop_last(), id)
    }
}

/// The signals of a user among those that were loaded.
pub fn find_signals(l: &Vec<(String, Signals)>, id: &str) -> (r: Signals)
    ensures
        r == signals_of(l@, id@),
{
    let mut i: usize = l.len();
    assert(l@.take(i as int) =~= l@);
    while i > 0
        invariant
            i <= l@.len(),
            signals_of(l@, id@) == signals_of(l@.take(i as int), id@),
        decreases i,
    {
        proof {
            let t = l@.take(i as int);
            assert(t.drop_last() =~= l@.take(i - 1));
            assert(t.last() == l@[i - 1]);
        }
        if same_text(l[i - 1].0.as_str(), id) {
            return l[i - 1].1;
        }
        i = i - 1;
    }
    Signals { saved: false, tried: false, pasted: false }
}

/// The onboarding cell of a user.
pub fn onboarding_cell(l: &Vec<(String, Signals)>, id: &str) -> (r: String)
    ensures
        r@ == pips_html(signals_of(l@, id@)),
{
    onboarding_pips(find_signals(l, id))
}

/// A role.
pub open spec fn role_pill(role: Seq<char>) -> Seq<char> {
    "<span class=\"pill role-"@
        + escaped(role)
        + "\">"@
        + escaped(role)
        + "</span>"@
}

/// A role.
fn role_pill_text(role: &str) -> (r: String)
    ensures
        r@ == role_pill(role@),
{
    let role_e = escape_html(role);
    let mut out: String = "<span class=\"pill role-".to_owned();
    out.push_str(role_e.as_str());
    out.push_str("\">");
    out.push_str(role_e.as_str());
    out.push_str("</span>");
    out
}

/// Whether an account may be used.
pub open spec fn status_pill(disabled: bool) -> Seq<char> {
    if disabled {
        "<span class=\"pill disabled\">disabled</span>"@
    } else {
        "<span class=\"muted\">active</span>"@
    }
}

/// Whether an account may be used.
pub fn status_pill_text(disabled: bool) -> (r: &'static str)
    ensures
        r@ == status_pill(disabled),
{
    if disabled {
        "<span class=\"pill disabled\">disabled</span>"
    } else {
        "<span class=\"muted\">active</span>"
    }
}

/// What can be done to another user.
pub open spec fn actions_html(
    id: Seq<char>,
    name: Seq<char>,
    role: Seq<char>,
    label: Seq<char>,
    state: Seq<char>,
    dlabel: Seq<char>,
) -> Seq<char> {
    "<button class=\"btn\" hx-put=\"/dashboard/users/"@
        + escaped(id)
        + "\" hx-vals='{\"role\":\""@
        + role
        + "\"}' hx-target=\"closest tr\" hx-swap=\"outerHTML\">"@
        + label
        + "</button> <button class=\"btn\" hx-put=\"/dashboard/users/"@
        + escaped(id)
        + "\" hx-vals='{\"is_disabled\":"@
        + state
        + "}' hx-target=\"closest tr\" hx-swap=\"outerHTML\">"@
        + dlabel
        + "</button> <button class=\"btn danger\" hx-delete=\"/dashboard/users/"@
        + escaped(id)
        + "\" hx-confirm=\"Delete "@
        + escaped(name)
        + "? Their personal snippets will be removed from the server.\" hx-target=\"closest tr\" \
            hx-swap=\"outerHTML\">Delete</button>"@
}

/// What can be done to another user.
fn actions_text(id: &str, name: &str, role: &str, label: &str, state: &str, dlabel: &str) -> (r: String)
    ensures
        r@ == actions_html(id@, name@, role@, label@, state@, dlabel@),
{
    let id_e = escape_html(id);
    let name_e = escape_html(name);
    let mut out: String = "<button class=\"btn\" hx-put=\"/dashboard/users/".to_owned();
    out.push_str(id_e.as_str());
    out.push_str("\" hx-vals='{\"role\":\"");
    out.push_str(role);
    out.push_str("\"}' hx-target=\"closest tr\" hx-swap=\"outerHTML\">");
    out.push_str(label);
    out.push_str("</button> <button class=\"btn\" hx-put=\"/dashboard/users/");
    out.push_str(id_e.as_str());
    out.push_str("\" hx-vals='{\"is_disabled\":");
    out.push_str(state);
    out.push_str("}' hx-target=\"closest tr\" hx-swap=\"outerHTML\">");
    out.push_str(dlabel);
    out.push_str("</button> <button class=\"btn danger\" hx-delete=\"/dashboard/users/");
    out.push_str(id_e.as_str());
    out.push_str("\" hx-confirm=\"Delete ");
    out.push_str(name_e.as_str());
    out.push_str("? Their personal snippets will be removed from the server.\" hx-target=\"closest \
                tr\" hx-swap=\"outerHTML\">Delete</button>");
    out
}

/// The actions on a user; one has none on oneself.
pub open spec fn row_actions(u: AdminUserView, me: Seq<char>) -> Seq<char> {
    if u.id@ == me {
        "<span class=\"muted\">- you -</span>"@
    } else {
        actions_html(
            u.id@,
            u.display_name@,
            if u.role@ == "admin"@ {
                "member"@
            } else {
                "admin"@
            },
            if u.role@ == "admin"@ {
                "Demote"@
            } else {
                "Promote"@
            },
            flag(!u.is_disabled),
            if u.is_disabled {
                "Enable"@
            } else {
                "Disable"@
            },
        )
    }
}

fn row_actions_text(u: &AdminUserView, me: &str) -> (r: String)
    ensures
        r@ == row_actions(*u, me@),
{
    if same_text(u.id.as_str(), me) {
        return "<span class=\"muted\">- you -</span>".to_owned();
    }
    let admin = same_text(u.role.as_str(), "admin");
    actions_text(
        u.id.as_str(),
        u.display_name.as_str(),
        if admin {
            "member"
        } else {
            "admin"
        },
        if admin {
            "Demote"
        } else {
            "Promote"
        },
        flag_text(!u.is_disabled),
        if u.is_disabled {
            "Enable"
        } else {
            "Disable"
        },
    )
}

/// The class of a row.
pub open spec fn row_class(disabled: bool) -> Seq<char> {
    if disabled {
        " class=\"disabled\""@
    } else {
        ""@
    }
}

/// One row of the list, from its parts.
pub open spec fn row_html(
    u: AdminUserView,
    class: Seq<char>,
    role: Seq<char>,
    onboarding: Seq<char>,
    seen: Seq<char>,
    status: Seq<char>,
    actions: Seq<char>,
) -> Seq<char> {
    "<tr"@
        + class
        + " id=\"user-"@
        + escaped(u.id@)
        + "\"><td><a href=\"/dashboard/users/"@
        + escaped(u.id@)
        + "\">"@
        + escaped(u.display_name@)
        + "</a></td><td class=\"mono muted\">"@
        + escaped(u.email@)
        + "</td><td>"@
        + role
        + "</td><td>"@
        + decimal_int(u.snippet_count as int)
        + "</td><td class=\"ob-cell\">"@
        + onboarding
        + "</td><td class=\"muted\">"@
        + seen
        + "</td><td>"@
        + status
        + "</td><td class=\"col-actions\">"@
        + actions
        + "</td></tr>"@
}

/// One row of the list, from its parts.
fn row_text(u: &AdminUserView, class: &str, role: &str, onboarding: &str, seen: &str, status: &str, actions: &str) -> (r: String)
    ensures
        r@ == row_html(*u, class@, role@, onboarding@, seen@, status@, actions@),
{
    let u_id_e = escape_html(u.id.as_str());
    let u_display_name_e = escape_html(u.display_name.as_str());
    let u_email_e = escape_html(u.email.as_str());
    let u_snippet_count_n = i64_text(u.snippet_count);
    let mut out: String = "<tr".to_owned();
    out.push_str(class);
    out.push_str(" id=\"user-");
    out.push_str(u_id_e.as_str());
    out.push_str("\"><td><a href=\"/dashboard/users/");
    out.push_str(u_id_e.as_str());
    out.push_str("\">");
    out.push_str(u_display_name_e.as_str());
    out.push_str("</a></td><td class=\"mono muted\">");
    out.push_str(u_email_e.as_str());
    out.push_str("</td><td>");
    out.push_str(role);
    out.push_str("</td><td>");
    out.push_str(u_snippet_count_n.as_str());
    out.push_str("</td><td class=\"ob-cell\">");
    out.push_str(onboarding);
    out.push_str("</td><td class=\"muted\">");
    out.push_str(seen);
    out.push_str("</td><td>");
    out.push_str(status);
    out.push_str("</td><td class=\"col-actions\">");
    out.push_str(actions);
    out.push_str("</td></tr>");
    out
}

/// One user's row, as it is shown at `now` to the admin `me`.
pub open spec fn user_row(u: AdminUserView, me: Seq<char>, onboarding: Seq<char>, now: i64) -> Seq<
    char,
> {
    row_html(
        u,
        row_class(u.is_disabled),
        role_pill(u.role@),
        onboarding,
        last_seen(now, u.last_seen_at),
        status_pill(u.is_disabled),
        row_actions(u, me),
    )
}

/// One user's row, as it is shown at `now` to the admin `me_id`.
pub fn render_user_row(u: &AdminUserView, me_id: &str, onboarding: &str, now: i64) -> (r: String)
    ensures
        r@ == user_row(*u, me_id@, onboarding@, now),
{
    let role = role_pill_text(u.role.as_str());
    let seen = format_last_seen(now, u.last_seen_at);
    let actions = row_actions_text(u, me_id);
    let class = if u.is_disabled {
        " class=\"disabled\""
    } else {
        ""
    };
    row_text(
        u,
        class,
        role.as_str(),
        onboarding,
        seen.as_str(),
        status_pill_text(u.is_disabled),
        actions.as_str(),
    )
}

/// The rows of users, with their onboarding.
pub open spec fn user_rows(
    l: Seq<AdminUserView>,
    me: Seq<char>,
    signals: Seq<(String, Signals)>,
    now: i64,
) -> Seq<char>
    decreases l.len(),
{
    if l.len() == 0 {
        Seq::empty()
    } else {
        user_rows(l.drop_last(), me, signals, now) + user_row(
            l.last(),
            me,
            pips_html(signals_of(signals, l.last().id@)),
            now,
        )
    }
}

/// The rows of users, as the list refreshes them.
pub fn users_rows(
    l: &Vec<AdminUserView>,
    me_id: &str,
    signals: &Vec<(String, Signals)>,
    now: i64,
) -> (r: String)
    ensures
        r@ == user_rows(l@, me_id@, signals@, now),
{
    let mut out: String = String::new();
    let n: usize = l.len();
    assert(l@.take(0) =~= Seq::<AdminUserView>::empty());
    assert(out@ =~= Seq::<char>::empty());
    for i in 0..n
        invariant
            n == l@.len(),
            out@ == user_rows(l@.take(i as int), me_id@, signals@, now),
    {
        proof {
            let t = l@.take(i + 1);
            assert(t.drop_last() =~= l@.take(i as int));
            assert(t.last() == l@[i as int]);
        }
        let cell = onboarding_cell(signals, l[i].id.as_str());
        let s = render_user_row(&l[i], me_id, cell.as_str(), now);
        out.push_str(s.as_str());
    }
    assert(l@.take(n as int) =~= l@);
    out
}

/// What is shown where the users cannot be read.
pub const USERS_UNAVAILABLE: &'static str =
    "<div class=\"banner error\">Failed to load users.</div>";

/// The row that is shown where the users cannot be read.
pub const USERS_UNAVAILABLE_ROW: &'static str =
    "<tr><td colspan=\"8\" class=\"banner error\">Failed to load users.</td></tr>";

/// The head of the table.
pub const USERS_TABLE_OPEN: &'static str =
    "<table class=\"data\"><thead><tr><th>Name</th><th>Email</th><th>Role</th><th>Snippets</th>\
        <th>Onboarding</th><th>Last seen</th><th>Status</th><th class=\"col-actions\"></th></tr>\
        </thead><tbody id=\"users-tbody\" hx-get=\"/dashboard/users/rows\" hx-trigger=\"every 5s\" \
        hx-swap=\"innerHTML\">";

/// The content of the users page.
pub fn users_page(
    rows: Option<&Vec<AdminUserView>>,
    me_id: &str,
    signals: &Vec<(String, Signals)>,
    now: i64,
) -> (r: String)
    ensures
        r@ == (match rows {
            Some(l) => "<h1>Users</h1>"@ + NEW_USER_FORM@ + USERS_TABLE_OPEN@ + user_rows(
                l@,
                me_id@,
                signals@,
                now,
            ) + "</tbody></table>"@,
            None => USERS_UNAVAILABLE@,
        }),
{
    let l = match rows {
        Some(l) => l,
        None => {
            return USERS_UNAVAILABLE.to_owned();
        },
    };
    let list = users_rows(l, me_id, signals, now);
    let mut out: String = "<h1>Users</h1>".to_owned();
    out.push_str(NEW_USER_FORM);
    out.push_str(USERS_TABLE_OPEN);
    out.push_str(list.as_str());
    out.push_str("</tbody></table>");
    out
}

/// A row that tells of an error.
pub open spec fn error_row(message: Seq<char>) -> Seq<char> {
    "<tr><td colspan=\"7\" class=\"banner error\">"@
        + escaped(message)
        + "</td></tr>"@
}

/// A row that tells of an error.
pub fn render_error_row(message: &str) -> (r: String)
    ensures
        r@ == error_row(message@),
{
    let message_e = escape_html(message);
    let mut out: String = "<tr><td colspan=\"7\" class=\"banner error\">".to_owned();
    out.push_str(message_e.as_str());
    out.push_str("</td></tr>");
    out
}

/// The shortest password in bytes.
pub const MIN_PASSWORD_LEN: usize = 10;

/// The row for a form that cannot be taken.
pub const INVALID_USER_ROW: &'static str =
    "<tr><td colspan=\"7\" class=\"banner error\">Invalid input - check email, name, and \
        10-char password.</td></tr>";

/// The row for an email that is taken.
pub const EXISTING_USER_ROW: &'static str =
    "<tr><td colspan=\"7\" class=\"banner error\">An account with that email already exists.\
        </td></tr>";

/// An account that is about to be made.
#[derive(Debug)]
pub struct NewAccount {
    pub email: String,
    pub display_name: String,
    pub role: String,
}

/// What an email is stored as.
pub open spec fn stored_email(raw: Seq<char>) -> Seq<char> {
    lowercase_text(trimmed(raw))
}

/// What an email is stored as.
pub fn normalize_email(raw: &str) -> (r: String)
    ensures
        r@ == stored_email(raw@),
{
    let t = trim(raw);
    str_to_lowercase(t.as_str())
}

/// Whether the form that adds a user can be taken.
pub open spec fn acceptable_user(f: CreateUserForm) -> bool {
    stored_email(f.email@).contains('@') && trimmed(f.display_name@).len() > 0 && byte_count(
        f.password@,
    ) >= MIN_PASSWORD_LEN
}

/// The role that a form asks for; anything but an admin is a member.
pub open spec fn role_of(role: Seq<char>) -> Seq<char> {
    if role == "admin"@ {
        "admin"@
    } else {
        "member"@
    }
}

/// The account that a form asks for; none where it cannot be taken.
pub fn new_account(f: &CreateUserForm) -> (r: Option<NewAccount>)
    ensures
        match r {
            Some(a) => acceptable_user(*f) && a.email@ == stored_email(f.email@) && a.display_name@
                == trimmed(f.display_name@) && a.role@ == role_of(f.role@),
            None => !acceptable_user(*f),
        },
{
    let email = normalize_email(f.email.as_str());
    let display_name = trim(f.display_name.as_str());
    let role = if same_text(f.role.as_str(), "admin") {
        "admin"
    } else {
        "member"
    };
    if !contains_char(email.as_str(), '@') || display_name.as_str().unicode_len() == 0
        || !at_least_bytes(f.password.as_str(), MIN_PASSWORD_LEN) {
        return None;
    }
    Some(NewAccount { email, display_name, role: role.to_owned() })
}

/// Whether this is the row of an account that was just made.
pub open spec fn shows_new_user(html: Seq<char>, id: Seq<char>, a: NewAccount, now: i64) -> bool {
    exists|u: AdminUserView|
        u.id@ == id && u.email@ == a.email@ && u.display_name@ == a.display_name@ && u.role@
            == a.role@ && !u.is_disabled && u.created_at == now && u.last_seen_at is None
            && u.snippet_count == 0 && html == #[trigger] user_row(
            u,
            "irrelevant"@,
            pips_html(Signals { saved: false, tried: false, pasted: false }),
            now,
        )
}

/// The row of an account that was just made.
pub fn created_row(id: &str, a: &NewAccount, now: i64) -> (r: String)
    ensures
        shows_new_user(r@, id@, *a, now),
{
    let u = AdminUserView {
        id: copy_text(id),
        email: copy_text(a.email.as_str()),
        display_name: copy_text(a.display_name.as_str()),
        role: copy_text(a.role.as_str()),
        is_disabled: false,
        created_at: now,
        last_seen_at: None,
        snippet_count: 0,
    };
    let pips = onboarding_pips(Signals { saved: false, tried: false, pasted: false });
    let row = render_user_row(&u, "irrelevant", pips.as_str(), now);
    assert(row@ == user_row(
        u,
        "irrelevant"@,
        pips_html(Signals { saved: false, tried: false, pasted: false }),
        now,
    ));
    row
}

/// What the log keeps of an account that an admin made.
pub open spec fn account_details(email: Seq<char>, role: Seq<char>) -> Seq<
    (Seq<char>, DetailView),
> {
    seq![("email"@, DetailView::Text(email)), ("role"@, DetailView::Text(role))]
}

fn account_event(id: &str, a: &NewAccount, actor: &Actor) -> (r: AuditEvent)
    ensures
        r@.wf(),
        r@ == event_by(
            *actor,
            USER_CREATE@,
            "user"@,
            Some(id@),
            Some(account_details(a.email@, a.role@)),
        ),
{
    let mut l: Vec<(&'static str, Detail)> = Vec::new();
    l.push(("email", Detail::Text(copy_text(a.email.as_str()))));
    l.push(("role", Detail::Text(copy_text(a.role.as_str()))));
    proof {
        reveal_strlit("email");
        reveal_strlit("role");
        assert("email"@.len() == 5 && "role"@.len() == 4);
        assert(detail_views(l@) =~= account_details(a.email@, a.role@));
    }
    event_of(actor, USER_CREATE, "user", Some(copy_text(id)), Some(l))
}

/// Why no account is made: the status of the answer, and the row that it shows.
#[derive(Debug)]
pub struct Refusal {
    pub status: u16,
    pub row: &'static str,
}

/// An account to be stored, what the log is told of it, and its row.
#[derive(Debug)]
pub struct UserCreation {
    pub id: String,
    pub account: NewAccount,
    pub password_hash: String,
    pub at: i64,
    pub event: AuditEvent,
    pub row: String,
}

/// Makes the account that a form asks for. `taken` tells whether its email belongs
/// to an account already. An account that is made gets an id of its own and a hash
/// that its password fits; none is made only where the form cannot be taken, where
/// the email is taken, or where the password is too long to be hashed.
pub fn user_create_row(f: &CreateUserForm, taken: bool, actor: &Actor) -> (r: Result<
    UserCreation,
    Refusal,
>)
    ensures
        match r {
            Ok(c) => {
                &&& acceptable_user(*f) && !taken
                &&& byte_count(f.password@) <= MAX_PASSWORD_BYTES
                &&& uuid_form(c.id@)
                &&& c.account.email@ == stored_email(f.email@)
                &&& c.account.display_name@ == trimmed(f.display_name@)
                &&& c.account.role@ == role_of(f.role@)
                &&& password_accepted(f.password@, Some(c.password_hash@))
                &&& c.event@.wf()
                &&& c.event@ == event_by(
                    *actor,
                    USER_CREATE@,
                    "user"@,
                    Some(c.id@),
                    Some(account_details(c.account.email@, c.account.role@)),
                )
                &&& shows_new_user(c.row@, c.id@, c.account, c.at)
            },
            Err(e) => if !acceptable_user(*f) {
                e.status == 400 && e.row@ == INVALID_USER_ROW@
            } else if taken {
                e.status == 409 && e.row@ == EXISTING_USER_ROW@
            } else {
                byte_count(f.password@) > MAX_PASSWORD_BYTES && e.status == 500 && e.row@ == ""@
            },
        },
{
    let account = match new_account(f) {
        Some(a) => a,
        None => {
            return Err(Refusal { status: 400, row: INVALID_USER_ROW });
        },
    };
    if taken {
        return Err(Refusal { status: 409, row: EXISTING_USER_ROW });
    }
    let password_hash = match hash_password(f.password.as_str()) {
        Ok(h) => h,
        Err(_) => {
            return Err(Refusal { status: 500, row: "" });
        },
    };
    let id = new_uuid();
    let at: i64 = unix_now();
    let event = account_event(id.as_str(), &account, actor);
    let row = created_row(id.as_str(), &account, at);
    Ok(UserCreation { id, account, password_hash, at, event, row })
}

/// An account is made where its email holds an at sign, its name is not blank and its password
/// has at least ten bytes; whoever is not made an admin is a member.
pub proof fn law_accounts_that_are_made(f: CreateUserForm)
    ensures
        acceptable_user(f) <==> lowercase_text(trimmed(f.email@)).contains('@') && !all_blank(
            f.display_name@,
        ) && byte_count(f.password@) >= 10,
        f.role@ == "admin"@ ==> role_of(f.role@) == "admin"@,
        f.role@ != "admin"@ ==> role_of(f.role@) == "member"@,
{
    law_blank_texts(f.display_name@);
}

/// The steps that a user has taken are counted: signing up, and each of the three others.
pub proof fn law_steps_are_counted(saved: bool, tried: bool, pasted: bool)
    ensures
        steps_taken(Signals { saved: false, tried: false, pasted: false }) == 1,
        steps_taken(Signals { saved: true, tried, pasted }) == steps_taken(
            Signals { saved: false, tried, pasted },
        ) + 1,
        steps_taken(Signals { saved, tried: true, pasted }) == steps_taken(
            Signals { saved, tried: false, pasted },
        ) + 1,
        steps_taken(Signals { saved, tried, pasted: true }) == steps_taken(
            Signals { saved, tried, pasted: false },
        ) + 1,
{
}

/// Addresses are kept in lower case and without their outer blanks.
pub proof fn law_addresses_are_kept_in_lower_case(a: Seq<char>, s: Seq<char>, b: Seq<char>)
    requires
        all_blank(a),
        all_blank(b),
        s.len() > 0,
        !white_space(s[0]),
        !white_space(s.last()),
    ensures
        stored_email(a + s + b) == lowercase_text(s),
{
    law_outer_blanks_are_trimmed(a, s, b);
}

} // verus!
