//! The page of one user.
use crate::dashboard::ages::{format_last_seen, format_relative_at};
use crate::dashboard::stats::Ranked;
use crate::dashboard::users::{flag_text, status_pill_text, AdminUserView};
use crate::decimal::{format_thousands, i64_text};
use crate::html::escape_html;
use crate::text::{copy_text, same_text};
use vstd::prelude::*;

verus! {

use crate::dashboard::ages::{last_seen, relative};
use crate::dashboard::users::{flag, status_pill};
use crate::decimal::{decimal_int, thousands};
use crate::html::escaped;

/// What a user has reported of pasting. The amounts of time and money come
/// written out.
#[derive(Debug)]
pub struct Telemetry {
    pub chars: i64,
    pub pastes: i64,
    pub hours_saved: String,
    /// The money saved in whole Australian dollars.
    pub money_whole: i64,
    pub wpm: String,
    pub wage: String,
    pub currency: String,
    /// The library snippets that the user pastes most.
    pub favourites: Vec<Ranked>,
}

/// A label with a value. The value is markup.
pub open spec fn pair(label: Seq<char>, value: Seq<char>) -> Seq<char> {
    "<div class=\"detail-row\"><span class=\"detail-label\">"@
        + escaped(label)
        + "</span><span class=\"detail-value\">"@
        + value
        + "</span></div>"@
}

/// A label with a value. The value is markup.
pub fn detail_pair(label: &str, value: &str) -> (r: String)
    ensures
        r@ == pair(label@, value@),
{
    let label_e = escape_html(label);
    let mut out: String = "<div class=\"detail-row\"><span class=\"detail-label\">".to_owned();
    out.push_str(label_e.as_str());
    out.push_str("</span><span class=\"detail-value\">");
    out.push_str(value);
    out.push_str("</span></div>");
    out
}

/// The heading.
pub open spec fn title_html(name: Seq<char>, role: Seq<char>) -> Seq<char> {
    "<h1>"@
        + escaped(name)
        + " <span class=\"pill role-"@
        + escaped(role)
        + "\">"@
        + escaped(role)
        + "</span></h1>"@
}

/// The heading.
fn title_text(name: &str, role: &str) -> (r: String)
    ensures
        r@ == title_html(name@, role@),
{
    let name_e = escape_html(name);
    let role_e = escape_html(role);
    let mut out: String = "<h1>".to_owned();
    out.push_str(name_e.as_str());
    out.push_str(" <span class=\"pill role-");
    out.push_str(role_e.as_str());
    out.push_str("\">");
    out.push_str(role_e.as_str());
    out.push_str("</span></h1>");
    out
}

/// An account id.
pub open spec fn account_code(id: Seq<char>) -> Seq<char> {
    "<code>"@
        + escaped(id)
        + "</code>"@
}

/// An account id.
fn account_code_text(id: &str) -> (r: String)
    ensures
        r@ == account_code(id@),
{
    let id_e = escape_html(id);
    let mut out: String = "<code>".to_owned();
    out.push_str(id_e.as_str());
    out.push_str("</code>");
    out
}

/// The money saved, and what it was reckoned with.
pub open spec fn money_html(t: Telemetry) -> Seq<char> {
    "A$"@
        + thousands(t.money_whole as int)
        + " <span class=\"muted small\">("@
        + t.wpm@
        + " wpm · "@
        + t.wage@
        + " "@
        + escaped(t.currency@)
        + "/hr)</span>"@
}

/// The money saved, and what it was reckoned with.
fn money_text(t: &Telemetry) -> (r: String)
    ensures
        r@ == money_html(*t),
{
    let t_money_whole_n = format_thousands(t.money_whole);
    let t_currency_e = escape_html(t.currency.as_str());
    let mut out: String = "A$".to_owned();
    out.push_str(t_money_whole_n.as_str());
    out.push_str(" <span class=\"muted small\">(");
    out.push_str(t.wpm.as_str());
    out.push_str(" wpm · ");
    out.push_str(t.wage.as_str());
    out.push_str(" ");
    out.push_str(t_currency_e.as_str());
    out.push_str("/hr)</span>");
    out
}

/// A favourite snippet.
pub open spec fn favourite(f: Ranked) -> Seq<char> {
    escaped(f.name@)
        + "&nbsp;<span class=\"muted small\">x"@
        + decimal_int(f.count as int)
        + "</span>"@
}

/// A favourite snippet.
fn favourite_text(f: &Ranked) -> (r: String)
    ensures
        r@ == favourite(*f),
{
    let f_name_e = escape_html(f.name.as_str());
    let f_count_n = i64_text(f.count);
    let mut out: String = copy_text(f_name_e.as_str());
    out.push_str("&nbsp;<span class=\"muted small\">x");
    out.push_str(f_count_n.as_str());
    out.push_str("</span>");
    out
}

/// Favourite snippets, with semicolons between them.
pub open spec fn favourites(l: Seq<Ranked>) -> Seq<char>
    decreases l.len(),
{
    if l.len() == 0 {
        Seq::empty()
    } else if l.len() == 1 {
        favourite(l.last())
    } else {
        favourites(l.drop_last()) + "; "@ + favourite(l.last())
    }
}

fn favourites_text(l: &Vec<Ranked>) -> (r: String)
    ensures
        r@ == favourites(l@),
{
    let mut out: String = String::new();
    let n: usize = l.len();
    assert(l@.take(0) =~= Seq::<Ranked>::empty());
    assert(out@ =~= Seq::<char>::empty());
    for i in 0..n
        invariant
            n == l@.len(),
            out@ == favourites(l@.take(i as int)),
    {
        proof {
            let t = l@.take(i + 1);
            assert(t.drop_last() =~= l@.take(i as int));
            assert(t.last() == l@[i as int]);
        }
        let f = favourite_text(&l[i]);
        if i > 0 {
            out.push_str("; ");
            out.push_str(f.as_str());
        } else {
            out = f;
        }
    }
    assert(l@.take(n as int) =~= l@);
    out
}

/// The favourite snippets; nothing where there are none.
pub open spec fn favourite_pair(l: Seq<Ranked>) -> Seq<char> {
    if l.len() > 0 {
        pair("Favourite library"@, favourites(l))
    } else {
        Seq::empty()
    }
}

/// The favourite snippets; nothing where there are none.
fn favourite_pair_text(l: &Vec<Ranked>) -> (r: String)
    ensures
        r@ == favourite_pair(l@),
{
    if l.len() > 0 {
        {
            let f = favourites_text(l);
            detail_pair("Favourite library", f.as_str())
        }
    } else {
        let r: String = String::new();
        assert(r@ =~= Seq::<char>::empty());
        r
    }
}

/// What a user has reported of pasting.
pub open spec fn reported(t: Telemetry) -> Seq<char> {
    pair("Pastes"@, thousands(t.pastes as int))
        + pair("Characters"@, thousands(t.chars as int))
        + pair("Hours saved"@, t.hours_saved@)
        + pair("Money saved"@, money_html(t))
        + favourite_pair(t.favourites@)
}

/// What a user has reported of pasting.
fn reported_text(t: &Telemetry) -> (r: String)
    ensures
        r@ == reported(*t),
{
    let pastes = format_thousands(t.pastes);
    let chars = format_thousands(t.chars);
    let money = money_text(t);
    let p1 = detail_pair("Pastes", pastes.as_str());
    let mut out: String = copy_text(p1.as_str());
    let p2 = detail_pair("Characters", chars.as_str());
    out.push_str(p2.as_str());
    let p3 = detail_pair("Hours saved", t.hours_saved.as_str());
    out.push_str(p3.as_str());
    let p4 = detail_pair("Money saved", money.as_str());
    out.push_str(p4.as_str());
    let p5 = favourite_pair_text(&t.favourites);
    out.push_str(p5.as_str());
    out
}

/// What a user has reported of pasting; nothing before the first report.
pub open spec fn telemetry(t: Telemetry) -> Seq<char> {
    if t.chars > 0 || t.pastes > 0 {
        reported(t)
    } else {
        Seq::empty()
    }
}

/// What a user has reported of pasting; nothing before the first report.
fn telemetry_text(t: &Telemetry) -> (r: String)
    ensures
        r@ == telemetry(*t),
{
    if t.chars > 0 || t.pastes > 0 {
        reported_text(t)
    } else {
        let r: String = String::new();
        assert(r@ =~= Seq::<char>::empty());
        r
    }
}

/// What is known of a user, as shown at `now`.
pub open spec fn facts(u: AdminUserView, tombstoned: i64, now: i64) -> Seq<char> {
    pair("Email"@, escaped(u.email@))
        + pair("Account ID"@, account_code(u.id@))
        + pair("Status"@, status_pill(u.is_disabled))
        + pair("Created"@, relative(now, u.created_at))
        + pair("Last seen"@, escaped(last_seen(now, u.last_seen_at)))
        + pair("Live snippets"@, decimal_int(u.snippet_count as int))
        + pair("Tombstoned (pending purge)"@, decimal_int(tombstoned as int))
}

/// What is known of a user, as shown at `now`.
fn facts_text(u: &AdminUserView, tombstoned: i64, now: i64) -> (r: String)
    ensures
        r@ == facts(*u, tombstoned, now),
{
    let email = escape_html(u.email.as_str());
    let id = account_code_text(u.id.as_str());
    let created = format_relative_at(now, u.created_at);
    let raw_seen = format_last_seen(now, u.last_seen_at);
    let seen = escape_html(raw_seen.as_str());
    let live = i64_text(u.snippet_count);
    let gone = i64_text(tombstoned);
    let p1 = detail_pair("Email", email.as_str());
    let mut out: String = copy_text(p1.as_str());
    let p2 = detail_pair("Account ID", id.as_str());
    out.push_str(p2.as_str());
    let p3 = detail_pair("Status", status_pill_text(u.is_disabled));
    out.push_str(p3.as_str());
    let p4 = detail_pair("Created", created.as_str());
    out.push_str(p4.as_str());
    let p5 = detail_pair("Last seen", seen.as_str());
    out.push_str(p5.as_str());
    let p6 = detail_pair("Live snippets", live.as_str());
    out.push_str(p6.as_str());
    let p7 = detail_pair("Tombstoned (pending purge)", gone.as_str());
    out.push_str(p7.as_str());
    out
}

/// The buttons for another user.
pub open spec fn buttons_html(
    u: AdminUserView,
    role: Seq<char>,
    label: Seq<char>,
    state: Seq<char>,
    dlabel: Seq<char>,
) -> Seq<char> {
    "<div class=\"detail-actions\"><button class=\"btn\" hx-put=\"/dashboard/users/"@
        + escaped(u.id@)
        + "\" hx-vals='{\"role\":\""@
        + role
        + "\"}' hx-swap=\"none\" hx-on::after-request=\"if(event.detail.successful) \
            window.location.reload()\">"@
        + label
        + "</button><button class=\"btn\" hx-put=\"/dashboard/users/"@
        + escaped(u.id@)
        + "\" hx-vals='{\"is_disabled\":"@
        + state
        + "}' hx-swap=\"none\" hx-on::after-request=\"if(event.detail.successful) \
            window.location.reload()\">"@
        + dlabel
        + "</button><button class=\"btn danger\" hx-delete=\"/dashboard/users/"@
        + escaped(u.id@)
        + "\" hx-confirm=\"Permanently delete "@
        + escaped(u.display_name@)
        + "? Their personal snippets are removed from the server.\" hx-swap=\"none\" \
            hx-on::after-request=\"if(event.detail.successful) window.location.href = \
            '/dashboard/users'\">Delete account</button></div>"@
}

/// The buttons for another user.
fn buttons_text(u: &AdminUserView, role: &str, label: &str, state: &str, dlabel: &str) -> (r: String)
    ensures
        r@ == buttons_html(*u, role@, label@, state@, dlabel@),
{
    let u_id_e = escape_html(u.id.as_str());
    let u_display_name_e = escape_html(u.display_name.as_str());
    let mut out: String = "<div class=\"detail-actions\"><button class=\"btn\" hx-put=\"/dashboard/users/".to_owned();
    out.push_str(u_id_e.as_str());
    out.push_str("\" hx-vals='{\"role\":\"");
    out.push_str(role);
    out.push_str("\"}' hx-swap=\"none\" hx-on::after-request=\"if(event.detail.successful) \
                window.location.reload()\">");
    out.push_str(label);
    out.push_str("</button><button class=\"btn\" hx-put=\"/dashboard/users/");
    out.push_str(u_id_e.as_str());
    out.push_str("\" hx-vals='{\"is_disabled\":");
    out.push_str(state);
    out.push_str("}' hx-swap=\"none\" hx-on::after-request=\"if(event.detail.successful) \
                window.location.reload()\">");
    out.push_str(dlabel);
    out.push_str("</button><button class=\"btn danger\" hx-delete=\"/dashboard/users/");
    out.push_str(u_id_e.as_str());
    out.push_str("\" hx-confirm=\"Permanently delete ");
    out.push_str(u_display_name_e.as_str());
    out.push_str("? Their personal snippets are removed from the server.\" hx-swap=\"none\" \
                hx-on::after-request=\"if(event.detail.successful) window.location.href = \
                '/dashboard/users'\">Delete account</button></div>");
    out
}

/// What stands in place of the buttons on one's own page.
pub const THIS_IS_YOU: &'static str =
    "<p class=\"muted\" style=\"margin-top:20px\"><em>This is you. Self-targeted actions \
        (disable, demote, delete) are blocked server-side.</em></p>";

/// What can be done to a user; nothing to oneself.
pub open spec fn detail_actions(u: AdminUserView, me: Seq<char>) -> Seq<char> {
    if u.id@ == me {
        THIS_IS_YOU@
    } else {
        "<h2 style=\"margin-top:24px\">Actions</h2>"@ + buttons_html(
            u,
            if u.role@ == "admin"@ {
                "member"@
            } else {
                "admin"@
            },
            if u.role@ == "admin"@ {
                "Demote to member"@
            } else {
                "Promote to admin"@
            },
            flag(!u.is_disabled),
            if u.is_disabled {
                "Re-enable account"@
            } else {
                "Disable account"@
            },
        )
    }
}

fn detail_actions_text(u: &AdminUserView, me: &str) -> (r: String)
    ensures
        r@ == detail_actions(*u, me@),
{
    if same_text(u.id.as_str(), me) {
        return THIS_IS_YOU.to_owned();
    }
    let admin = same_text(u.role.as_str(), "admin");
    let buttons = buttons_text(
        u,
        if admin {
            "member"
        } else {
            "admin"
        },
        if admin {
            "Demote to member"
        } else {
            "Promote to admin"
        },
        flag_text(!u.is_disabled),
        if u.is_disabled {
            "Re-enable account"
        } else {
            "Disable account"
        },
    );
    let mut out: String = "<h2 style=\"margin-top:24px\">Actions</h2>".to_owned();
    out.push_str(buttons.as_str());
    out
}

/// What is shown where there is no such user.
pub const NO_SUCH_USER: &'static str =
    "<div class=\"banner error\">No user with that id.</div><p><a \
        href=\"/dashboard/users\">Back to users list</a></p>";

/// The content of the page of one user, as shown at `now` to the admin `me`. It tells
/// counts and dates, never a snippet.
pub open spec fn detail_html(
    u: AdminUserView,
    tombstoned: i64,
    t: Telemetry,
    me: Seq<char>,
    now: i64,
) -> Seq<char> {
    "<p><a href=\"/dashboard/users\">&larr; Users</a></p>"@
        + title_html(u.display_name@, u.role@)
        + "<div class=\"detail-grid\">"@
        + facts(u, tombstoned, now)
        + telemetry(t)
        + "</div>"@
        + detail_actions(u, me)
}

/// The content of the page of one user, as shown at `now` to the admin `me`. It tells
/// counts and dates, never a snippet.
pub fn user_detail_page(u: &AdminUserView, tombstoned: i64, t: &Telemetry, me: &str, now: i64) -> (r: String)
    ensures
        r@ == detail_html(*u, tombstoned, *t, me@, now),
{
    let mut out: String = "<p><a href=\"/dashboard/users\">&larr; Users</a></p>".to_owned();
    let p1 = title_text(u.display_name.as_str(), u.role.as_str());
    out.push_str(p1.as_str());
    out.push_str("<div class=\"detail-grid\">");
    let p2 = facts_text(u, tombstoned, now);
    out.push_str(p2.as_str());
    let p3 = telemetry_text(t);
    out.push_str(p3.as_str());
    out.push_str("</div>");
    let p4 = detail_actions_text(u, me);
    out.push_str(p4.as_str());
    out
}

} // verus!
