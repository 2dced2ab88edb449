//! The audit log as a page.
use crate::audit::{filled_text, Actor, AuditFilter, AuditRow};
use crate::dashboard::ages::format_relative_at;
use crate::dashboard::audit_text::{
    capitalize,
    humanize_audit_action,
    humanize_audit_details,
    humanize_audit_target,
    render_library_update_diff,
    KnownSnippet,
    KnownUser,
};
use crate::dashboard::forms::AuditPageQuery;
use crate::dashboard::layout::text_or_empty;
use crate::decimal::i64_text;
use crate::html::escape_html;
use crate::json::parse_json;
use crate::text::{copy_opt, copy_text, is_one_of, push_text, same_text};
use crate::trim::{join, trim};
use crate::url::url_encode;
use vstd::prelude::*;

verus! {

use crate::audit::filled;
use crate::dashboard::ages::relative;
use crate::dashboard::audit_text::{
    action_label,
    capitalized,
    details_label,
    target_label,
    update_diff,
};
use crate::dashboard::layout::or_empty;
use crate::decimal::decimal_int;
use crate::html::escaped;
use crate::json::json_of_text;
use crate::text::{opt_view, views};
use crate::trim::{joined, trimmed};
use crate::url::percent_encoded;
use vstd::utf8::encode_utf8;

/// How many entries a page shows where nothing else is asked for.
pub const AUDIT_DEFAULT_PAGE_SIZE: i64 = 25;

/// The last page that can be asked for.
pub const AUDIT_MAX_PAGES: i64 = 200;

/// How many entries a page can show.
pub open spec fn offered_size(n: i64) -> bool {
    n == 25 || n == 50 || n == 100 || n == 200
}

/// How many entries a page shows: what was asked for where it is offered, the
/// default otherwise.
pub open spec fn page_size(asked: Option<i64>) -> i64 {
    match asked {
        Some(n) => if offered_size(n) {
            n
        } else {
            AUDIT_DEFAULT_PAGE_SIZE
        },
        None => AUDIT_DEFAULT_PAGE_SIZE,
    }
}

/// How many entries a page shows.
pub fn audit_page_size(req: Option<i64>) -> (r: i64)
    ensures
        r == page_size(req),
        offered_size(r),
{
    match req {
        Some(n) => if n == 25 || n == 50 || n == 100 || n == 200 {
            n
        } else {
            AUDIT_DEFAULT_PAGE_SIZE
        },
        None => AUDIT_DEFAULT_PAGE_SIZE,
    }
}

/// Which page is shown: the first where none was asked for, and none beyond the
/// last that can be.
pub open spec fn page_number(asked: Option<i64>) -> i64 {
    match asked {
        Some(n) => if n < 0 {
            0
        } else if n > AUDIT_MAX_PAGES {
            AUDIT_MAX_PAGES
        } else {
            n
        },
        None => 0,
    }
}

/// The verbs that entries can be narrowed to.
pub open spec fn offered_verb(s: Seq<char>) -> bool {
    s == "create"@ || s == "update"@ || s == "delete"@ || s == "move"@ || s == "signin"@
}

/// The verb that entries are narrowed to; none where it is not offered.
pub open spec fn chosen_verb(asked: Option<Seq<char>>) -> Option<Seq<char>> {
    match asked {
        Some(s) => if offered_verb(trimmed(s)) {
            Some(trimmed(s))
        } else {
            None
        },
        None => None,
    }
}

/// The window in days that entries are narrowed to; none where it is not offered.
pub open spec fn chosen_window(asked: Option<i64>) -> Option<i64> {
    match asked {
        Some(d) => if d == 1 || d == 7 || d == 30 {
            Some(d)
        } else {
            None
        },
        None => None,
    }
}

/// What part of the log is shown.
#[derive(Debug)]
pub struct AuditView {
    pub page: i64,
    pub per_page: i64,
    pub q: Option<String>,
    pub verb: Option<String>,
    pub actor: Option<String>,
    pub since: Option<i64>,
}

impl AuditView {
    /// Every choice is one that the page offers.
    pub open spec fn wf(self) -> bool {
        &&& 0 <= self.page <= AUDIT_MAX_PAGES
        &&& offered_size(self.per_page)
        &&& chosen_window(self.since) == self.since
    }

    /// Where the page begins in the log.
    pub fn offset(&self) -> (r: i64)
        requires
            self.wf(),
        ensures
            r == self.page * self.per_page,
    {
        assert(0 <= self.page * self.per_page <= 40_000) by (nonlinear_arith)
            requires
                0 <= self.page <= 200,
                0 <= self.per_page <= 200,
        ;
        self.page * self.per_page
    }
}

fn verb_text(s: &Option<String>) -> (r: Option<String>)
    ensures
        opt_view(r) == chosen_verb(opt_view(*s)),
{
    match s {
        Some(t) => {
            let u = trim(t.as_str());
            let v = u.as_str();
            if same_text(v, "create") || same_text(v, "update") || same_text(v, "delete")
                || same_text(v, "move") || same_text(v, "signin") {
                Some(u)
            } else {
                None
            }
        },
        None => None,
    }
}

/// What part of the log a query asks for. What is not offered is left out.
pub fn audit_view(q: &AuditPageQuery) -> (r: AuditView)
    ensures
        r.wf(),
        r.page == page_number(q.page),
        r.per_page == page_size(q.per_page),
        opt_view(r.q) == filled(opt_view(q.q)),
        opt_view(r.verb) == chosen_verb(opt_view(q.action)),
        opt_view(r.actor) == filled(opt_view(q.actor)),
        r.since == chosen_window(q.since),
{
    let page: i64 = match q.page {
        Some(n) => if n < 0 {
            0
        } else if n > AUDIT_MAX_PAGES {
            AUDIT_MAX_PAGES
        } else {
            n
        },
        None => 0,
    };
    let since: Option<i64> = match q.since {
        Some(d) => if d == 1 || d == 7 || d == 30 {
            Some(d)
        } else {
            None
        },
        None => None,
    };
    AuditView {
        page,
        per_page: audit_page_size(q.per_page),
        q: filled_text(&q.q),
        verb: verb_text(&q.action),
        actor: filled_text(&q.actor),
        since,
    }
}

/// The filter of a view, at `now`.
pub fn filter_of_view(v: &AuditView, now: i64) -> (r: AuditFilter)
    requires
        v.wf(),
        now >= i64::MIN + 30 * 86400,
    ensures
        opt_view(r.q) == opt_view(v.q),
        opt_view(r.action_verb) == opt_view(v.verb),
        opt_view(r.actor_id) == opt_view(v.actor),
        r.since_ts == (match v.since {
            Some(d) => Some((now - d * 86400) as i64),
            None => None,
        }),
{
    let since_ts: Option<i64> = match v.since {
        Some(d) => Some(now - d * 86400),
        None => None,
    };
    AuditFilter {
        q: copy_opt(&v.q),
        action_verb: copy_opt(&v.verb),
        actor_id: copy_opt(&v.actor),
        since_ts,
    }
}

/// A filter in a link; nothing where it is not set.
pub open spec fn link_part(key: Seq<char>, value: Option<Seq<char>>) -> Seq<char> {
    match value {
        Some(s) => key + percent_encoded(encode_utf8(s)),
        None => Seq::empty(),
    }
}

fn link_part_text(key: &str, value: &Option<String>) -> (r: String)
    ensures
        r@ == link_part(key@, opt_view(*value)),
{
    match value {
        Some(s) => {
            let e = url_encode(s.as_str());
            let mut out: String = copy_text(key);
            out.push_str(e.as_str());
            out
        },
        None => {
            let e: String = String::new();
            assert(e@ =~= Seq::<char>::empty());
            e
        },
    }
}

/// The window in a link; nothing where it is not set.
pub open spec fn link_window(since: Option<i64>) -> Seq<char> {
    match since {
        Some(d) => "&since="@ + decimal_int(d as int),
        None => Seq::empty(),
    }
}

fn link_window_text(since: Option<i64>) -> (r: String)
    ensures
        r@ == link_window(since),
{
    match since {
        Some(d) => {
            let n = i64_text(d);
            let mut out: String = "&since=".to_owned();
            out.push_str(n.as_str());
            out
        },
        None => {
            let e: String = String::new();
            assert(e@ =~= Seq::<char>::empty());
            e
        },
    }
}

/// The filters as the tail of a link's query.
pub open spec fn filter_query(
    q: Option<Seq<char>>,
    action: Option<Seq<char>>,
    actor: Option<Seq<char>>,
    since: Option<i64>,
) -> Seq<char> {
    link_part("&q="@, q) + link_part("&action="@, action) + link_part("&actor="@, actor)
        + link_window(since)
}

/// The filters as the tail of a link's query.
pub fn audit_filter_query(
    q: &Option<String>,
    action: &Option<String>,
    actor: &Option<String>,
    since: Option<i64>,
) -> (r: String)
    ensures
        r@ == filter_query(opt_view(*q), opt_view(*action), opt_view(*actor), since),
{
    let mut out = link_part_text("&q=", q);
    let verb = link_part_text("&action=", action);
    let who = link_part_text("&actor=", actor);
    let window = link_window_text(since);
    out.push_str(verb.as_str());
    out.push_str(who.as_str());
    out.push_str(window.as_str());
    out
}

/// The filters of a view as the tail of a link's query.
pub open spec fn view_query(v: AuditView) -> Seq<char> {
    filter_query(opt_view(v.q), opt_view(v.verb), opt_view(v.actor), v.since)
}

/// The ids of the targets of one kind, each once, in the order in which they come.
pub open spec fn targets(rows: Seq<AuditRow>, kind: Seq<char>) -> Seq<Seq<char>>
    decreases rows.len(),
{
    if rows.len() == 0 {
        Seq::empty()
    } else {
        let before = targets(rows.drop_last(), kind);
        let r = rows.last();
        match (r.target_kind, r.target_id) {
            (Some(k), Some(id)) => if k@ == kind && id@.len() > 0 && !before.contains(id@) {
                before.push(id@)
            } else {
                before
            },
            _ => before,
        }
    }
}

/// The ids of the targets of one kind, each once.
pub fn target_ids(rows: &Vec<AuditRow>, kind: &str) -> (r: Vec<String>)
    ensures
        views(r@) == targets(rows@, kind@),
{
    let n: usize = rows.len();
    let mut out: Vec<String> = Vec::new();
    assert(views(out@) =~= Seq::<Seq<char>>::empty());
    assert(rows@.take(0) =~= Seq::<AuditRow>::empty());
    for i in 0..n
        invariant
            n == rows@.len(),
            views(out@) == targets(rows@.take(i as int), kind@),
    {
        proof {
            let t = rows@.take(i + 1);
            assert(t.drop_last() =~= rows@.take(i as int));
            assert(t.last() == rows@[i as int]);
        }
        if let Some(k) = &rows[i].target_kind {
            if let Some(id) = &rows[i].target_id {
                if same_text(k.as_str(), kind) && id.as_str().unicode_len() > 0 && !is_one_of(
                    id.as_str(),
                    &out,
                ) {
                    push_text(&mut out, copy_text(id.as_str()));
                }
            }
        }
    }
    assert(rows@.take(n as int) =~= rows@);
    out
}

/// A run of placeholders.
pub open spec fn marks(n: nat) -> Seq<Seq<char>> {
    Seq::new(n, |i: int| "?"@)
}

/// A query for the rows whose ids are given, with a placeholder for each.
pub open spec fn query_of_ids(select: Seq<char>, n: nat) -> Seq<char> {
    select + " WHERE id IN ("@ + joined(marks(n), ","@) + ")"@
}

fn ids_query(select: &str, n: usize) -> (r: String)
    ensures
        r@ == query_of_ids(select@, n as nat),
{
    let mut l: Vec<String> = Vec::new();
    for i in 0..n
        invariant
            views(l@) =~= marks(i as nat),
    {
        push_text(&mut l, "?".to_owned());
    }
    let list = join(&l, ",");
    let mut out: String = copy_text(select);
    out.push_str(" WHERE id IN (");
    out.push_str(list.as_str());
    out.push_str(")");
    out
}

/// The query for the users whose ids are given; none where there are none.
pub fn users_by_id_query(n: usize) -> (r: Option<String>)
    ensures
        opt_view(r) == (if n == 0 {
            None
        } else {
            Some(query_of_ids("SELECT id, display_name, email FROM users"@, n as nat))
        }),
{
    if n == 0 {
        return None;
    }
    Some(ids_query("SELECT id, display_name, email FROM users", n))
}

/// The query for the snippets whose ids are given; none where there are none.
pub fn snippets_by_id_query(n: usize) -> (r: Option<String>)
    ensures
        opt_view(r) == (if n == 0 {
            None
        } else {
            Some(
                query_of_ids("SELECT id, folder_path, is_deleted FROM library_snippets"@, n as nat),
            )
        }),
{
    if n == 0 {
        return None;
    }
    Some(ids_query("SELECT id, folder_path, is_deleted FROM library_snippets", n))
}

/// What is known of the targets on a page.
#[derive(Debug)]
pub struct Known {
    pub users: Vec<KnownUser>,
    pub snippets: Vec<KnownSnippet>,
}

/// The mark of the option that is chosen.
pub open spec fn selected(chosen: bool) -> Seq<char> {
    if chosen {
        " selected"@
    } else {
        ""@
    }
}

fn selected_text(chosen: bool) -> (r: &'static str)
    ensures
        r@ == selected(chosen),
{
    if chosen {
        " selected"
    } else {
        ""
    }
}

/// Whether a choice is the one given.
pub open spec fn is_choice(chosen: Option<Seq<char>>, v: Seq<char>) -> bool {
    match chosen {
        Some(s) => s == v,
        None => false,
    }
}

fn matches_choice(chosen: &Option<String>, v: &str) -> (r: bool)
    ensures
        r == is_choice(opt_view(*chosen), v@),
{
    match chosen {
        Some(s) => same_text(s.as_str(), v),
        None => false,
    }
}

/// The search field.
pub open spec fn search_box(q: Seq<char>) -> Seq<char> {
    "<input type=\"search\" name=\"q\" class=\"audit-search\" placeholder=\"Search actor, \
            action, target, details...\" value=\""@
        + escaped(q)
        + "\" />"@
}

/// The search field.
fn search_box_text(q: &str) -> (r: String)
    ensures
        r@ == search_box(q@),
{
    let q_e = escape_html(q);
    let mut out: String = "<input type=\"search\" name=\"q\" class=\"audit-search\" placeholder=\"Search \
                actor, action, target, details...\" value=\"".to_owned();
    out.push_str(q_e.as_str());
    out.push_str("\" />");
    out
}

/// A verb to choose, from its parts.
pub open spec fn verb_option_html(v: Seq<char>, sel: Seq<char>, label: Seq<char>) -> Seq<char> {
    "<option value=\""@
        + v
        + "\""@
        + sel
        + ">"@
        + label
        + "</option>"@
}

/// A verb to choose, from its parts.
fn verb_option_html_text(v: &str, sel: &str, label: &str) -> (r: String)
    ensures
        r@ == verb_option_html(v@, sel@, label@),
{
    let mut out: String = "<option value=\"".to_owned();
    out.push_str(v);
    out.push_str("\"");
    out.push_str(sel);
    out.push_str(">");
    out.push_str(label);
    out.push_str("</option>");
    out
}

/// A verb to choose.
pub open spec fn verb_option(chosen: Option<Seq<char>>, v: Seq<char>) -> Seq<char> {
    verb_option_html(v, selected(is_choice(chosen, v)), capitalized(v))
}

fn verb_option_text(chosen: &Option<String>, v: &str) -> (r: String)
    ensures
        r@ == verb_option(opt_view(*chosen), v@),
{
    let label = capitalize(v);
    verb_option_html_text(v, selected_text(matches_choice(chosen, v)), label.as_str())
}

/// An actor to choose, from the parts.
pub open spec fn actor_option_html(id: Seq<char>, sel: Seq<char>, email: Seq<char>) -> Seq<char> {
    "<option value=\""@
        + escaped(id)
        + "\""@
        + sel
        + ">"@
        + escaped(email)
        + "</option>"@
}

/// An actor to choose, from the parts.
fn actor_option_html_text(id: &str, sel: &str, email: &str) -> (r: String)
    ensures
        r@ == actor_option_html(id@, sel@, email@),
{
    let id_e = escape_html(id);
    let email_e = escape_html(email);
    let mut out: String = "<option value=\"".to_owned();
    out.push_str(id_e.as_str());
    out.push_str("\"");
    out.push_str(sel);
    out.push_str(">");
    out.push_str(email_e.as_str());
    out.push_str("</option>");
    out
}

/// An actor to choose.
pub open spec fn actor_option(a: Actor, v: AuditView) -> Seq<char> {
    actor_option_html(a.id@, selected(is_choice(opt_view(v.actor), a.id@)), a.email@)
}

fn actor_option_text(a: &Actor, v: &AuditView) -> (r: String)
    ensures
        r@ == actor_option(*a, *v),
{
    let sel = selected_text(matches_choice(&v.actor, a.id.as_str()));
    actor_option_html_text(a.id.as_str(), sel, a.email.as_str())
}

/// The actors to choose from.
pub open spec fn actor_options(l: Seq<Actor>, v: AuditView) -> Seq<char>
    decreases l.len(),
{
    if l.len() == 0 {
        Seq::empty()
    } else {
        actor_options(l.drop_last(), v) + actor_option(l.last(), v)
    }
}

/// The actors to choose from.
fn actor_options_text(l: &Vec<Actor>, v: &AuditView) -> (r: String)
    ensures
        r@ == actor_options(l@, *v),
{
    let mut out: String = String::new();
    let n: usize = l.len();
    assert(l@.take(0) =~= Seq::<Actor>::empty());
    assert(out@ =~= Seq::<char>::empty());
    for i in 0..n
        invariant
            n == l@.len(),
            out@ == actor_options(l@.take(i as int), *v),
    {
        proof {
            let t = l@.take(i + 1);
            assert(t.drop_last() =~= l@.take(i as int));
            assert(t.last() == l@[i as int]);
        }
        let s = actor_option_text(&l[i], v);
        out.push_str(s.as_str());
    }
    assert(l@.take(n as int) =~= l@);
    out
}

/// A window to choose, from its parts.
pub open spec fn window_option_html(days: i64, sel: Seq<char>, label: Seq<char>) -> Seq<char> {
    "<option value=\""@
        + decimal_int(days as int)
        + "\""@
        + sel
        + ">"@
        + label
        + "</option>"@
}

/// A window to choose, from its parts.
fn window_option_html_text(days: i64, sel: &str, label: &str) -> (r: String)
    ensures
        r@ == window_option_html(days, sel@, label@),
{
    let days_n = i64_text(days);
    let mut out: String = "<option value=\"".to_owned();
    out.push_str(days_n.as_str());
    out.push_str("\"");
    out.push_str(sel);
    out.push_str(">");
    out.push_str(label);
    out.push_str("</option>");
    out
}

/// A window to choose; all time is chosen where no other is.
pub open spec fn window_option(since: Option<i64>, days: i64, label: Seq<char>) -> Seq<char> {
    window_option_html(
        days,
        selected(since == Some(days) || (days == 0 && since is None)),
        label,
    )
}

fn window_option_text(since: Option<i64>, days: i64, label: &str) -> (r: String)
    ensures
        r@ == window_option(since, days, label@),
{
    let chosen = match since {
        Some(d) => d == days,
        None => days == 0,
    };
    window_option_html_text(days, selected_text(chosen), label)
}

/// A page size to choose, from its parts.
pub open spec fn size_option_html(n: i64, sel: Seq<char>) -> Seq<char> {
    "<option value=\""@
        + decimal_int(n as int)
        + "\""@
        + sel
        + ">"@
        + decimal_int(n as int)
        + " / page</option>"@
}

/// A page size to choose, from its parts.
fn size_option_html_text(n: i64, sel: &str) -> (r: String)
    ensures
        r@ == size_option_html(n, sel@),
{
    let n_n = i64_text(n);
    let mut out: String = "<option value=\"".to_owned();
    out.push_str(n_n.as_str());
    out.push_str("\"");
    out.push_str(sel);
    out.push_str(">");
    out.push_str(n_n.as_str());
    out.push_str(" / page</option>");
    out
}

/// A page size to choose.
pub open spec fn size_option(per_page: i64, n: i64) -> Seq<char> {
    size_option_html(n, selected(n == per_page))
}

fn size_option_text(per_page: i64, n: i64) -> (r: String)
    ensures
        r@ == size_option(per_page, n),
{
    size_option_html_text(n, selected_text(n == per_page))
}

/// Whether the view is narrowed in any way.
pub open spec fn any_filter(v: AuditView) -> bool {
    v.q is Some || v.verb is Some || v.actor is Some || v.since is Some
}

fn has_filter(v: &AuditView) -> (r: bool)
    ensures
        r == any_filter(*v),
{
    v.q.is_some() || v.verb.is_some() || v.actor.is_some() || v.since.is_some()
}

/// The link that clears the filters.
pub open spec fn clear_link(any: bool) -> Seq<char> {
    if any {
        "<a class=\"audit-clear\" href=\"/dashboard/audit\">Clear</a>"@
    } else {
        Seq::empty()
    }
}

/// The link that clears the filters.
fn clear_link_text(any: bool) -> (r: String)
    ensures
        r@ == clear_link(any),
{
    if any {
        "<a class=\"audit-clear\" href=\"/dashboard/audit\">Clear</a>".to_owned()
    } else {
        let r: String = String::new();
        assert(r@ =~= Seq::<char>::empty());
        r
    }
}

/// The filters, with what is chosen.
pub open spec fn filter_bar(v: AuditView, actors: Seq<Actor>) -> Seq<char> {
    "<form method=\"get\" action=\"/dashboard/audit\" class=\"audit-filters\">"@
        + search_box(or_empty(opt_view(v.q)))
        + "<select name=\"action\" aria-label=\"Action\" onchange=\"this.form.submit()\"><option \
            value=\"\">All actions</option>"@
        + verb_option(opt_view(v.verb), "create"@)
        + verb_option(opt_view(v.verb), "update"@)
        + verb_option(opt_view(v.verb), "delete"@)
        + verb_option(opt_view(v.verb), "move"@)
        + verb_option(opt_view(v.verb), "signin"@)
        + "</select><select name=\"actor\" aria-label=\"Actor\" onchange=\"this.form.submit()\">\
            <option value=\"\">All actors</option>"@
        + actor_options(actors, v)
        + "</select><select name=\"since\" aria-label=\"Time range\" \
            onchange=\"this.form.submit()\">"@
        + window_option(v.since, 0, "All time"@)
        + window_option(v.since, 1, "Last 24h"@)
        + window_option(v.since, 7, "7 days"@)
        + window_option(v.since, 30, "30 days"@)
        + "</select><select name=\"per_page\" aria-label=\"Per page\" \
            onchange=\"this.form.submit()\">"@
        + size_option(v.per_page, 25)
        + size_option(v.per_page, 50)
        + size_option(v.per_page, 100)
        + size_option(v.per_page, 200)
        + "</select><input type=\"hidden\" name=\"page\" value=\"0\" /><button type=\"submit\" \
            class=\"btn\">Search</button>"@
        + clear_link(any_filter(v))
        + "</form>"@
}

/// The filters, with what is chosen.
fn filter_bar_text(v: &AuditView, actors: &Vec<Actor>) -> (r: String)
    ensures
        r@ == filter_bar(*v, actors@),
{
    let mut out: String = "<form method=\"get\" action=\"/dashboard/audit\" class=\"audit-filters\">".to_owned();
    let p1 = search_box_text(text_or_empty(&v.q));
    out.push_str(p1.as_str());
    out.push_str("<select name=\"action\" aria-label=\"Action\" onchange=\"this.form.submit()\">\
                <option value=\"\">All actions</option>");
    let p2 = verb_option_text(&v.verb, "create");
    out.push_str(p2.as_str());
    let p3 = verb_option_text(&v.verb, "update");
    out.push_str(p3.as_str());
    let p4 = verb_option_text(&v.verb, "delete");
    out.push_str(p4.as_str());
    let p5 = verb_option_text(&v.verb, "move");
    out.push_str(p5.as_str());
    let p6 = verb_option_text(&v.verb, "signin");
    out.push_str(p6.as_str());
    out.push_str("</select><select name=\"actor\" aria-label=\"Actor\" \
                onchange=\"this.form.submit()\"><option value=\"\">All actors</option>");
    let p7 = actor_options_text(actors, v);
    out.push_str(p7.as_str());
    out.push_str("</select><select name=\"since\" aria-label=\"Time range\" \
                onchange=\"this.form.submit()\">");
    let p8 = window_option_text(v.since, 0, "All time");
    out.push_str(p8.as_str());
    let p9 = window_option_text(v.since, 1, "Last 24h");
    out.push_str(p9.as_str());
    let p10 = window_option_text(v.since, 7, "7 days");
    out.push_str(p10.as_str());
    let p11 = window_option_text(v.since, 30, "30 days");
    out.push_str(p11.as_str());
    out.push_str("</select><select name=\"per_page\" aria-label=\"Per page\" \
                onchange=\"this.form.submit()\">");
    let p12 = size_option_text(v.per_page, 25);
    out.push_str(p12.as_str());
    let p13 = size_option_text(v.per_page, 50);
    out.push_str(p13.as_str());
    let p14 = size_option_text(v.per_page, 100);
    out.push_str(p14.as_str());
    let p15 = size_option_text(v.per_page, 200);
    out.push_str(p15.as_str());
    out.push_str("</select><input type=\"hidden\" name=\"page\" value=\"0\" /><button \
                type=\"submit\" class=\"btn\">Search</button>");
    let p16 = clear_link_text(has_filter(v));
    out.push_str(p16.as_str());
    out.push_str("</form>");
    out
}

/// What an entry changed; none where it changed no snippet, or that was not noted.
pub open spec fn row_diff(r: AuditRow) -> Option<Seq<char>> {
    if r.action@ == "library.update"@ {
        match opt_view(r.details) {
            Some(s) => match json_of_text(s) {
                Some(j) => update_diff(j),
                None => None,
            },
            None => None,
        }
    } else {
        None
    }
}

fn row_diff_of(r: &AuditRow) -> (d: Option<String>)
    ensures
        opt_view(d) == row_diff(*r),
{
    if same_text(r.action.as_str(), "library.update") {
        if let Some(s) = &r.details {
            if let Some(j) = parse_json(s.as_str()) {
                return render_library_update_diff(&j);
            }
        }
    }
    None
}

/// The button that shows a difference.
pub open spec fn toggle_html(id: i64) -> Seq<char> {
    "<button type=\"button\" class=\"audit-diff-toggle\" aria-controls=\"audit-diff-"@
        + decimal_int(id as int)
        + "\" aria-expanded=\"false\" onclick=\"toggleAuditDiff("@
        + decimal_int(id as int)
        + ")\">+ diff</button> "@
}

/// The button that shows a difference.
fn toggle_html_text(id: i64) -> (r: String)
    ensures
        r@ == toggle_html(id),
{
    let id_n = i64_text(id);
    let mut out: String = "<button type=\"button\" class=\"audit-diff-toggle\" aria-controls=\"audit-diff-".to_owned();
    out.push_str(id_n.as_str());
    out.push_str("\" aria-expanded=\"false\" onclick=\"toggleAuditDiff(");
    out.push_str(id_n.as_str());
    out.push_str(")\">+ diff</button> ");
    out
}

/// The button that shows a difference, where there is one.
pub open spec fn toggle(shown: bool, id: i64) -> Seq<char> {
    if shown {
        toggle_html(id)
    } else {
        Seq::empty()
    }
}

/// The button that shows a difference, where there is one.
fn toggle_text(shown: bool, id: i64) -> (r: String)
    ensures
        r@ == toggle(shown, id),
{
    if shown {
        toggle_html_text(id)
    } else {
        let r: String = String::new();
        assert(r@ =~= Seq::<char>::empty());
        r
    }
}

/// A link to the actor.
pub open spec fn actor_link(id: Seq<char>, email: Seq<char>) -> Seq<char> {
    "<a href=\"/dashboard/users/"@
        + escaped(id)
        + "\">"@
        + escaped(email)
        + "</a>"@
}

/// A link to the actor.
fn actor_link_text(id: &str, email: &str) -> (r: String)
    ensures
        r@ == actor_link(id@, email@),
{
    let id_e = escape_html(id);
    let email_e = escape_html(email);
    let mut out: String = "<a href=\"/dashboard/users/".to_owned();
    out.push_str(id_e.as_str());
    out.push_str("\">");
    out.push_str(email_e.as_str());
    out.push_str("</a>");
    out
}

/// The actor of an entry: a link where the account is known, the email otherwise.
pub open spec fn actor_cell(r: AuditRow) -> Seq<char> {
    match opt_view(r.actor_id) {
        Some(id) => if id.len() > 0 {
            actor_link(id, r.actor_email@)
        } else {
            escaped(r.actor_email@)
        },
        None => escaped(r.actor_email@),
    }
}

fn actor_cell_text(r: &AuditRow) -> (c: String)
    ensures
        c@ == actor_cell(*r),
{
    if let Some(id) = &r.actor_id {
        if id.as_str().unicode_len() > 0 {
            return actor_link_text(id.as_str(), r.actor_email.as_str());
        }
    }
    escape_html(r.actor_email.as_str())
}

/// An entry, from its cells.
pub open spec fn entry_html(
    when: Seq<char>,
    actor: Seq<char>,
    action: Seq<char>,
    target: Seq<char>,
    toggle: Seq<char>,
    details: Seq<char>,
) -> Seq<char> {
    "<tr><td class=\"audit-when\">"@
        + when
        + "</td><td>"@
        + actor
        + "</td><td>"@
        + action
        + "</td><td>"@
        + target
        + "</td><td class=\"audit-details\">"@
        + toggle
        + details
        + "</td></tr>"@
}

/// An entry, from its cells.
fn entry_html_text(when: &str, actor: &str, action: &str, target: &str, toggle: &str, details: &str) -> (r: String)
    ensures
        r@ == entry_html(when@, actor@, action@, target@, toggle@, details@),
{
    let mut out: String = "<tr><td class=\"audit-when\">".to_owned();
    out.push_str(when);
    out.push_str("</td><td>");
    out.push_str(actor);
    out.push_str("</td><td>");
    out.push_str(action);
    out.push_str("</td><td>");
    out.push_str(target);
    out.push_str("</td><td class=\"audit-details\">");
    out.push_str(toggle);
    out.push_str(details);
    out.push_str("</td></tr>");
    out
}

/// The row with a difference, hidden at first.
pub open spec fn diff_row_html(id: i64, diff: Seq<char>) -> Seq<char> {
    "<tr class=\"audit-diff-row\" id=\"audit-diff-"@
        + decimal_int(id as int)
        + "\" hidden><td colspan=\"5\" class=\"audit-diff-cell\">"@
        + diff
        + "</td></tr>"@
}

/// The row with a difference, hidden at first.
fn diff_row_html_text(id: i64, diff: &str) -> (r: String)
    ensures
        r@ == diff_row_html(id, diff@),
{
    let id_n = i64_text(id);
    let mut out: String = "<tr class=\"audit-diff-row\" id=\"audit-diff-".to_owned();
    out.push_str(id_n.as_str());
    out.push_str("\" hidden><td colspan=\"5\" class=\"audit-diff-cell\">");
    out.push_str(diff);
    out.push_str("</td></tr>");
    out
}

/// The row with the difference of an entry; nothing where there is none.
pub open spec fn diff_row(id: i64, diff: Option<Seq<char>>) -> Seq<char> {
    match diff {
        Some(d) => diff_row_html(id, d),
        None => Seq::empty(),
    }
}

fn diff_row_text(id: i64, diff: &Option<String>) -> (r: String)
    ensures
        r@ == diff_row(id, opt_view(*diff)),
{
    match diff {
        Some(d) => diff_row_html_text(id, d.as_str()),
        None => {
            let e: String = String::new();
            assert(e@ =~= Seq::<char>::empty());
            e
        },
    }
}

/// An entry as shown at `now`, with its difference below it.
pub open spec fn entry(r: AuditRow, known: Known, now: i64) -> Seq<char> {
    entry_html(
        relative(now, r.at),
        actor_cell(r),
        action_label(r.action@),
        target_label(
            opt_view(r.target_kind),
            opt_view(r.target_id),
            known.users@,
            known.snippets@,
        ),
        toggle(row_diff(r) is Some, r.id),
        details_label(r.action@, opt_view(r.details)),
    ) + diff_row(r.id, row_diff(r))
}

fn entry_text(r: &AuditRow, known: &Known, now: i64) -> (e: String)
    ensures
        e@ == entry(*r, *known, now),
{
    let when = format_relative_at(now, r.at);
    let actor = actor_cell_text(r);
    let action = humanize_audit_action(r.action.as_str());
    let target = humanize_audit_target(
        &r.target_kind,
        &r.target_id,
        &known.users,
        &known.snippets,
    );
    let diff = row_diff_of(r);
    let button = toggle_text(diff.is_some(), r.id);
    let raw: Option<&str> = match &r.details {
        Some(s) => Some(s.as_str()),
        None => None,
    };
    let details = humanize_audit_details(r.action.as_str(), raw);
    let below = diff_row_text(r.id, &diff);
    let mut out = entry_html_text(
        when.as_str(),
        actor.as_str(),
        action.as_str(),
        target.as_str(),
        button.as_str(),
        details.as_str(),
    );
    out.push_str(below.as_str());
    out
}

/// The entries, in order.
pub open spec fn entries(l: Seq<AuditRow>, known: Known, now: i64) -> Seq<char>
    decreases l.len(),
{
    if l.len() == 0 {
        Seq::empty()
    } else {
        entries(l.drop_last(), known, now) + entry(l.last(), known, now)
    }
}

/// The entries, in order.
fn entries_text(l: &Vec<AuditRow>, known: &Known, now: i64) -> (r: String)
    ensures
        r@ == entries(l@, *known, now),
{
    let mut out: String = String::new();
    let n: usize = l.len();
    assert(l@.take(0) =~= Seq::<AuditRow>::empty());
    assert(out@ =~= Seq::<char>::empty());
    for i in 0..n
        invariant
            n == l@.len(),
            out@ == entries(l@.take(i as int), *known, now),
    {
        proof {
            let t = l@.take(i + 1);
            assert(t.drop_last() =~= l@.take(i as int));
            assert(t.last() == l@[i as int]);
        }
        let s = entry_text(&l[i], known, now);
        out.push_str(s.as_str());
    }
    assert(l@.take(n as int) =~= l@);
    out
}

/// What the buttons do.
pub const TOGGLE_SCRIPT: &'static str =
    "<script>function toggleAuditDiff(id) {var row = document.getElementById('audit-diff-' + \
        id);if (!row) return;var btn = document.querySelector('button[aria-controls=\"audit-diff-' \
        + id + '\"]');var open = row.hidden;row.hidden = !open;if (btn) \
        {btn.setAttribute('aria-expanded', open ? 'true' : 'false');btn.textContent = open ? '- \
        diff' : '+ diff';}}</script>";

/// The entries as a table.
pub open spec fn table(rows: Seq<AuditRow>, known: Known, now: i64) -> Seq<char> {
    "<table class=\"audit-table\"><thead><tr><th>When</th><th>Actor</th><th>Action</th>\
            <th>Target</th><th>Details</th></tr></thead><tbody>"@
        + entries(rows, known, now)
        + "</tbody></table>"@
        + TOGGLE_SCRIPT@
}

/// The entries as a table.
fn table_text(rows: &Vec<AuditRow>, known: &Known, now: i64) -> (r: String)
    ensures
        r@ == table(rows@, *known, now),
{
    let mut out: String = "<table class=\"audit-table\"><thead><tr><th>When</th><th>Actor</th><th>Action</th>\
                <th>Target</th><th>Details</th></tr></thead><tbody>".to_owned();
    let p1 = entries_text(rows, known, now);
    out.push_str(p1.as_str());
    out.push_str("</tbody></table>");
    out.push_str(TOGGLE_SCRIPT);
    out
}

/// What is said where there are no entries.
pub open spec fn nothing(narrowed: bool) -> Seq<char> {
    if narrowed {
        "<p class=\"muted\">No entries match these filters. <a href=\"/dashboard/audit\">Clear \
            filters</a>.</p>"@
    } else {
        "<p class=\"muted\">No audit entries yet.</p>"@
    }
}

/// What is said where there are no entries.
fn nothing_text(narrowed: bool) -> (r: String)
    ensures
        r@ == nothing(narrowed),
{
    if narrowed {
        "<p class=\"muted\">No entries match these filters. <a href=\"/dashboard/audit\">Clear \
            filters</a>.</p>".to_owned()
    } else {
        "<p class=\"muted\">No audit entries yet.</p>".to_owned()
    }
}

/// The entries, or that there are none.
pub open spec fn listing(v: AuditView, rows: Seq<AuditRow>, known: Known, now: i64) -> Seq<char> {
    if rows.len() == 0 {
        nothing(any_filter(v))
    } else {
        table(rows, known, now)
    }
}

/// The entries, or that there are none.
fn listing_text(v: &AuditView, rows: &Vec<AuditRow>, known: &Known, now: i64) -> (r: String)
    ensures
        r@ == listing(*v, rows@, *known, now),
{
    if rows.len() == 0 {
        nothing_text(has_filter(v))
    } else {
        table_text(rows, known, now)
    }
}

/// How many pages there are: at least one, and no more than can be asked for.
pub open spec fn page_count(total: int, per_page: int) -> int {
    if total <= 0 {
        1
    } else {
        let n = (total - 1) / per_page + 1;
        if n > AUDIT_MAX_PAGES + 1 {
            AUDIT_MAX_PAGES + 1
        } else {
            n
        }
    }
}

/// How many pages there are.
pub fn total_pages(total: i64, per_page: i64) -> (r: i64)
    requires
        offered_size(per_page),
    ensures
        r == page_count(total as int, per_page as int),
        1 <= r <= AUDIT_MAX_PAGES + 1,
{
    if total <= 0 {
        return 1;
    }
    let n: i64 = (total - 1) / per_page;
    assert(0 <= n <= total - 1) by (nonlinear_arith)
        requires
            n == (total - 1) / per_page as int,
            total >= 1,
            per_page >= 1,
    ;
    if n > AUDIT_MAX_PAGES {
        AUDIT_MAX_PAGES + 1
    } else {
        n + 1
    }
}

/// Whether a page leads on to an older one.
pub open spec fn has_older(page: int, total: int, per_page: int) -> bool {
    page + 1 < page_count(total, per_page) && page < AUDIT_MAX_PAGES
}

/// The link to the page before.
pub open spec fn newer_link(page: i64, per_page: i64, query: Seq<char>) -> Seq<char> {
    "<a href=\"/dashboard/audit?page="@
        + decimal_int(page as int)
        + "&per_page="@
        + decimal_int(per_page as int)
        + query
        + "\">&larr; Newer</a>"@
}

/// The link to the page before.
fn newer_link_text(page: i64, per_page: i64, query: &str) -> (r: String)
    ensures
        r@ == newer_link(page, per_page, query@),
{
    let page_n = i64_text(page);
    let per_page_n = i64_text(per_page);
    let mut out: String = "<a href=\"/dashboard/audit?page=".to_owned();
    out.push_str(page_n.as_str());
    out.push_str("&per_page=");
    out.push_str(per_page_n.as_str());
    out.push_str(query);
    out.push_str("\">&larr; Newer</a>");
    out
}

/// The link to the page after.
pub open spec fn older_link(page: i64, per_page: i64, query: Seq<char>) -> Seq<char> {
    "<a href=\"/dashboard/audit?page="@
        + decimal_int(page as int)
        + "&per_page="@
        + decimal_int(per_page as int)
        + query
        + "\">Older &rarr;</a>"@
}

/// The link to the page after.
fn older_link_text(page: i64, per_page: i64, query: &str) -> (r: String)
    ensures
        r@ == older_link(page, per_page, query@),
{
    let page_n = i64_text(page);
    let per_page_n = i64_text(per_page);
    let mut out: String = "<a href=\"/dashboard/audit?page=".to_owned();
    out.push_str(page_n.as_str());
    out.push_str("&per_page=");
    out.push_str(per_page_n.as_str());
    out.push_str(query);
    out.push_str("\">Older &rarr;</a>");
    out
}

/// Where in the log the page is.
pub open spec fn place_html(page: i64, pages: i64, total: i64, noun: Seq<char>) -> Seq<char> {
    " <span class=\"muted small\">page "@
        + decimal_int(page as int)
        + " of "@
        + decimal_int(pages as int)
        + " ("@
        + decimal_int(total as int)
        + " "@
        + noun
        + ")</span> "@
}

/// Where in the log the page is.
fn place_html_text(page: i64, pages: i64, total: i64, noun: &str) -> (r: String)
    ensures
        r@ == place_html(page, pages, total, noun@),
{
    let page_n = i64_text(page);
    let pages_n = i64_text(pages);
    let total_n = i64_text(total);
    let mut out: String = " <span class=\"muted small\">page ".to_owned();
    out.push_str(page_n.as_str());
    out.push_str(" of ");
    out.push_str(pages_n.as_str());
    out.push_str(" (");
    out.push_str(total_n.as_str());
    out.push_str(" ");
    out.push_str(noun);
    out.push_str(")</span> ");
    out
}

/// The way from a page to the next and the one before.
pub open spec fn pager(v: AuditView, total: i64) -> Seq<char> {
    let pages = page_count(total as int, v.per_page as int);
    "<div class=\"audit-pager\">"@ + (if v.page > 0 {
        newer_link((v.page - 1) as i64, v.per_page, view_query(v))
    } else {
        "<span class=\"muted\">&larr; Newer</span>"@
    }) + place_html(
        (v.page + 1) as i64,
        pages as i64,
        total,
        if total == 1 {
            "entry"@
        } else {
            "entries"@
        },
    ) + (if has_older(v.page as int, total as int, v.per_page as int) {
        older_link((v.page + 1) as i64, v.per_page, view_query(v))
    } else {
        "<span class=\"muted\">Older &rarr;</span>"@
    }) + "</div>"@
}

fn pager_text(v: &AuditView, total: i64) -> (r: String)
    requires
        v.wf(),
    ensures
        r@ == pager(*v, total),
{
    let pages: i64 = total_pages(total, v.per_page);
    let query = audit_filter_query(&v.q, &v.verb, &v.actor, v.since);
    let before = if v.page > 0 {
        newer_link_text(v.page - 1, v.per_page, query.as_str())
    } else {
        "<span class=\"muted\">&larr; Newer</span>".to_owned()
    };
    let noun = if total == 1 {
        "entry"
    } else {
        "entries"
    };
    let place = place_html_text(v.page + 1, pages, total, noun);
    let after = if v.page + 1 < pages && v.page < AUDIT_MAX_PAGES {
        older_link_text(v.page + 1, v.per_page, query.as_str())
    } else {
        "<span class=\"muted\">Older &rarr;</span>".to_owned()
    };
    let mut out: String = "<div class=\"audit-pager\">".to_owned();
    out.push_str(before.as_str());
    out.push_str(place.as_str());
    out.push_str(after.as_str());
    out.push_str("</div>");
    out
}

/// What the page is.
pub const INTRO: &'static str =
    "<h1>Audit log</h1><p class=\"muted\">Every admin mutation (user + library writes) is \
        recorded here. Append-only; entries don't expire. Sorted newest first.</p>";

/// The page, as shown at `now`.
pub open spec fn page_html(
    v: AuditView,
    total: i64,
    rows: Seq<AuditRow>,
    actors: Seq<Actor>,
    known: Known,
    now: i64,
) -> Seq<char> {
    INTRO@ + filter_bar(v, actors) + listing(v, rows, known, now) + pager(v, total)
}

/// The page, as shown at `now`: the rows of the view out of `total`, who acted, and
/// what is known of the targets.
pub fn audit_page(
    v: &AuditView,
    total: i64,
    rows: &Vec<AuditRow>,
    actors: &Vec<Actor>,
    known: &Known,
    now: i64,
) -> (r: String)
    requires
        v.wf(),
    ensures
        r@ == page_html(*v, total, rows@, actors@, *known, now),
{
    let bar = filter_bar_text(v, actors);
    let list = listing_text(v, rows, known, now);
    let pages = pager_text(v, total);
    let mut out: String = INTRO.to_owned();
    out.push_str(bar.as_str());
    out.push_str(list.as_str());
    out.push_str(pages.as_str());
    out
}

/// Every entry that the pages can reach is on one of them: the page is counted, the
/// entry lies between where the page begins and where it ends, and from the first
/// page on each page before it leads to an older one.
pub proof fn law_every_entry_is_on_a_page(total: i64, per_page: i64, i: int)
    requires
        offered_size(per_page),
        0 <= i < total,
        i < (AUDIT_MAX_PAGES + 1) * per_page,
    ensures
        i / per_page as int <= AUDIT_MAX_PAGES,
        i / (per_page as int) < page_count(total as int, per_page as int),
        (i / per_page as int) * per_page <= i < (i / per_page as int) * per_page + per_page,
        forall|k: int|
            0 <= k < i / per_page as int ==> #[trigger] has_older(
                k,
                total as int,
                per_page as int,
            ),
{
    let n = per_page as int;
    let p = i / n;
    let last = (total - 1) / n;
    assert(p * n <= i < p * n + n && 0 <= p) by (nonlinear_arith)
        requires
            p == i / n,
            n > 0,
            i >= 0,
    ;
    assert(p <= 200) by (nonlinear_arith)
        requires
            p * n <= i,
            i < 201 * n,
            n > 0,
    ;
    assert(p <= last) by (nonlinear_arith)
        requires
            p == i / n,
            last == (total - 1) / n,
            i <= total - 1,
            n > 0,
    ;
}

/// No page but the first is empty, and there is always a first.
pub proof fn law_no_later_page_is_empty(total: i64, per_page: i64)
    requires
        offered_size(per_page),
    ensures
        page_count(total as int, per_page as int) >= 1,
        total > 0 ==> (page_count(total as int, per_page as int) - 1) * per_page < total,
        total <= per_page ==> page_count(total as int, per_page as int) == 1,
{
    if total > 0 {
        let t = total - 1;
        let n = t / per_page as int;
        assert(n * per_page <= t && n >= 0) by (nonlinear_arith)
            requires
                per_page > 0,
                t >= 0,
                n == t / per_page as int,
        ;
        let p = page_count(total as int, per_page as int) - 1;
        assert(p <= n);
        assert(p * per_page <= n * per_page) by (nonlinear_arith)
            requires
                p <= n,
                per_page > 0,
        ;
        if total <= per_page {
            assert(t / per_page as int == 0) by (nonlinear_arith)
                requires
                    0 <= t < per_page,
            ;
        }
    }
}

/// What a request may ask for is taken, and nothing else: twenty-five, fifty, a hundred or two
/// hundred entries, pages up to the two hundred and first, the last day, week or month, and
/// the verbs of the log.
pub proof fn law_views_take_what_is_offered(n: i64, s: Seq<char>)
    ensures
        page_size(Some(n)) == (if n == 50 || n == 100 || n == 200 {
            n
        } else {
            25
        }),
        page_size(None) == 25,
        0 <= n <= 200 ==> page_number(Some(n)) == n,
        n < 0 ==> page_number(Some(n)) == 0,
        n > 200 ==> page_number(Some(n)) == 200,
        page_number(None) == 0,
        n == 1 || n == 7 || n == 30 ==> chosen_window(Some(n)) == Some(n),
        n != 1 && n != 7 && n != 30 ==> chosen_window(Some(n)) is None,
        trimmed(s) == "create"@ || trimmed(s) == "update"@ || trimmed(s) == "delete"@ || trimmed(s)
            == "move"@ || trimmed(s) == "signin"@ ==> chosen_verb(Some(s)) == Some(trimmed(s)),
        trimmed(s) != "create"@ && trimmed(s) != "update"@ && trimmed(s) != "delete"@ && trimmed(s)
            != "move"@ && trimmed(s) != "signin"@ ==> chosen_verb(Some(s)) is None,
{
}

/// The targets of one kind that the entries name are looked up, each once.
pub proof fn law_targets_are_looked_up_once(rows: Seq<AuditRow>, kind: Seq<char>, id: Seq<char>)
    ensures
        targets(rows, kind).no_duplicates(),
        targets(rows, kind).contains(id) <==> id.len() > 0 && exists|i: int|
            0 <= i < rows.len() && opt_view((#[trigger] rows[i]).target_kind) == Some(kind)
                && opt_view(rows[i].target_id) == Some(id),
    decreases rows.len(),
{
    if rows.len() > 0 {
        let t = rows.drop_last();
        law_targets_are_looked_up_once(t, kind, id);
        let before = targets(t, kind);
        let all = targets(rows, kind);
        let r = rows[rows.len() - 1];
        if let (Some(k), Some(x)) = (r.target_kind, r.target_id) {
            if k@ == kind && x@.len() > 0 && !before.contains(x@) {
                assert(all[all.len() - 1] == x@);
            }
            law_targets_are_looked_up_once(t, kind, x@);
        }
        if all.contains(id) {
            if before.contains(id) {
                let i = choose|i: int|
                    0 <= i < t.len() && opt_view((#[trigger] t[i]).target_kind) == Some(kind)
                        && opt_view(t[i].target_id) == Some(id);
                assert(rows[i] == t[i]);
            } else {
                let i = choose|i: int| 0 <= i < all.len() && all[i] == id;
                if i < before.len() {
                    assert(before[i] == id);
                }
                assert(opt_view(r.target_id) == Some(id));
            }
        }
        if id.len() > 0 && exists|i: int|
            0 <= i < rows.len() && opt_view((#[trigger] rows[i]).target_kind) == Some(kind)
                && opt_view(rows[i].target_id) == Some(id) {
            let i = choose|i: int|
                0 <= i < rows.len() && opt_view((#[trigger] rows[i]).target_kind) == Some(kind)
                    && opt_view(rows[i].target_id) == Some(id);
            if i < t.len() {
                assert(t[i] == rows[i]);
            }
            if before.contains(id) {
                let j = choose|j: int| 0 <= j < before.len() && before[j] == id;
                assert(all[j] == id);
            }
        }
    }
}

/// A query for rows by their ids has a placeholder for each.
pub proof fn law_each_id_has_a_placeholder(select: Seq<char>, n: nat)
    requires
        n > 0,
    ensures
        query_of_ids(select, 1) == select + " WHERE id IN ("@ + "?"@ + ")"@,
        query_of_ids(select, n).len() + 2 == query_of_ids(select, n + 1).len(),
        exists|inner: Seq<char>|
            query_of_ids(select, n) == #[trigger] (select + " WHERE id IN ("@ + inner + ")"@)
                && query_of_ids(select, n + 1) == select + " WHERE id IN ("@ + (inner + ","@
                + "?"@) + ")"@,
{
    reveal_strlit(",");
    reveal_strlit("?");
    let inner = joined(marks(n), ","@);
    assert(marks(n + 1).drop_last() =~= marks(n));
    assert(marks(n + 1).last() == "?"@);
    assert(joined(marks(n + 1), ","@) == inner + ","@ + "?"@);
    assert(marks(1).len() == 1 && marks(1).last() == "?"@);
    assert(joined(marks(1), ","@) =~= "?"@);
    assert(query_of_ids(select, n) == select + " WHERE id IN ("@ + inner + ")"@);
}

} // verus!
