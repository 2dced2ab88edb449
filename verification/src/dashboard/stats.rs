//! The statistics page.
use crate::dashboard::ages::format_relative_at;
use crate::decimal::{format_thousands, i64_text, thousands_text};
use crate::html::escape_html;
use crate::text::copy_text;
use vstd::prelude::*;

verus! {

use crate::dashboard::ages::relative;
use crate::decimal::{decimal_int, thousands};
use crate::html::escaped;
use crate::text::opt_view;

/// The seconds within which a user counts as active.
pub const ACTIVE_WINDOW: i64 = 2_592_000;

/// The seconds within which a library snippet counts as new this week.
pub const WEEK: i64 = 604_800;

/// The counts that the page shows.
#[derive(Debug, Clone, Copy)]
pub struct StatsCounts {
    pub total_users: i64,
    pub active_users: i64,
    pub admin_users: i64,
    pub disabled_users: i64,
    pub total_snippets: i64,
    pub tombstoned_snippets: i64,
    pub library_snippets: i64,
}

#[derive(Debug)]
pub struct RecentSignup {
    pub display_name: String,
    pub email: String,
    pub role: String,
    pub created_at: i64,
}

#[derive(Debug)]
pub struct RecentLibrary {
    pub title: String,
    pub folder_path: Option<String>,
    pub updated_at: i64,
}

/// A name with a count.
#[derive(Debug)]
pub struct Ranked {
    pub name: String,
    pub count: i64,
}

/// What the page shows. The amounts of time and money come written out.
#[derive(Debug)]
pub struct Stats {
    pub counts: StatsCounts,
    pub library_new_7d: i64,
    pub library_new_30d: i64,
    /// The share of users who have pasted, in percent.
    pub adoption_pct: i64,
    pub snippets_pasted: i64,
    /// The characters that each user has pasted.
    pub chars_pasted: Vec<i64>,
    pub hours_saved: String,
    /// The money saved in Australian dollars, in full and in whole dollars.
    pub money_aud: String,
    pub money_whole: i64,
    /// The currency that wages are taken to be in.
    pub currency: String,
    /// The currencies to choose from, and their rates as JSON.
    pub codes: Vec<String>,
    pub rates_json: String,
    pub top_users: Vec<Ranked>,
    pub top_library: Vec<Ranked>,
    pub recent_users: Vec<RecentSignup>,
    pub recent_library: Vec<RecentLibrary>,
}

/// The sum of the positive numbers.
pub open spec fn positive_sum(l: Seq<i64>) -> int
    decreases l.len(),
{
    if l.len() == 0 {
        0
    } else if l.last() > 0 {
        positive_sum(l.drop_last()) + l.last()
    } else {
        positive_sum(l.drop_last())
    }
}

/// The characters that all users have pasted. A user without any counts for
/// nothing.
pub fn total_chars(l: &Vec<i64>) -> (r: i128)
    ensures
        r == positive_sum(l@),
        r >= 0,
{
    let n: usize = l.len();
    let mut sum: i128 = 0;
    assert(l@.take(0) =~= Seq::<i64>::empty());
    for i in 0..n
        invariant
            n == l@.len(),
            n <= usize::MAX,
            sum == positive_sum(l@.take(i as int)),
            0 <= sum <= i * 0x7fff_ffff_ffff_ffff,
    {
        proof {
            let t = l@.take(i + 1);
            assert(t.drop_last() =~= l@.take(i as int));
            assert(t.last() == l@[i as int]);
            assert(i * 0x7fff_ffff_ffff_ffff <= 0xffff_ffff_ffff_ffff * 0x7fff_ffff_ffff_ffff)
                by (nonlinear_arith)
                requires
                    0 <= i <= 0xffff_ffff_ffff_ffff,
            ;
            assert((i + 1) * 0x7fff_ffff_ffff_ffff == i * 0x7fff_ffff_ffff_ffff
                + 0x7fff_ffff_ffff_ffff) by (nonlinear_arith);
        }
        if l[i] > 0 {
            sum = sum + l[i] as i128;
        }
    }
    assert(l@.take(n as int) =~= l@);
    sum
}

/// A card with a number.
pub open spec fn card(
    id: Seq<char>,
    label: Seq<char>,
    value: Seq<char>,
    hint: Seq<char>,
) -> Seq<char> {
    "<div class=\"stat-card\" data-card-id=\""@
        + escaped(id)
        + "\"><button type=\"button\" class=\"stat-close\" aria-label=\"Hide card\">&times;\
            </button><div class=\"stat-value\">"@
        + escaped(value)
        + "</div><div class=\"stat-label\">"@
        + escaped(label)
        + "</div><div class=\"stat-hint\">"@
        + escaped(hint)
        + "</div></div>"@
}

/// A card with a number.
pub fn stat_card(id: &str, label: &str, value: &str, hint: &str) -> (r: String)
    ensures
        r@ == card(id@, label@, value@, hint@),
{
    let id_e = escape_html(id);
    let value_e = escape_html(value);
    let label_e = escape_html(label);
    let hint_e = escape_html(hint);
    let mut out: String = "<div class=\"stat-card\" data-card-id=\"".to_owned();
    out.push_str(id_e.as_str());
    out.push_str("\"><button type=\"button\" class=\"stat-close\" aria-label=\"Hide card\">&times;\
                </button><div class=\"stat-value\">");
    out.push_str(value_e.as_str());
    out.push_str("</div><div class=\"stat-label\">");
    out.push_str(label_e.as_str());
    out.push_str("</div><div class=\"stat-hint\">");
    out.push_str(hint_e.as_str());
    out.push_str("</div></div>");
    out
}

/// The card with the money saved.
pub open spec fn money_card(aud: Seq<char>, whole: i64, currency: Seq<char>) -> Seq<char> {
    "<div class=\"stat-card stat-card-money\" data-card-id=\"money\" data-aud=\""@
        + aud
        + "\"><button type=\"button\" class=\"stat-close\" aria-label=\"Hide card\">&times;\
            </button><div class=\"stat-value\" id=\"stat-money-value\">A$"@
        + thousands(whole as int)
        + "</div><div class=\"stat-label\">Money saved</div><div class=\"stat-hint\">each user's \
            wage applied to their own pastes, displayed in <span id=\"stat-money-curr\">AUD</span> \
            (default "@
        + escaped(currency)
        + ")</div></div>"@
}

/// The card with the money saved.
fn money_card_text(aud: &str, whole: i64, currency: &str) -> (r: String)
    ensures
        r@ == money_card(aud@, whole, currency@),
{
    let whole_n = format_thousands(whole);
    let currency_e = escape_html(currency);
    let mut out: String = "<div class=\"stat-card stat-card-money\" data-card-id=\"money\" data-aud=\"".to_owned();
    out.push_str(aud);
    out.push_str("\"><button type=\"button\" class=\"stat-close\" aria-label=\"Hide card\">&times;\
                </button><div class=\"stat-value\" id=\"stat-money-value\">A$");
    out.push_str(whole_n.as_str());
    out.push_str("</div><div class=\"stat-label\">Money saved</div><div class=\"stat-hint\">each \
                user's wage applied to their own pastes, displayed in <span \
                id=\"stat-money-curr\">AUD</span> (default ");
    out.push_str(currency_e.as_str());
    out.push_str(")</div></div>");
    out
}

/// A currency to choose.
pub open spec fn currency_option(code: Seq<char>) -> Seq<char> {
    "<option value=\""@
        + escaped(code)
        + "\">"@
        + escaped(code)
        + "</option>"@
}

/// A currency to choose.
fn option_text(code: &str) -> (r: String)
    ensures
        r@ == currency_option(code@),
{
    let code_e = escape_html(code);
    let mut out: String = "<option value=\"".to_owned();
    out.push_str(code_e.as_str());
    out.push_str("\">");
    out.push_str(code_e.as_str());
    out.push_str("</option>");
    out
}

/// A currency to choose.
pub open spec fn code_option(c: String) -> Seq<char> {
    currency_option(c@)
}

fn code_option_text(c: &String) -> (r: String)
    ensures
        r@ == code_option(*c),
{
    option_text(c.as_str())
}

/// The currencies to choose from.
pub open spec fn code_options(l: Seq<String>) -> Seq<char>
    decreases l.len(),
{
    if l.len() == 0 {
        Seq::empty()
    } else {
        code_options(l.drop_last()) + code_option(l.last())
    }
}

/// The currencies to choose from.
fn code_options_text(l: &Vec<String>) -> (r: String)
    ensures
        r@ == code_options(l@),
{
    let mut out: String = String::new();
    let n: usize = l.len();
    assert(l@.take(0) =~= Seq::<String>::empty());
    assert(out@ =~= Seq::<char>::empty());
    for i in 0..n
        invariant
            n == l@.len(),
            out@ == code_options(l@.take(i as int)),
    {
        proof {
            let t = l@.take(i + 1);
            assert(t.drop_last() =~= l@.take(i as int));
            assert(t.last() == l@[i as int]);
        }
        let s = code_option_text(&l[i]);
        out.push_str(s.as_str());
    }
    assert(l@.take(n as int) =~= l@);
    out
}

/// A user by characters pasted.
pub open spec fn top_user_item(u: Ranked) -> Seq<char> {
    "<li><strong>"@
        + escaped(u.name@)
        + "</strong><br /><span class=\"muted small\">"@
        + thousands(u.count as int)
        + " chars pasted</span></li>"@
}

/// A user by characters pasted.
fn top_user_text(u: &Ranked) -> (r: String)
    ensures
        r@ == top_user_item(*u),
{
    let u_name_e = escape_html(u.name.as_str());
    let u_count_n = format_thousands(u.count);
    let mut out: String = "<li><strong>".to_owned();
    out.push_str(u_name_e.as_str());
    out.push_str("</strong><br /><span class=\"muted small\">");
    out.push_str(u_count_n.as_str());
    out.push_str(" chars pasted</span></li>");
    out
}

/// Users by characters pasted.
pub open spec fn top_user_items(l: Seq<Ranked>) -> Seq<char>
    decreases l.len(),
{
    if l.len() == 0 {
        Seq::empty()
    } else {
        top_user_items(l.drop_last()) + top_user_item(l.last())
    }
}

/// Users by characters pasted.
fn top_user_items_text(l: &Vec<Ranked>) -> (r: String)
    ensures
        r@ == top_user_items(l@),
{
    let mut out: String = String::new();
    let n: usize = l.len();
    assert(l@.take(0) =~= Seq::<Ranked>::empty());
    assert(out@ =~= Seq::<char>::empty());
    for i in 0..n
        invariant
            n == l@.len(),
            out@ == top_user_items(l@.take(i as int)),
    {
        proof {
            let t = l@.take(i + 1);
            assert(t.drop_last() =~= l@.take(i as int));
            assert(t.last() == l@[i as int]);
        }
        let s = top_user_text(&l[i]);
        out.push_str(s.as_str());
    }
    assert(l@.take(n as int) =~= l@);
    out
}

/// A library snippet by use.
pub open spec fn top_snippet_item(u: Ranked) -> Seq<char> {
    "<li><strong>"@
        + escaped(u.name@)
        + "</strong><br /><span class=\"muted small\">used "@
        + thousands(u.count as int)
        + " times across team</span></li>"@
}

/// A library snippet by use.
fn top_snippet_text(u: &Ranked) -> (r: String)
    ensures
        r@ == top_snippet_item(*u),
{
    let u_name_e = escape_html(u.name.as_str());
    let u_count_n = format_thousands(u.count);
    let mut out: String = "<li><strong>".to_owned();
    out.push_str(u_name_e.as_str());
    out.push_str("</strong><br /><span class=\"muted small\">used ");
    out.push_str(u_count_n.as_str());
    out.push_str(" times across team</span></li>");
    out
}

/// Library snippets by use.
pub open spec fn top_snippet_items(l: Seq<Ranked>) -> Seq<char>
    decreases l.len(),
{
    if l.len() == 0 {
        Seq::empty()
    } else {
        top_snippet_items(l.drop_last()) + top_snippet_item(l.last())
    }
}

/// Library snippets by use.
fn top_snippet_items_text(l: &Vec<Ranked>) -> (r: String)
    ensures
        r@ == top_snippet_items(l@),
{
    let mut out: String = String::new();
    let n: usize = l.len();
    assert(l@.take(0) =~= Seq::<Ranked>::empty());
    assert(out@ =~= Seq::<char>::empty());
    for i in 0..n
        invariant
            n == l@.len(),
            out@ == top_snippet_items(l@.take(i as int)),
    {
        proof {
            let t = l@.take(i + 1);
            assert(t.drop_last() =~= l@.take(i as int));
            assert(t.last() == l@[i as int]);
        }
        let s = top_snippet_text(&l[i]);
        out.push_str(s.as_str());
    }
    assert(l@.take(n as int) =~= l@);
    out
}

/// A new user.
pub open spec fn signup_html(u: RecentSignup, when: Seq<char>) -> Seq<char> {
    "<li><strong>"@
        + escaped(u.display_name@)
        + "</strong> <span class=\"pill role-"@
        + escaped(u.role@)
        + "\">"@
        + escaped(u.role@)
        + "</span> <span class=\"muted small\">"@
        + when
        + "</span><br /><span class=\"muted small\">"@
        + escaped(u.email@)
        + "</span></li>"@
}

/// A new user.
fn signup_text(u: &RecentSignup, when: &str) -> (r: String)
    ensures
        r@ == signup_html(*u, when@),
{
    let u_display_name_e = escape_html(u.display_name.as_str());
    let u_role_e = escape_html(u.role.as_str());
    let u_email_e = escape_html(u.email.as_str());
    let mut out: String = "<li><strong>".to_owned();
    out.push_str(u_display_name_e.as_str());
    out.push_str("</strong> <span class=\"pill role-");
    out.push_str(u_role_e.as_str());
    out.push_str("\">");
    out.push_str(u_role_e.as_str());
    out.push_str("</span> <span class=\"muted small\">");
    out.push_str(when);
    out.push_str("</span><br /><span class=\"muted small\">");
    out.push_str(u_email_e.as_str());
    out.push_str("</span></li>");
    out
}

/// A new user, as shown at `now`.
pub open spec fn signup_item(u: RecentSignup, now: i64) -> Seq<char> {
    signup_html(u, relative(now, u.created_at))
}

fn signup_item_text(u: &RecentSignup, now: i64) -> (r: String)
    ensures
        r@ == signup_item(*u, now),
{
    let when = format_relative_at(now, u.created_at);
    signup_text(u, when.as_str())
}

/// New users, as shown at `now`.
pub open spec fn signup_items(l: Seq<RecentSignup>, now: i64) -> Seq<char>
    decreases l.len(),
{
    if l.len() == 0 {
        Seq::empty()
    } else {
        signup_items(l.drop_last(), now) + signup_item(l.last(), now)
    }
}

/// New users, as shown at `now`.
fn signup_items_text(l: &Vec<RecentSignup>, now: i64) -> (r: String)
    ensures
        r@ == signup_items(l@, now),
{
    let mut out: String = String::new();
    let n: usize = l.len();
    assert(l@.take(0) =~= Seq::<RecentSignup>::empty());
    assert(out@ =~= Seq::<char>::empty());
    for i in 0..n
        invariant
            n == l@.len(),
            out@ == signup_items(l@.take(i as int), now),
    {
        proof {
            let t = l@.take(i + 1);
            assert(t.drop_last() =~= l@.take(i as int));
            assert(t.last() == l@[i as int]);
        }
        let s = signup_item_text(&l[i], now);
        out.push_str(s.as_str());
    }
    assert(l@.take(n as int) =~= l@);
    out
}

/// A folder, after a title.
pub open spec fn in_folder(path: Seq<char>) -> Seq<char> {
    " <span class=\"muted small\">in "@
        + escaped(path)
        + "</span>"@
}

/// A folder, after a title.
fn in_folder_text(path: &str) -> (r: String)
    ensures
        r@ == in_folder(path@),
{
    let path_e = escape_html(path);
    let mut out: String = " <span class=\"muted small\">in ".to_owned();
    out.push_str(path_e.as_str());
    out.push_str("</span>");
    out
}

/// The folder of a snippet, after its title; empty where there is none.
pub open spec fn folder_note(p: Option<Seq<char>>) -> Seq<char> {
    match p {
        Some(f) => if f.len() == 0 {
            Seq::empty()
        } else {
            in_folder(f)
        },
        None => Seq::empty(),
    }
}

fn folder_note_text(p: &Option<String>) -> (r: String)
    ensures
        r@ == folder_note(opt_view(*p)),
{
    if let Some(f) = p {
        if f.as_str().unicode_len() > 0 {
            return in_folder_text(f.as_str());
        }
    }
    let r: String = String::new();
    assert(r@ =~= Seq::<char>::empty());
    r
}

/// A library snippet that changed.
pub open spec fn recent_html(s: RecentLibrary, folder: Seq<char>, when: Seq<char>) -> Seq<char> {
    "<li><strong>"@
        + escaped(s.title@)
        + "</strong>"@
        + folder
        + "<br /><span class=\"muted small\">updated "@
        + when
        + "</span></li>"@
}

/// A library snippet that changed.
fn recent_text(s: &RecentLibrary, folder: &str, when: &str) -> (r: String)
    ensures
        r@ == recent_html(*s, folder@, when@),
{
    let s_title_e = escape_html(s.title.as_str());
    let mut out: String = "<li><strong>".to_owned();
    out.push_str(s_title_e.as_str());
    out.push_str("</strong>");
    out.push_str(folder);
    out.push_str("<br /><span class=\"muted small\">updated ");
    out.push_str(when);
    out.push_str("</span></li>");
    out
}

/// A library snippet that changed, as shown at `now`.
pub open spec fn recent_item(s: RecentLibrary, now: i64) -> Seq<char> {
    recent_html(s, folder_note(opt_view(s.folder_path)), relative(now, s.updated_at))
}

fn recent_item_text(s: &RecentLibrary, now: i64) -> (r: String)
    ensures
        r@ == recent_item(*s, now),
{
    let folder = folder_note_text(&s.folder_path);
    let when = format_relative_at(now, s.updated_at);
    recent_text(s, folder.as_str(), when.as_str())
}

/// Library snippets that changed, as shown at `now`.
pub open spec fn recent_items(l: Seq<RecentLibrary>, now: i64) -> Seq<char>
    decreases l.len(),
{
    if l.len() == 0 {
        Seq::empty()
    } else {
        recent_items(l.drop_last(), now) + recent_item(l.last(), now)
    }
}

/// Library snippets that changed, as shown at `now`.
fn recent_items_text(l: &Vec<RecentLibrary>, now: i64) -> (r: String)
    ensures
        r@ == recent_items(l@, now),
{
    let mut out: String = String::new();
    let n: usize = l.len();
    assert(l@.take(0) =~= Seq::<RecentLibrary>::empty());
    assert(out@ =~= Seq::<char>::empty());
    for i in 0..n
        invariant
            n == l@.len(),
            out@ == recent_items(l@.take(i as int), now),
    {
        proof {
            let t = l@.take(i + 1);
            assert(t.drop_last() =~= l@.take(i as int));
            assert(t.last() == l@[i as int]);
        }
        let s = recent_item_text(&l[i], now);
        out.push_str(s.as_str());
    }
    assert(l@.take(n as int) =~= l@);
    out
}

/// A list, or a remark where it is empty.
pub open spec fn list_or(items: Seq<char>, none: bool, remark: Seq<char>) -> Seq<char> {
    if none {
        remark
    } else {
        "<ul class=\"recent-list\">"@ + items + "</ul>"@
    }
}

fn list_or_text(items: &str, none: bool, remark: &str) -> (r: String)
    ensures
        r@ == list_or(items@, none, remark@),
{
    if none {
        return copy_text(remark);
    }
    let mut out: String = "<ul class=\"recent-list\">".to_owned();
    out.push_str(items);
    out.push_str("</ul>");
    out
}

/// That nobody has pasted yet.
pub const NO_USER_PASTES: &'static str =
    "<p class=\"muted\">No paste activity reported yet.</p>";

/// That no library snippet was pasted yet.
pub const NO_LIBRARY_PASTES: &'static str =
    "<p class=\"muted\">No library paste activity reported yet.</p>";

/// That there are no users.
pub const NO_SIGNUPS: &'static str =
    "<p class=\"muted\">No users yet.</p>";

/// That there are no library snippets.
pub const NO_LIBRARY: &'static str =
    "<p class=\"muted\">No library snippets yet. Add one from the <a \
        href=\"/dashboard/library\">library page</a>.</p>";

/// The lists of top users and snippets; nothing where both are empty.
pub open spec fn top_lists(s: Stats) -> Seq<char> {
    if s.top_users@.len() == 0 && s.top_library@.len() == 0 {
        Seq::empty()
    } else {
        "<div class=\"recent-grid\"><div><h2>Top users</h2>"@ + list_or(
            top_user_items(s.top_users@),
            s.top_users@.len() == 0,
            NO_USER_PASTES@,
        ) + "</div><div><h2>Top library snippets</h2>"@ + list_or(
            top_snippet_items(s.top_library@),
            s.top_library@.len() == 0,
            NO_LIBRARY_PASTES@,
        ) + "</div></div>"@
    }
}

fn top_lists_text(s: &Stats) -> (r: String)
    ensures
        r@ == top_lists(*s),
{
    if s.top_users.len() == 0 && s.top_library.len() == 0 {
        let r: String = String::new();
        assert(r@ =~= Seq::<char>::empty());
        return r;
    }
    let a = top_user_items_text(&s.top_users);
    let users = list_or_text(a.as_str(), s.top_users.len() == 0, NO_USER_PASTES);
    let b = top_snippet_items_text(&s.top_library);
    let library = list_or_text(b.as_str(), s.top_library.len() == 0, NO_LIBRARY_PASTES);
    let mut out: String = "<div class=\"recent-grid\"><div><h2>Top users</h2>".to_owned();
    out.push_str(users.as_str());
    out.push_str("</div><div><h2>Top library snippets</h2>");
    out.push_str(library.as_str());
    out.push_str("</div></div>");
    out
}

/// A card with a plain number.
pub open spec fn count_card(id: Seq<char>, label: Seq<char>, n: i64, hint: Seq<char>) -> Seq<char> {
    card(id, label, decimal_int(n as int), hint)
}

fn count_card_text(id: &str, label: &str, n: i64, hint: &str) -> (r: String)
    ensures
        r@ == count_card(id@, label@, n, hint@),
{
    let v = i64_text(n);
    stat_card(id, label, v.as_str(), hint)
}

/// The card with the adoption.
pub open spec fn adoption_card(pct: i64) -> Seq<char> {
    card(
        "adoption"@,
        "Adoption"@,
        decimal_int(pct as int) + "%"@,
        "users who've pasted at least once"@,
    )
}

fn adoption_card_text(pct: i64) -> (r: String)
    ensures
        r@ == adoption_card(pct),
{
    let mut v = i64_text(pct);
    v.push_str("%");
    stat_card("adoption", "Adoption", v.as_str(), "users who've pasted at least once")
}

/// The card with the pastes.
pub open spec fn pastes_card(n: i64) -> Seq<char> {
    card(
        "pastes"@,
        "Total pastes"@,
        thousands(n as int),
        "snippet expansions across the team"@,
    )
}

fn pastes_card_text(n: i64) -> (r: String)
    ensures
        r@ == pastes_card(n),
{
    let v = format_thousands(n);
    stat_card("pastes", "Total pastes", v.as_str(), "snippet expansions across the team")
}

/// The card with the characters.
pub open spec fn chars_card(l: Seq<i64>) -> Seq<char> {
    card(
        "chars"@,
        "Characters pasted"@,
        thousands(positive_sum(l)),
        "characters users didn't have to type"@,
    )
}

fn chars_card_text(l: &Vec<i64>) -> (r: String)
    ensures
        r@ == chars_card(l@),
{
    let v = thousands_text(total_chars(l));
    stat_card(
        "chars",
        "Characters pasted",
        v.as_str(),
        "characters users didn't have to type",
    )
}

/// The cards, in order.
pub open spec fn cards(s: Stats) -> Seq<char> {
    count_card("users"@, "Users"@, s.counts.total_users, "total accounts"@)
        + count_card(
            "active"@,
            "Active (30 days)"@,
            s.counts.active_users,
            "last_seen in the last 30 days"@,
        )
        + count_card("admins"@, "Admins"@, s.counts.admin_users, "users with the admin role"@)
        + count_card("disabled"@, "Disabled"@, s.counts.disabled_users, "blocked from signing in"@)
        + count_card(
            "personal"@,
            "Personal snippets"@,
            s.counts.total_snippets,
            "live rows, encrypted at rest"@,
        )
        + count_card(
            "tombstones"@,
            "Tombstones"@,
            s.counts.tombstoned_snippets,
            "deleted, awaiting purge"@,
        )
        + count_card(
            "library"@,
            "Library snippets"@,
            s.counts.library_snippets,
            "shared with every member"@,
        )
        + count_card(
            "library_new_7d"@,
            "Library added (7d)"@,
            s.library_new_7d,
            "new shared snippets in the last week"@,
        )
        + count_card(
            "library_new_30d"@,
            "Library added (30d)"@,
            s.library_new_30d,
            "new shared snippets in the last 30 days"@,
        )
        + adoption_card(s.adoption_pct)
        + pastes_card(s.snippets_pasted)
        + chars_card(s.chars_pasted@)
        + card(
            "hours"@,
            "Hours saved"@,
            s.hours_saved@,
            "computed from each user's wpm + paste totals"@,
        )
        + money_card(s.money_aud@, s.money_whole, s.currency@)
}

/// The cards, in order.
fn cards_text(s: &Stats) -> (r: String)
    ensures
        r@ == cards(*s),
{
    let p1 = count_card_text("users", "Users", s.counts.total_users, "total accounts");
    let mut out: String = copy_text(p1.as_str());
    let p2 = count_card_text(
        "active",
        "Active (30 days)",
        s.counts.active_users,
        "last_seen in the last 30 days",
    );
    out.push_str(p2.as_str());
    let p3 = count_card_text("admins", "Admins", s.counts.admin_users, "users with the admin role");
    out.push_str(p3.as_str());
    let p4 = count_card_text(
        "disabled",
        "Disabled",
        s.counts.disabled_users,
        "blocked from signing in",
    );
    out.push_str(p4.as_str());
    let p5 = count_card_text(
        "personal",
        "Personal snippets",
        s.counts.total_snippets,
        "live rows, encrypted at rest",
    );
    out.push_str(p5.as_str());
    let p6 = count_card_text(
        "tombstones",
        "Tombstones",
        s.counts.tombstoned_snippets,
        "deleted, awaiting purge",
    );
    out.push_str(p6.as_str());
    let p7 = count_card_text(
        "library",
        "Library snippets",
        s.counts.library_snippets,
        "shared with every member",
    );
    out.push_str(p7.as_str());
    let p8 = count_card_text(
        "library_new_7d",
        "Library added (7d)",
        s.library_new_7d,
        "new shared snippets in the last week",
    );
    out.push_str(p8.as_str());
    let p9 = count_card_text(
        "library_new_30d",
        "Library added (30d)",
        s.library_new_30d,
        "new shared snippets in the last 30 days",
    );
    out.push_str(p9.as_str());
    let p10 = adoption_card_text(s.adoption_pct);
    out.push_str(p10.as_str());
    let p11 = pastes_card_text(s.snippets_pasted);
    out.push_str(p11.as_str());
    let p12 = chars_card_text(&s.chars_pasted);
    out.push_str(p12.as_str());
    let p13 = stat_card(
        "hours",
        "Hours saved",
        s.hours_saved.as_str(),
        "computed from each user's wpm + paste totals",
    );
    out.push_str(p13.as_str());
    let p14 = money_card_text(s.money_aud.as_str(), s.money_whole, s.currency.as_str());
    out.push_str(p14.as_str());
    out
}

/// The head of the page.
pub const STATS_INTRO: &'static str =
    "<h1>Server stats</h1><p class=\"muted\">Activity snapshot. Click the &times; on any card \
        to hide it; use <strong>+ Add card</strong> to show ones you've hidden. Choices remember \
        per browser; <a href=\"#\" id=\"stats-reset\">Reset to defaults</a>.</p><div \
        class=\"stats-toolbar\"><details class=\"stats-add\" id=\"stats-add\"><summary>+ Add card\
        </summary><div class=\"stats-add-menu\" id=\"stats-add-menu\"></div></details><label \
        class=\"stats-currency\"><span>Display currency:</span><select \
        id=\"stats-currency-select\">";

/// The lists of new users and changed snippets.
pub open spec fn recent_lists(s: Stats, now: i64) -> Seq<char> {
    "<div class=\"recent-grid\"><div><h2>Recent signups</h2>"@
        + list_or(signup_items(s.recent_users@, now), s.recent_users@.len() == 0, NO_SIGNUPS@)
        + "</div><div><h2>Recent library snippets</h2>"@
        + list_or(recent_items(s.recent_library@, now), s.recent_library@.len() == 0, NO_LIBRARY@)
        + "</div></div>"@
}

/// The lists of new users and changed snippets.
fn recent_lists_text(s: &Stats, now: i64) -> (r: String)
    ensures
        r@ == recent_lists(*s, now),
{
    let a = signup_items_text(&s.recent_users, now);
    let b = recent_items_text(&s.recent_library, now);
    let mut out: String = "<div class=\"recent-grid\"><div><h2>Recent signups</h2>".to_owned();
    let p1 = list_or_text(a.as_str(), s.recent_users.len() == 0, NO_SIGNUPS);
    out.push_str(p1.as_str());
    out.push_str("</div><div><h2>Recent library snippets</h2>");
    let p2 = list_or_text(b.as_str(), s.recent_library.len() == 0, NO_LIBRARY);
    out.push_str(p2.as_str());
    out.push_str("</div></div>");
    out
}

/// The content of the statistics page, as shown at `now`, with the script that works its cards.
pub open spec fn stats_html(s: Stats, script: Seq<char>, now: i64) -> Seq<char> {
    STATS_INTRO@
        + code_options(s.codes@)
        + "</select></label></div><div class=\"stats-grid\" id=\"stats-grid\">"@
        + cards(s)
        + "</div>"@
        + top_lists(s)
        + recent_lists(s, now)
        + "<script id=\"stats-rates\" type=\"application/json\">"@
        + s.rates_json@
        + "</script>"@
        + script
}

/// The content of the statistics page, as shown at `now`, with the script that works its cards.
pub fn stats_page(s: &Stats, script: &str, now: i64) -> (r: String)
    ensures
        r@ == stats_html(*s, script@, now),
{
    let mut out: String = copy_text(STATS_INTRO);
    let p1 = code_options_text(&s.codes);
    out.push_str(p1.as_str());
    out.push_str("</select></label></div><div class=\"stats-grid\" id=\"stats-grid\">");
    let p2 = cards_text(s);
    out.push_str(p2.as_str());
    out.push_str("</div>");
    let p3 = top_lists_text(s);
    out.push_str(p3.as_str());
    let p4 = recent_lists_text(s, now);
    out.push_str(p4.as_str());
    out.push_str("<script id=\"stats-rates\" type=\"application/json\">");
    out.push_str(s.rates_json.as_str());
    out.push_str("</script>");
    out.push_str(script);
    out
}

/// The characters pasted are those of all users together, where a negative report counts for
/// nothing.
pub proof fn law_pasted_characters_add_up(a: Seq<i64>, b: Seq<i64>, x: i64)
    ensures
        positive_sum(a + b) == positive_sum(a) + positive_sum(b),
        x >= 0 ==> positive_sum(seq![x]) == x,
        x < 0 ==> positive_sum(seq![x]) == 0,
    decreases b.len(),
{
    assert(seq![x].drop_last() =~= Seq::<i64>::empty());
    assert(positive_sum(Seq::<i64>::empty()) == 0);
    if b.len() == 0 {
        assert(a + b =~= a);
    } else {
        law_pasted_characters_add_up(a, b.drop_last(), x);
        assert((a + b).drop_last() =~= a + b.drop_last());
    }
}

} // verus!
