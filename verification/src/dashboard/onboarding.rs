//! How far new users get.
use crate::dashboard::ages::format_relative_at;
use crate::decimal::{count_text, format_thousands, i64_text};
use crate::html::escape_html;
use vstd::prelude::*;

verus! {

use crate::dashboard::ages::relative;
use crate::decimal::{decimal, decimal_int, thousands};
use crate::html::escaped;

/// A milestone: how many users reached it, their share of all users in percent,
/// and how much fewer they are than at the milestone before, in percent.
#[derive(Debug, Clone, Copy)]
pub struct Stage {
    pub count: i64,
    pub pct: i64,
    pub drop_pct: i64,
}

/// A user who has not pasted yet.
#[derive(Debug)]
pub struct NudgeRow {
    pub name: String,
    pub created_at: i64,
    pub saved: bool,
    pub tried: bool,
}

/// What the page shows.
#[derive(Debug)]
pub struct Onboarding {
    pub signed_up: Stage,
    pub saved: Stage,
    pub tried: Stage,
    pub pasted: Stage,
    pub activation_pct: i64,
    /// The active users who have not pasted yet.
    pub awaiting: i64,
    pub new_this_week: i64,
    /// The newest of those who have not pasted yet.
    pub nudge: Vec<NudgeRow>,
}

/// A figure. The value is markup.
pub open spec fn card(value: Seq<char>, label: Seq<char>, hint: Seq<char>) -> Seq<char> {
    "<div class=\"stat-card\"><div class=\"stat-value\">"@
        + value
        + "</div><div class=\"stat-label\">"@
        + escaped(label)
        + "</div><div class=\"stat-hint\">"@
        + escaped(hint)
        + "</div></div>"@
}

/// A figure. The value is markup.
fn card_text(value: &str, label: &str, hint: &str) -> (r: String)
    ensures
        r@ == card(value@, label@, hint@),
{
    let label_e = escape_html(label);
    let hint_e = escape_html(hint);
    let mut out: String = "<div class=\"stat-card\"><div class=\"stat-value\">".to_owned();
    out.push_str(value);
    out.push_str("</div><div class=\"stat-label\">");
    out.push_str(label_e.as_str());
    out.push_str("</div><div class=\"stat-hint\">");
    out.push_str(hint_e.as_str());
    out.push_str("</div></div>");
    out
}

/// A figure with a count.
pub open spec fn count_card(n: i64, label: Seq<char>, hint: Seq<char>) -> Seq<char> {
    card(thousands(n as int), label, hint)
}

fn count_card_text(n: i64, label: &str, hint: &str) -> (r: String)
    ensures
        r@ == count_card(n, label@, hint@),
{
    let v = format_thousands(n);
    card_text(v.as_str(), label, hint)
}

/// The figure with the share of users who have pasted.
pub open spec fn rate_card(pct: i64) -> Seq<char> {
    card(decimal_int(pct as int) + "%"@, "Activation rate"@, "of all users"@)
}

fn rate_card_text(pct: i64) -> (r: String)
    ensures
        r@ == rate_card(pct),
{
    let mut v = i64_text(pct);
    v.push_str("%");
    card_text(v.as_str(), "Activation rate", "of all users")
}

/// The figures at the head of the page.
pub open spec fn cards(o: Onboarding) -> Seq<char> {
    "<div class=\"stats-grid\">"@
        + count_card(o.signed_up.count, "Users"@, "total accounts"@)
        + count_card(o.pasted.count, "Activated"@, "made at least one paste"@)
        + rate_card(o.activation_pct)
        + count_card(o.awaiting, "Awaiting activation"@, "members yet to paste"@)
        + count_card(o.new_this_week, "New this week"@, "signed up in the last 7 days"@)
        + "</div>"@
}

/// The figures at the head of the page.
fn cards_text(o: &Onboarding) -> (r: String)
    ensures
        r@ == cards(*o),
{
    let mut out: String = "<div class=\"stats-grid\">".to_owned();
    let p1 = count_card_text(o.signed_up.count, "Users", "total accounts");
    out.push_str(p1.as_str());
    let p2 = count_card_text(o.pasted.count, "Activated", "made at least one paste");
    out.push_str(p2.as_str());
    let p3 = rate_card_text(o.activation_pct);
    out.push_str(p3.as_str());
    let p4 = count_card_text(o.awaiting, "Awaiting activation", "members yet to paste");
    out.push_str(p4.as_str());
    let p5 = count_card_text(o.new_this_week, "New this week", "signed up in the last 7 days");
    out.push_str(p5.as_str());
    out.push_str("</div>");
    out
}

/// A share that fits a bar.
pub open spec fn bar_width(pct: i64) -> int {
    if pct < 0 {
        0
    } else if pct > 100 {
        100
    } else {
        pct as int
    }
}

fn width_of(pct: i64) -> (r: i64)
    ensures
        r == bar_width(pct),
{
    if pct < 0 {
        0
    } else if pct > 100 {
        100
    } else {
        pct
    }
}

/// How many were lost since the milestone before.
pub open spec fn drop_html(pct: i64) -> Seq<char> {
    "<span class=\"fdrop\">-"@
        + decimal_int(pct as int)
        + "%</span>"@
}

/// How many were lost since the milestone before.
fn drop_text(pct: i64) -> (r: String)
    ensures
        r@ == drop_html(pct),
{
    let pct_n = i64_text(pct);
    let mut out: String = "<span class=\"fdrop\">-".to_owned();
    out.push_str(pct_n.as_str());
    out.push_str("%</span>");
    out
}

/// How many were lost since the milestone before; nothing where none were, or
/// where there is no milestone before.
pub open spec fn drop_part(prev: Option<i64>, s: Stage) -> Seq<char> {
    match prev {
        Some(p) => if p > 0 && s.count < p {
            drop_html(s.drop_pct)
        } else {
            Seq::empty()
        },
        None => Seq::empty(),
    }
}

fn drop_or_none(prev: Option<i64>, s: Stage) -> (r: String)
    ensures
        r@ == drop_part(prev, s),
{
    if let Some(p) = prev {
        if p > 0 && s.count < p {
            return drop_text(s.drop_pct);
        }
    }
    let e: String = String::new();
    assert(e@ =~= Seq::<char>::empty());
    e
}

/// A milestone, from its parts.
pub open spec fn stage_html(label: Seq<char>, pct: i64, count: i64, lost: Seq<char>) -> Seq<char> {
    "<div class=\"frow\"><span class=\"flab\">"@
        + escaped(label)
        + "</span><div class=\"fbar-track\"><div class=\"fbar\" style=\"width:"@
        + decimal_int(pct as int)
        + "%\"></div></div><span class=\"fnum\">"@
        + thousands(count as int)
        + " "@
        + lost
        + "</span></div>"@
}

/// A milestone, from its parts.
fn stage_text(label: &str, pct: i64, count: i64, lost: &str) -> (r: String)
    ensures
        r@ == stage_html(label@, pct, count, lost@),
{
    let label_e = escape_html(label);
    let pct_n = i64_text(pct);
    let count_n = format_thousands(count);
    let mut out: String = "<div class=\"frow\"><span class=\"flab\">".to_owned();
    out.push_str(label_e.as_str());
    out.push_str("</span><div class=\"fbar-track\"><div class=\"fbar\" style=\"width:");
    out.push_str(pct_n.as_str());
    out.push_str("%\"></div></div><span class=\"fnum\">");
    out.push_str(count_n.as_str());
    out.push_str(" ");
    out.push_str(lost);
    out.push_str("</span></div>");
    out
}

/// A milestone of the funnel.
pub open spec fn stage_row(label: Seq<char>, prev: Option<i64>, s: Stage) -> Seq<char> {
    stage_html(label, bar_width(s.pct) as i64, s.count, drop_part(prev, s))
}

fn stage_row_text(label: &str, prev: Option<i64>, s: Stage) -> (r: String)
    ensures
        r@ == stage_row(label@, prev, s),
{
    let lost = drop_or_none(prev, s);
    stage_text(label, width_of(s.pct), s.count, lost.as_str())
}

/// The milestones, each against the one before.
pub open spec fn funnel(o: Onboarding) -> Seq<char> {
    "<h2 class=\"ob-h2\">Milestone funnel</h2><div class=\"funnel\">"@
        + stage_row("Signed up"@, None, o.signed_up)
        + stage_row("Saved a snippet"@, Some(o.signed_up.count), o.saved)
        + stage_row("Tried the shortcut"@, Some(o.saved.count), o.tried)
        + stage_row("Made a paste"@, Some(o.tried.count), o.pasted)
        + "</div>"@
}

/// The milestones, each against the one before.
fn funnel_text(o: &Onboarding) -> (r: String)
    ensures
        r@ == funnel(*o),
{
    let mut out: String = "<h2 class=\"ob-h2\">Milestone funnel</h2><div class=\"funnel\">".to_owned();
    let p1 = stage_row_text("Signed up", None, o.signed_up);
    out.push_str(p1.as_str());
    let p2 = stage_row_text("Saved a snippet", Some(o.signed_up.count), o.saved);
    out.push_str(p2.as_str());
    let p3 = stage_row_text("Tried the shortcut", Some(o.saved.count), o.tried);
    out.push_str(p3.as_str());
    let p4 = stage_row_text("Made a paste", Some(o.tried.count), o.pasted);
    out.push_str(p4.as_str());
    out.push_str("</div>");
    out
}

/// The last milestone of a user who has not pasted yet.
pub open spec fn stage_name(u: NudgeRow) -> Seq<char> {
    if u.tried {
        "Tried the shortcut"@
    } else if u.saved {
        "Saved a snippet"@
    } else {
        "Just signed up"@
    }
}

/// Whether a user who has not pasted yet has done anything.
pub open spec fn stage_class(u: NudgeRow) -> Seq<char> {
    if u.tried || u.saved {
        "warm"@
    } else {
        "cold"@
    }
}

/// A user who has not pasted yet, from the parts.
pub open spec fn nudge_html(
    name: Seq<char>,
    class: Seq<char>,
    stage: Seq<char>,
    joined: Seq<char>,
) -> Seq<char> {
    "<li><span class=\"ob-name\">"@
        + escaped(name)
        + "</span><span class=\"ob-stage ob-stage-"@
        + class
        + "\">"@
        + stage
        + "</span><span class=\"muted small\">joined "@
        + joined
        + "</span></li>"@
}

/// A user who has not pasted yet, from the parts.
fn nudge_text(name: &str, class: &str, stage: &str, joined: &str) -> (r: String)
    ensures
        r@ == nudge_html(name@, class@, stage@, joined@),
{
    let name_e = escape_html(name);
    let mut out: String = "<li><span class=\"ob-name\">".to_owned();
    out.push_str(name_e.as_str());
    out.push_str("</span><span class=\"ob-stage ob-stage-");
    out.push_str(class);
    out.push_str("\">");
    out.push_str(stage);
    out.push_str("</span><span class=\"muted small\">joined ");
    out.push_str(joined);
    out.push_str("</span></li>");
    out
}

/// A user who has not pasted yet, as shown at `now`.
pub open spec fn nudge_item(u: NudgeRow, now: i64) -> Seq<char> {
    nudge_html(u.name@, stage_class(u), stage_name(u), relative(now, u.created_at))
}

fn nudge_item_text(u: &NudgeRow, now: i64) -> (r: String)
    ensures
        r@ == nudge_item(*u, now),
{
    let joined = format_relative_at(now, u.created_at);
    let stage = if u.tried {
        "Tried the shortcut"
    } else if u.saved {
        "Saved a snippet"
    } else {
        "Just signed up"
    };
    let class = if u.tried || u.saved {
        "warm"
    } else {
        "cold"
    };
    nudge_text(u.name.as_str(), class, stage, joined.as_str())
}

/// Users who have not pasted yet, as shown at `now`.
pub open spec fn nudge_items(l: Seq<NudgeRow>, now: i64) -> Seq<char>
    decreases l.len(),
{
    if l.len() == 0 {
        Seq::empty()
    } else {
        nudge_items(l.drop_last(), now) + nudge_item(l.last(), now)
    }
}

/// Users who have not pasted yet, as shown at `now`.
fn nudge_items_text(l: &Vec<NudgeRow>, now: i64) -> (r: String)
    ensures
        r@ == nudge_items(l@, now),
{
    let mut out: String = String::new();
    let n: usize = l.len();
    assert(l@.take(0) =~= Seq::<NudgeRow>::empty());
    assert(out@ =~= Seq::<char>::empty());
    for i in 0..n
        invariant
            n == l@.len(),
            out@ == nudge_items(l@.take(i as int), now),
    {
        proof {
            let t = l@.take(i + 1);
            assert(t.drop_last() =~= l@.take(i as int));
            assert(t.last() == l@[i as int]);
        }
        let s = nudge_item_text(&l[i], now);
        out.push_str(s.as_str());
    }
    assert(l@.take(n as int) =~= l@);
    out
}

/// That not all are shown.
pub open spec fn shown_html(n: usize, total: i64) -> Seq<char> {
    "<p class=\"muted small\">Showing the "@
        + decimal(n as nat)
        + " most recent of "@
        + thousands(total as int)
        + ".</p>"@
}

/// That not all are shown.
fn shown_text(n: usize, total: i64) -> (r: String)
    ensures
        r@ == shown_html(n, total),
{
    let n_n = count_text(n);
    let total_n = format_thousands(total);
    let mut out: String = "<p class=\"muted small\">Showing the ".to_owned();
    out.push_str(n_n.as_str());
    out.push_str(" most recent of ");
    out.push_str(total_n.as_str());
    out.push_str(".</p>");
    out
}

/// That not all are shown; nothing where they are.
pub open spec fn shown_note(n: nat, awaiting: i64) -> Seq<char> {
    if awaiting > n {
        shown_html(n as usize, awaiting)
    } else {
        Seq::empty()
    }
}

fn shown_or_none(n: usize, awaiting: i64) -> (r: String)
    ensures
        r@ == shown_note(n as nat, awaiting),
{
    if awaiting as i128 > n as i128 {
        shown_text(n, awaiting)
    } else {
        let e: String = String::new();
        assert(e@ =~= Seq::<char>::empty());
        e
    }
}

/// That everyone has pasted.
pub const ALL_PASTED: &'static str =
    "<p class=\"muted\">Everyone's pasted at least once. Nothing to chase.</p>";

/// Who has not pasted yet, as shown at `now`.
pub open spec fn nudge_list(l: Seq<NudgeRow>, awaiting: i64, now: i64) -> Seq<char> {
    if l.len() == 0 {
        ALL_PASTED@
    } else {
        "<ul class=\"recent-list ob-nudge\">"@ + nudge_items(l, now) + "</ul>"@ + shown_note(l.len(), awaiting)
    }
}

/// Who has not pasted yet, as shown at `now`.
fn nudge_list_text(l: &Vec<NudgeRow>, awaiting: i64, now: i64) -> (r: String)
    ensures
        r@ == nudge_list(l@, awaiting, now),
{
    if l.len() == 0 {
        ALL_PASTED.to_owned()
    } else {
        {
            let items = nudge_items_text(l, now);
            let note = shown_or_none(l.len(), awaiting);
            let mut out: String = "<ul class=\"recent-list ob-nudge\">".to_owned();
            out.push_str(items.as_str());
            out.push_str("</ul>");
            out.push_str(note.as_str());
            out
        }
    }
}

/// The head of the page.
pub const ONBOARDING_HEAD: &'static str =
    "<h1>Onboarding</h1><p class=\"muted\">How far new users get, from first sign-in to a daily \
        habit. Use the funnel to spot where people stall and the list below to see exactly who \
        hasn't pasted yet.</p>";

/// The content of the onboarding page, as shown at `now`.
pub open spec fn onboarding_html(o: Onboarding, now: i64) -> Seq<char> {
    if o.signed_up.count == 0 {
        ONBOARDING_HEAD@ + "<p class=\"muted\">No users yet.</p>"@
    } else {
        ONBOARDING_HEAD@ + cards(o) + funnel(o) + "<h2 class=\"ob-h2\">Awaiting activation</h2>"@
            + nudge_list(o.nudge@, o.awaiting, now)
    }
}

/// The content of the onboarding page, as shown at `now`: the figures, the
/// milestones, and who has not pasted yet.
pub fn onboarding_page(o: &Onboarding, now: i64) -> (r: String)
    ensures
        r@ == onboarding_html(*o, now),
{
    let mut out: String = ONBOARDING_HEAD.to_owned();
    if o.signed_up.count == 0 {
        out.push_str("<p class=\"muted\">No users yet.</p>");
        return out;
    }
    let c = cards_text(o);
    let f = funnel_text(o);
    let n = nudge_list_text(&o.nudge, o.awaiting, now);
    out.push_str(c.as_str());
    out.push_str(f.as_str());
    out.push_str("<h2 class=\"ob-h2\">Awaiting activation</h2>");
    out.push_str(n.as_str());
    out
}

} // verus!
