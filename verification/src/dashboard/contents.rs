//! What stands on the pages of the dashboard: every row once and in order, every section, and
//! the figures that they are given.
use vstd::prelude::*;

verus! {

use crate::audit::{Actor, AuditRow};
use crate::dashboard::audit_page::{
    actor_cell,
    actor_option,
    actor_options,
    entries,
    entry,
    has_older,
    page_html,
    pager,
    row_diff,
    size_option,
    verb_option,
    view_query,
    window_option,
    AuditView,
    Known,
};
use crate::dashboard::ages::relative;
use crate::dashboard::audit_text::{
    action_label,
    details_label,
    details_sentence,
    folder_query,
    snippet_link,
    snippet_target,
    target_label,
    KnownSnippet,
    KnownUser,
};
use crate::dashboard::cards::{
    cards_html,
    library_row,
    library_rows,
    pill_html,
    pills,
    uses,
};
use crate::dashboard::folder_tree::{
    all_node,
    count_under,
    folder_node,
    folder_nodes,
    node_html,
    tree_html,
    tree_paths,
    unfiled_node,
    FolderRow,
};
use crate::dashboard::forms::LibraryPageQuery;
use crate::dashboard::insights::{
    insight_row,
    insight_rows,
    insights_html,
    in_order,
    sort_of,
    ticket_row,
    ticket_rows,
    tickets_of,
    total_uses,
    InsightRow,
    TicketRow,
};
use crate::dashboard::library_page::{folder_banner, import_banner, library_html};
use crate::dashboard::onboarding::{
    bar_width,
    drop_part,
    nudge_item,
    nudge_items,
    onboarding_html,
    stage_row,
    NudgeRow,
    Onboarding,
    Stage,
};
use crate::dashboard::stats::{
    code_option,
    code_options,
    positive_sum,
    recent_item,
    recent_items,
    signup_item,
    signup_items,
    stats_html,
    top_snippet_item,
    top_snippet_items,
    top_user_item,
    top_user_items,
    Ranked,
    RecentLibrary,
    RecentSignup,
    Stats,
};
use crate::dashboard::user_detail::{detail_html, favourite, favourites, Telemetry};
use crate::dashboard::users::{
    pips_html,
    signals_of,
    user_row,
    user_rows,
    AdminUserView,
    Signals,
};
use crate::decimal::{decimal, decimal_int, thousands};
use crate::find::{occurs, stands_at};
use crate::highlight::highlighted;
use crate::html::escaped;
use crate::json::{member, JsonView};
use crate::library::{selected_folder, visible_rows, LibraryRow};
use crate::preview::preview;
use crate::tags::decoded_tags;
use crate::text::opt_view;

/// Whether a part stands on a page.
#[verifier::opaque]
pub open spec fn holds(html: Seq<char>, part: Seq<char>) -> bool {
    occurs(html, part)
}

pub broadcast proof fn lemma_holds_itself(part: Seq<char>)
    ensures
        #[trigger] holds(part, part),
{
    reveal(holds);
    assert(part.subrange(0, part.len() as int) =~= part);
    assert(stands_at(part, part, 0));
}

pub broadcast proof fn lemma_holds_concat(a: Seq<char>, b: Seq<char>, part: Seq<char>)
    ensures
        holds(a, part) || holds(b, part) ==> #[trigger] holds(a + b, part),
{
    reveal(holds);
    let w = a + b;
    if holds(a, part) {
        let i = choose|i: int| stands_at(a, part, i);
        assert(w.subrange(i, i + part.len()) =~= a.subrange(i, i + part.len()));
        assert(stands_at(w, part, i));
    }
    if holds(b, part) {
        let i = choose|i: int| stands_at(b, part, i);
        let j = a.len() + i;
        assert(w.subrange(j, j + part.len()) =~= b.subrange(i, i + part.len()));
        assert(stands_at(w, part, j));
    }
}

/// The users are listed one after the other, each with the steps that are known of them.
pub proof fn law_every_user_is_listed(
    l: Seq<AdminUserView>,
    u: AdminUserView,
    me: Seq<char>,
    signals: Seq<(String, Signals)>,
    now: i64,
)
    ensures
        user_rows(Seq::empty(), me, signals, now).len() == 0,
        user_rows(l.push(u), me, signals, now) == user_rows(l, me, signals, now) + user_row(
            u,
            me,
            pips_html(signals_of(signals, u.id@)),
            now,
        ),
{
    assert(l.push(u).drop_last() =~= l);
}

/// The steps that are known of a user are those of the last row with their id, and none where
/// there is no such row.
pub proof fn law_steps_are_those_of_the_user(
    l: Seq<(String, Signals)>,
    row: (String, Signals),
    id: Seq<char>,
)
    ensures
        row.0@ == id ==> signals_of(l.push(row), id) == row.1,
        row.0@ != id ==> signals_of(l.push(row), id) == signals_of(l, id),
        signals_of(Seq::empty(), id) == (Signals { saved: false, tried: false, pasted: false }),
{
    assert(l.push(row).drop_last() =~= l);
}

/// The tickets of a snippet are those of the last row with its id, and none where there is no
/// such row.
pub proof fn law_tickets_are_those_of_the_snippet(
    l: Seq<(String, i64)>,
    row: (String, i64),
    id: Seq<char>,
)
    ensures
        row.0@ == id ==> tickets_of(l.push(row), id) == row.1,
        row.0@ != id ==> tickets_of(l.push(row), id) == tickets_of(l, id),
        tickets_of(Seq::empty(), id) == 0,
{
    assert(l.push(row).drop_last() =~= l);
}

/// The snippets of the library are listed one after the other, and each with its tags.
pub proof fn law_every_snippet_is_listed(
    l: Seq<LibraryRow>,
    r: LibraryRow,
    q: Seq<char>,
    now: i64,
    tags: Seq<Seq<char>>,
    tag: Seq<char>,
)
    ensures
        library_rows(Seq::empty(), q, now).len() == 0,
        library_rows(l.push(r), q, now) == library_rows(l, q, now) + library_row(r, q, now),
        cards_html(l.push(r), q, now) == library_rows(l.push(r), q, now),
        pills(Seq::empty()).len() == 0,
        pills(tags.push(tag)) == pills(tags) + pill_html(tag),
        r.use_count > 0 ==> holds(uses(r, now), thousands(r.use_count as int)),
        r.use_count <= 0 ==> uses(r, now).len() == 0,
{
    broadcast use {lemma_holds_itself, lemma_holds_concat};

    assert(l.push(r).drop_last() =~= l);
    assert(tags.push(tag).drop_last() =~= tags);
}

/// The insights list every snippet, and the tickets of one every ticket, one after the other.
pub proof fn law_every_insight_is_listed(
    l: Seq<InsightRow>,
    x: InsightRow,
    tickets: Option<Seq<(String, i64)>>,
    m: Seq<TicketRow>,
    t: TicketRow,
    now: i64,
)
    ensures
        insight_rows(Seq::empty(), tickets, now).len() == 0,
        insight_rows(l.push(x), tickets, now) == insight_rows(l, tickets, now) + insight_row(
            x,
            tickets,
            now,
        ),
        ticket_rows(Seq::empty(), now).len() == 0,
        ticket_rows(m.push(t), now) == ticket_rows(m, now) + ticket_row(t, now),
{
    assert(l.push(x).drop_last() =~= l);
    assert(m.push(t).drop_last() =~= m);
}

/// The insights show the snippets in the order that is asked for, and above them how often
/// all were pasted and how many there are.
pub proof fn law_insights_show_rows_and_totals(
    rows: Seq<InsightRow>,
    sort: Seq<char>,
    tickets: Option<Seq<(String, i64)>>,
    now: i64,
)
    requires
        in_order(sort_of(sort), rows).len() > 0,
    ensures
        holds(
            insights_html(rows, sort, tickets, now),
            insight_rows(in_order(sort_of(sort), rows), tickets, now),
        ),
        holds(insights_html(rows, sort, tickets, now), escaped(thousands(total_uses(rows)))),
        holds(insights_html(rows, sort, tickets, now), escaped(decimal(rows.len()))),
{
    broadcast use {lemma_holds_itself, lemma_holds_concat};

}

/// The lists of the statistics show every user, snippet and currency, one after the other.
pub proof fn law_every_statistic_is_listed(
    l: Seq<Ranked>,
    x: Ranked,
    users: Seq<RecentSignup>,
    u: RecentSignup,
    snippets: Seq<RecentLibrary>,
    s: RecentLibrary,
    codes: Seq<String>,
    c: String,
    now: i64,
)
    ensures
        top_user_items(Seq::empty()).len() == 0,
        top_user_items(l.push(x)) == top_user_items(l) + top_user_item(x),
        top_snippet_items(Seq::empty()).len() == 0,
        top_snippet_items(l.push(x)) == top_snippet_items(l) + top_snippet_item(x),
        signup_items(Seq::empty(), now).len() == 0,
        signup_items(users.push(u), now) == signup_items(users, now) + signup_item(u, now),
        recent_items(Seq::empty(), now).len() == 0,
        recent_items(snippets.push(s), now) == recent_items(snippets, now) + recent_item(s, now),
        code_options(Seq::empty()).len() == 0,
        code_options(codes.push(c)) == code_options(codes) + code_option(c),
        holds(top_user_item(x), thousands(x.count as int)),
        holds(top_snippet_item(x), thousands(x.count as int)),
{
    broadcast use {lemma_holds_itself, lemma_holds_concat};

    assert(l.push(x).drop_last() =~= l);
    assert(users.push(u).drop_last() =~= users);
    assert(snippets.push(s).drop_last() =~= snippets);
    assert(codes.push(c).drop_last() =~= codes);
}

/// The page of the statistics shows its figures and its lists.
pub proof fn law_statistics_are_shown(s: Stats, script: Seq<char>, now: i64)
    ensures
        ({
            let p = stats_html(s, script, now);
            &&& holds(p, escaped(decimal_int(s.counts.total_users as int)))
            &&& holds(p, escaped(decimal_int(s.counts.active_users as int)))
            &&& holds(p, escaped(decimal_int(s.counts.admin_users as int)))
            &&& holds(p, escaped(decimal_int(s.counts.disabled_users as int)))
            &&& holds(p, escaped(decimal_int(s.counts.total_snippets as int)))
            &&& holds(p, escaped(decimal_int(s.counts.tombstoned_snippets as int)))
            &&& holds(p, escaped(decimal_int(s.counts.library_snippets as int)))
            &&& holds(p, escaped(decimal_int(s.library_new_7d as int)))
            &&& holds(p, escaped(decimal_int(s.library_new_30d as int)))
            &&& holds(p, escaped(decimal_int(s.adoption_pct as int) + "%"@))
            &&& holds(p, escaped(thousands(s.snippets_pasted as int)))
            &&& holds(p, escaped(thousands(positive_sum(s.chars_pasted@))))
            &&& holds(p, escaped(s.hours_saved@))
            &&& holds(p, thousands(s.money_whole as int))
            &&& holds(p, s.money_aud@)
            &&& holds(p, escaped(s.currency@))
            &&& holds(p, code_options(s.codes@))
            &&& holds(p, s.rates_json@)
            &&& holds(p, script)
            &&& s.top_users@.len() > 0 ==> holds(p, top_user_items(s.top_users@))
            &&& s.top_library@.len() > 0 ==> holds(p, top_snippet_items(s.top_library@))
            &&& s.recent_users@.len() > 0 ==> holds(p, signup_items(s.recent_users@, now))
            &&& s.recent_library@.len() > 0 ==> holds(p, recent_items(s.recent_library@, now))
        }),
{
    broadcast use {lemma_holds_itself, lemma_holds_concat};

}

/// A stage of the funnel shows how many have reached it, and a loss where and only where fewer
/// have reached it than the stage before. Its bar is as wide as the share, between nothing
/// and the whole.
pub proof fn law_stages_show_their_loss(label: Seq<char>, prev: Option<i64>, s: Stage)
    ensures
        holds(stage_row(label, prev, s), escaped(label)),
        holds(stage_row(label, prev, s), thousands(s.count as int)),
        prev is None ==> drop_part(prev, s).len() == 0,
        prev is Some && s.count >= prev->0 ==> drop_part(prev, s).len() == 0,
        prev is Some && prev->0 > 0 && s.count < prev->0 ==> holds(
            drop_part(prev, s),
            decimal_int(s.drop_pct as int),
        ) && holds(stage_row(label, prev, s), drop_part(prev, s)),
        0 <= bar_width(s.pct) <= 100,
        0 <= s.pct <= 100 ==> bar_width(s.pct) == s.pct,
        s.pct > 100 ==> bar_width(s.pct) == 100,
        s.pct < 0 ==> bar_width(s.pct) == 0,
{
    broadcast use {lemma_holds_itself, lemma_holds_concat};

}

/// The page of the onboarding shows the stages, each against the one before, and lists those
/// who wait one after the other.
pub proof fn law_onboarding_is_shown(o: Onboarding, now: i64, l: Seq<NudgeRow>, u: NudgeRow)
    requires
        o.signed_up.count != 0,
    ensures
        ({
            let p = onboarding_html(o, now);
            &&& holds(p, stage_row("Signed up"@, None, o.signed_up))
            &&& holds(p, stage_row("Saved a snippet"@, Some(o.signed_up.count), o.saved))
            &&& holds(p, stage_row("Tried the shortcut"@, Some(o.saved.count), o.tried))
            &&& holds(p, stage_row("Made a paste"@, Some(o.tried.count), o.pasted))
            &&& holds(p, thousands(o.awaiting as int))
            &&& holds(p, thousands(o.new_this_week as int))
            &&& holds(p, decimal_int(o.activation_pct as int) + "%"@)
            &&& o.nudge@.len() > 0 ==> holds(p, nudge_items(o.nudge@, now))
        }),
        nudge_items(Seq::empty(), now).len() == 0,
        nudge_items(l.push(u), now) == nudge_items(l, now) + nudge_item(u, now),
{
    broadcast use {lemma_holds_itself, lemma_holds_concat};

    assert(l.push(u).drop_last() =~= l);
}

/// The page of a user shows their name, address, id, role, figures and favourites.
pub proof fn law_user_is_shown(
    u: AdminUserView,
    tombstoned: i64,
    t: Telemetry,
    me: Seq<char>,
    now: i64,
    l: Seq<Ranked>,
    x: Ranked,
)
    requires
        l.len() > 0,
    ensures
        ({
            let p = detail_html(u, tombstoned, t, me, now);
            &&& holds(p, escaped(u.display_name@))
            &&& holds(p, escaped(u.email@))
            &&& holds(p, escaped(u.id@))
            &&& holds(p, escaped(u.role@))
            &&& holds(p, decimal_int(u.snippet_count as int))
            &&& holds(p, decimal_int(tombstoned as int))
            &&& t.pastes > 0 || t.chars > 0 ==> {
                &&& holds(p, thousands(t.pastes as int))
                &&& holds(p, thousands(t.chars as int))
                &&& holds(p, t.hours_saved@)
                &&& holds(p, thousands(t.money_whole as int))
                &&& t.favourites@.len() > 0 ==> holds(p, favourites(t.favourites@))
            }
        }),
        favourites(seq![x]) == favourite(x),
        favourites(l.push(x)) == favourites(l) + "; "@ + favourite(x),
{
    broadcast use {lemma_holds_itself, lemma_holds_concat};

    assert(l.push(x).drop_last() =~= l);
    assert(seq![x].last() == x);
}

/// The page of the library shows the folders, and the snippets of the view that is asked for.
pub proof fn law_library_is_shown(
    rows: Seq<LibraryRow>,
    folders: Seq<FolderRow>,
    q: LibraryPageQuery,
    script: Seq<char>,
    now: i64,
)
    ensures
        ({
            let p = library_html(rows, folders, q, script, now);
            let view = selected_folder(opt_view(q.folder));
            let search = match q.q {
                Some(s) => s@,
                None => Seq::empty(),
            };
            &&& holds(p, tree_html(rows, folders, view))
            &&& holds(p, cards_html(visible_rows(rows, view, opt_view(q.q)), search, now))
            &&& holds(p, escaped(view))
            &&& holds(p, escaped(search))
            &&& holds(p, script)
            &&& q.imported is Some ==> holds(p, decimal(q.imported->0 as nat))
            &&& q.imported is Some && q.skipped is Some && q.skipped->0 > 0 ==> holds(
                p,
                decimal(q.skipped->0 as nat),
            )
            &&& q.imported is None ==> import_banner(q).len() == 0
            &&& q.folder_deleted is Some && q.folder_deleted->0@.len() > 0 ==> holds(
                p,
                escaped(q.folder_deleted->0@),
            ) && (q.deleted is Some ==> holds(p, decimal(q.deleted->0 as nat))) && (q.deleted
                is None && q.moved is Some && q.moved->0 > 0 ==> holds(
                p,
                decimal(q.moved->0 as nat),
            ))
            &&& q.folder_deleted is None ==> folder_banner(q).len() == 0
        }),
{
    broadcast use {lemma_holds_itself, lemma_holds_concat};

    assert(opt_view(q.q) is Some ==> opt_view(q.q)->0 == q.q->0@);
}

/// The audit log shows its entries one after the other, and offers every actor.
pub proof fn law_every_entry_is_shown(
    v: AuditView,
    total: i64,
    rows: Seq<AuditRow>,
    actors: Seq<Actor>,
    known: Known,
    now: i64,
    r: AuditRow,
    a: Actor,
)
    requires
        rows.len() > 0,
    ensures
        holds(page_html(v, total, rows, actors, known, now), entries(rows, known, now)),
        holds(page_html(v, total, rows, actors, known, now), actor_options(actors, v)),
        holds(page_html(v, total, rows, actors, known, now), pager(v, total)),
        entries(Seq::empty(), known, now).len() == 0,
        entries(rows.push(r), known, now) == entries(rows, known, now) + entry(r, known, now),
        actor_options(Seq::empty(), v).len() == 0,
        actor_options(actors.push(a), v) == actor_options(actors, v) + actor_option(a, v),
{
    broadcast use {lemma_holds_itself, lemma_holds_concat};

    assert(rows.push(r).drop_last() =~= rows);
    assert(actors.push(a).drop_last() =~= actors);
}

/// The pager leads to the page before and the page behind, of the same size and with the same
/// filters, where there are such pages, and tells the number of the page from one on.
pub proof fn law_pager_leads_to_the_next_pages(v: AuditView, total: i64)
    requires
        0 <= v.page < i64::MAX,
    ensures
        v.page > 0 ==> holds(
            pager(v, total),
            "<a href=\"/dashboard/audit?page="@ + decimal_int(v.page - 1) + "&per_page="@
                + decimal_int(v.per_page as int) + view_query(v),
        ),
        has_older(v.page as int, total as int, v.per_page as int) ==> holds(
            pager(v, total),
            "<a href=\"/dashboard/audit?page="@ + decimal_int(v.page + 1) + "&per_page="@
                + decimal_int(v.per_page as int) + view_query(v),
        ),
        holds(pager(v, total), decimal_int(v.page + 1)),
        holds(pager(v, total), decimal_int(total as int)),
{
    broadcast use {lemma_holds_itself, lemma_holds_concat};

}

/// Of the choices of a filter, the one that is made is selected, and no other.
pub proof fn law_choices_are_selected(
    v: Seq<char>,
    w: Seq<char>,
    a: Actor,
    view: AuditView,
    days: i64,
    others: i64,
    label: Seq<char>,
)
    requires
        v != w,
        days != others,
    ensures
        holds(verb_option(Some(v), v), " selected"@),
        verb_option(Some(w), v) == verb_option(None, v),
        holds(window_option(Some(days), days, label), " selected"@),
        holds(window_option(None, 0, label), " selected"@),
        others != 0 ==> window_option(Some(days), others, label) == window_option(
            None,
            others,
            label,
        ),
        holds(size_option(days, days), " selected"@),
        opt_view(view.actor) == Some(a.id@) ==> holds(actor_option(a, view), " selected"@),
{
    broadcast use {lemma_holds_itself, lemma_holds_concat};

}

/// The tree begins with all snippets and those without a folder, with how many there are, and
/// goes on with the folders, one after the other.
pub proof fn law_tree_shows_its_folders(
    rows: Seq<LibraryRow>,
    folders: Seq<FolderRow>,
    view: Seq<char>,
    paths: Seq<Seq<char>>,
    path: Seq<char>,
)
    ensures
        holds(tree_html(rows, folders, view), node_html(all_node(rows, view))),
        holds(tree_html(rows, folders, view), node_html(unfiled_node(rows, view))),
        holds(
            tree_html(rows, folders, view),
            folder_nodes(rows, folders, view, tree_paths(rows, folders)),
        ),
        all_node(rows, view).count == rows.len(),
        holds(node_html(all_node(rows, view)), decimal(rows.len())),
        holds(node_html(folder_node(rows, folders, view, path)), decimal(count_under(rows, path))),
        folder_nodes(rows, folders, view, Seq::empty()).len() == 0,
        folder_nodes(rows, folders, view, paths.push(path)) == folder_nodes(
            rows,
            folders,
            view,
            paths,
        ) + node_html(folder_node(rows, folders, view, path)),
        folder_node(rows, folders, view, path).active <==> view == path,
        folder_node(rows, folders, view, path).path == path,
        folder_node(rows, folders, view, path).count == count_under(rows, path),
{
    broadcast use {lemma_holds_itself, lemma_holds_concat};

    assert(paths.push(path).drop_last() =~= paths);
}

/// An entry of the audit log shows when it was, who acted, what they did to what, and the
/// details, and the difference where there is one.
pub proof fn law_entries_show_their_parts(r: AuditRow, known: Known, now: i64)
    ensures
        holds(entry(r, known, now), relative(now, r.at)),
        holds(entry(r, known, now), actor_cell(r)),
        holds(entry(r, known, now), action_label(r.action@)),
        holds(
            entry(r, known, now),
            target_label(
                opt_view(r.target_kind),
                opt_view(r.target_id),
                known.users@,
                known.snippets@,
            ),
        ),
        holds(entry(r, known, now), details_label(r.action@, opt_view(r.details))),
        row_diff(r) is Some ==> holds(entry(r, known, now), row_diff(r)->0),
{
    broadcast use {lemma_holds_itself, lemma_holds_concat};

}

/// The target of an entry is told by what is known of it: a user by their name and address, a
/// folder by its path, a snippet by a link to it, and what is not known by its id. An entry
/// without a target tells none.
pub proof fn law_targets_show_what_they_name(
    users: Seq<KnownUser>,
    u: KnownUser,
    snippets: Seq<KnownSnippet>,
    s: KnownSnippet,
    id: Seq<char>,
    kind: Seq<char>,
)
    requires
        id.len() > 0,
        kind != "user"@,
        kind != "library"@,
        kind != "folder"@,
    ensures
        u.id@ == id ==> holds(
            target_label(Some("user"@), Some(id), users.push(u), snippets),
            escaped(u.name@),
        ) && holds(
            target_label(Some("user"@), Some(id), users.push(u), snippets),
            escaped(u.email@),
        ),
        u.id@ != id ==> target_label(Some("user"@), Some(id), seq![u], snippets)
            == target_label(Some("user"@), Some(id), Seq::empty(), snippets),
        holds(target_label(Some("user"@), Some(id), users, snippets), escaped(id)),
        holds(target_label(Some("folder"@), Some(id), users, snippets), escaped(id)),
        s.id@ == id && !s.deleted ==> holds(
            target_label(Some("library"@), Some(id), users, snippets.push(s)),
            "#lib-"@ + escaped(id),
        ),
        s.id@ == id && s.deleted ==> target_label(
            Some("library"@),
            Some(id),
            users,
            snippets.push(s),
        ) == target_label(Some("library"@), Some(id), users, seq![s]),
        holds(target_label(Some("library"@), Some(id), users, snippets), escaped(id)),
        holds(target_label(Some(kind), Some(id), users, snippets), escaped(kind)),
        holds(target_label(Some(kind), Some(id), users, snippets), escaped(id)),
        target_label(None, Some(id), users, snippets) == target_label(None, None, users, snippets),
        target_label(Some(kind), None, users, snippets) == target_label(None, None, users, snippets),
{
    broadcast use {lemma_holds_itself, lemma_holds_concat};

    reveal_strlit("user");
    reveal_strlit("library");
    reveal_strlit("folder");
    assert("user"@.len() == 4 && "library"@.len() == 7 && "folder"@.len() == 6);
    assert(users.push(u).last() == u);
    assert(snippets.push(s).last() == s);
    assert(seq![u].last() == u);
    assert(seq![s].last() == s);
    assert(seq![u].drop_last() =~= Seq::empty());
    lemma_holds_link(snippets, s, id);
}

proof fn lemma_holds_link(snippets: Seq<KnownSnippet>, s: KnownSnippet, id: Seq<char>)
    ensures
        s.id@ == id && !s.deleted ==> holds(
            snippet_target(snippets.push(s), id),
            "#lib-"@ + escaped(id),
        ),
{
    broadcast use {lemma_holds_itself, lemma_holds_concat};

    if s.id@ == id && !s.deleted {
        let f = folder_query(opt_view(s.folder));
        assert(snippets.push(s).last() == s);
        let head = "<a href=\"/dashboard/library"@ + f;
        let link = "#lib-"@ + escaped(id);
        let tail = "\" title=\"library snippet "@ + escaped(id) + "\">library snippet</a>"@;
        assert(snippet_link(f, id) =~= head + link + tail);
        assert(holds(head + link, link));
        assert(holds(head + link + tail, link));
    }
}

/// What was done to a snippet or an account is told with its title or address, and with the
/// folder where there is one.
pub proof fn law_sentences_tell_what_was_done(
    j: JsonView,
    raw: Seq<char>,
    title: Seq<char>,
    folder: Seq<char>,
    email: Seq<char>,
)
    requires
        member(j, "title"@) == Some(JsonView::Text(title)),
        member(j, "folder_path"@) == Some(JsonView::Text(folder)),
        member(j, "email"@) == Some(JsonView::Text(email)),
        title.len() > 0,
        email.len() > 0,
    ensures
        holds(details_sentence("library.create"@, j, raw), "Created"@),
        holds(details_sentence("library.create"@, j, raw), escaped(title)),
        holds(details_sentence("library.update"@, j, raw), "Updated"@),
        holds(details_sentence("library.update"@, j, raw), escaped(title)),
        holds(details_sentence("library.delete"@, j, raw), "Deleted"@),
        holds(details_sentence("library.delete"@, j, raw), escaped(title)),
        folder.len() > 0 ==> holds(
            details_sentence("library.create"@, j, raw),
            escaped(folder),
        ) && holds(details_sentence("library.update"@, j, raw), escaped(folder)) && holds(
            details_sentence("library.delete"@, j, raw),
            escaped(folder),
        ),
        holds(details_sentence("user.delete"@, j, raw), escaped(email)),
{
    broadcast use {lemma_holds_itself, lemma_holds_concat};

    reveal_strlit("library.create");
    reveal_strlit("library.update");
    reveal_strlit("library.delete");
    reveal_strlit("user.create");
    reveal_strlit("user.update");
    reveal_strlit("user.delete");
    assert("library.create"@.len() == 14 && "library.update"@.len() == 14 && "library.delete"@.len()
        == 14);
    assert("user.create"@.len() == 11 && "user.update"@.len() == 11 && "user.delete"@.len() == 11);
    assert("library.create"@[8] == 'c' && "library.update"@[8] == 'u' && "library.delete"@[8]
        == 'd');
    assert("user.create"@[5] == 'c' && "user.update"@[5] == 'u' && "user.delete"@[5] == 'd');
}

/// A row of the library shows its title and its text, with what is looked for marked in them,
/// and its folder and its tags.
pub proof fn law_rows_show_their_snippet(r: LibraryRow, q: Seq<char>, now: i64)
    ensures
        holds(library_row(r, q, now), highlighted(r.title@, q)),
        holds(library_row(r, q, now), preview(r.body@, q)),
        holds(library_row(r, q, now), escaped(r.id@)),
        holds(library_row(r, q, now), uses(r, now)),
        r.folder_path is Some && r.folder_path->0@.len() > 0 ==> holds(
            library_row(r, q, now),
            highlighted(r.folder_path->0@, q),
        ),
        decoded_tags(r.tags@).len() > 0 ==> holds(
            library_row(r, q, now),
            pills(decoded_tags(r.tags@)),
        ),
{
    broadcast use {lemma_holds_itself, lemma_holds_concat};

    assert(r.folder_path is Some ==> opt_view(r.folder_path) == Some(r.folder_path->0@));
}

} // verus!
