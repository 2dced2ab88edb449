//! What the dashboard makes of texts that people have typed: it shows them, and they never
//! become markup. Of two fragments that differ in such texts alone, the tags, the quotes and
//! so the attributes are the same.
use vstd::prelude::*;

verus! {

use crate::audit::AuditRow;
use crate::dashboard::audit_page::{actor_cell, actor_option_html, search_box};
use crate::dashboard::audit_text::{
    action_label,
    created_html,
    deleted_user_html,
    folder_bit,
    folder_gone,
    known_label,
    lost_snippet,
    moved_html,
    plain_target,
    raw_details,
    role_change,
    search_bit,
    status_change,
    titled_html,
    titled_in_html,
    unknown_label,
    user_link,
};
use crate::dashboard::cards::{editor, pill_html};
use crate::dashboard::folder_tree::{node_html, NodeView};
use crate::dashboard::folders::{confirm_empty, confirm_filled};
use crate::dashboard::insights::{insight_row, snippet_line, ticket_row, InsightRow, TicketRow};
use crate::dashboard::layout::banner_html;
use crate::dashboard::library_page::{folder_gone_html, folder_input, search_bar};
use crate::dashboard::onboarding::{nudge_item, NudgeRow};
use crate::dashboard::selection_tree::{folder_open, item_html, ItemView};
use crate::dashboard::sign_in::{button_html, password_form_html};
use crate::dashboard::stats::{
    currency_option,
    recent_item,
    signup_item,
    top_snippet_item,
    top_user_item,
    Ranked,
    RecentLibrary,
    RecentSignup,
};
use crate::dashboard::transfer::{error_banner, import_dialog};
use crate::dashboard::user_detail::{account_code, favourite, pair, title_html};
use crate::dashboard::users::{error_row, user_row, AdminUserView};
use crate::find::{occurs, stands_at};
use crate::html::{escaped, law_escaped_text_holds_no_markup, markup_char};
use crate::library::LibraryRow;
use crate::tags::form_tags;
use crate::text::opt_view;

/// The characters of a fragment that open or close tags and attribute values, in order.
#[verifier::opaque]
pub open spec fn markup(s: Seq<char>) -> Seq<char>
    decreases s.len(),
{
    if s.len() == 0 {
        Seq::empty()
    } else {
        let before = markup(s.drop_last());
        if markup_char(s.last()) {
            before.push(s.last())
        } else {
            before
        }
    }
}

/// Whether a fragment shows a text.
#[verifier::opaque]
pub open spec fn shows(html: Seq<char>, text: Seq<char>) -> bool {
    occurs(html, escaped(text))
}

pub broadcast proof fn lemma_markup_concat(a: Seq<char>, b: Seq<char>)
    ensures
        #[trigger] markup(a + b) == markup(a) + markup(b),
    decreases b.len(),
{
    reveal(markup);
    if b.len() == 0 {
        assert(a + b =~= a);
        assert(markup(a) + markup(b) =~= markup(a));
    } else {
        lemma_markup_concat(a, b.drop_last());
        assert((a + b).drop_last() =~= a + b.drop_last());
        assert(markup(a) + markup(b.drop_last()).push(b.last()) =~= (markup(a) + markup(
            b.drop_last(),
        )).push(b.last()));
    }
}

proof fn lemma_no_markup(s: Seq<char>)
    requires
        forall|i: int| 0 <= i < s.len() ==> !markup_char(#[trigger] s[i]),
    ensures
        markup(s) == Seq::<char>::empty(),
    decreases s.len(),
{
    reveal(markup);
    if s.len() > 0 {
        let p = s.drop_last();
        assert forall|i: int| 0 <= i < p.len() implies !markup_char(#[trigger] p[i]) by {
            assert(p[i] == s[i]);
        }
        lemma_no_markup(p);
        assert(!markup_char(s[s.len() - 1]));
    }
}

pub broadcast proof fn lemma_markup_escaped(s: Seq<char>)
    ensures
        #[trigger] markup(escaped(s)) == Seq::<char>::empty(),
{
    law_escaped_text_holds_no_markup(s);
    lemma_no_markup(escaped(s));
}

pub broadcast proof fn lemma_shows_itself(text: Seq<char>)
    ensures
        #[trigger] shows(escaped(text), text),
{
    reveal(shows);
    let e = escaped(text);
    assert(e.subrange(0, e.len() as int) =~= e);
    assert(stands_at(e, e, 0));
}

pub broadcast proof fn lemma_shows_concat(a: Seq<char>, b: Seq<char>, text: Seq<char>)
    ensures
        shows(a, text) || shows(b, text) ==> #[trigger] shows(a + b, text),
{
    reveal(shows);
    let e = escaped(text);
    let w = a + b;
    if shows(a, text) {
        let i = choose|i: int| stands_at(a, e, i);
        assert(w.subrange(i, i + e.len()) =~= a.subrange(i, i + e.len()));
        assert(stands_at(w, e, i));
    }
    if shows(b, text) {
        let i = choose|i: int| stands_at(b, e, i);
        let j = a.len() + i;
        assert(w.subrange(j, j + e.len()) =~= b.subrange(i, i + e.len()));
        assert(stands_at(w, e, j));
    }
}

/// A user's row shows their name, e-mail address and role, and those texts and the id add no
/// markup to it.
pub proof fn law_user_rows_hold_no_foreign_markup(
    u: AdminUserView,
    v: AdminUserView,
    me: Seq<char>,
    onboarding: Seq<char>,
    now: i64,
)
    requires
        u.is_disabled == v.is_disabled,
        u.last_seen_at == v.last_seen_at,
        u.snippet_count == v.snippet_count,
        (u.id@ == me) == (v.id@ == me),
        (u.role@ == "admin"@) == (v.role@ == "admin"@),
    ensures
        markup(user_row(u, me, onboarding, now)) == markup(user_row(v, me, onboarding, now)),
        shows(user_row(u, me, onboarding, now), u.display_name@),
        shows(user_row(u, me, onboarding, now), u.email@),
        shows(user_row(u, me, onboarding, now), u.role@),
        shows(user_row(u, me, onboarding, now), u.id@),
{
    broadcast use {
        lemma_markup_concat,
        lemma_markup_escaped,
        lemma_shows_itself,
        lemma_shows_concat,
    };

}

/// The page of a user shows their name and role, their id and the titles of what they paste
/// most, and those texts add no markup to it.
pub proof fn law_user_pages_hold_no_foreign_markup(
    a: Seq<char>,
    b: Seq<char>,
    c: Seq<char>,
    d: Seq<char>,
    f: Ranked,
    g: Ranked,
)
    requires
        f.count == g.count,
    ensures
        markup(title_html(a, b)) == markup(title_html(c, d)),
        shows(title_html(a, b), a),
        shows(title_html(a, b), b),
        markup(account_code(a)) == markup(account_code(b)),
        shows(account_code(a), a),
        markup(favourite(f)) == markup(favourite(g)),
        shows(favourite(f), f.name@),
        markup(pair(a, escaped(b))) == markup(pair(c, escaped(d))),
        shows(pair(a, escaped(b)), b),
        markup(error_row(a)) == markup(error_row(b)),
        shows(error_row(a), a),
{
    broadcast use {
        lemma_markup_concat,
        lemma_markup_escaped,
        lemma_shows_itself,
        lemma_shows_concat,
    };

}

/// The editor shows the title, the body, the tags and the folder of its snippet, and those
/// texts and the id add no markup to it. So it is with the pills of tags.
pub proof fn law_editors_hold_no_foreign_markup(r: LibraryRow, s: LibraryRow, now: i64)
    requires
        r.version == s.version,
        r.updated_at == s.updated_at,
    ensures
        markup(editor(r, now)) == markup(editor(s, now)),
        shows(editor(r, now), r.title@),
        shows(editor(r, now), r.body@),
        shows(editor(r, now), form_tags(r.tags@)),
        shows(editor(r, now), r.id@),
        r.folder_path is Some ==> shows(editor(r, now), r.folder_path->0@),
        markup(pill_html(r.title@)) == markup(pill_html(s.title@)),
        shows(pill_html(r.title@), r.title@),
{
    broadcast use {
        lemma_markup_concat,
        lemma_markup_escaped,
        lemma_shows_itself,
        lemma_shows_concat,
    };

}

/// A folder of the tree shows its label, and its label and path add no markup to it.
pub proof fn law_tree_nodes_hold_no_foreign_markup(m: NodeView, n: NodeView)
    requires
        m.count == n.count,
        m.active == n.active,
        m.kind == n.kind,
        m.depth == n.depth,
        m.has_children == n.has_children,
        m.sort_order == n.sort_order,
    ensures
        markup(node_html(m)) == markup(node_html(n)),
        shows(node_html(m), m.label),
        shows(node_html(m), m.path),
{
    broadcast use {
        lemma_markup_concat,
        lemma_markup_escaped,
        lemma_shows_itself,
        lemma_shows_concat,
    };

}

/// What can be picked shows its name, which adds no markup to it.
pub proof fn law_picks_hold_no_foreign_markup(
    i: ItemView,
    j: ItemView,
    a: Seq<char>,
    b: Seq<char>,
    count: nat,
    badge: Seq<char>,
)
    requires
        i.checked == j.checked,
        i.badge == j.badge,
    ensures
        markup(item_html(i)) == markup(item_html(j)),
        shows(item_html(i), i.title),
        shows(item_html(i), i.key),
        markup(folder_open(a, count, badge)) == markup(folder_open(b, count, badge)),
        shows(folder_open(a, count, badge), a),
{
    broadcast use {
        lemma_markup_concat,
        lemma_markup_escaped,
        lemma_shows_itself,
        lemma_shows_concat,
    };

}

/// A line of the insights shows the title, the folder and the top user of its snippet, and
/// those texts add no markup to it.
pub proof fn law_insights_hold_no_foreign_markup(x: InsightRow, y: InsightRow, now: i64)
    requires
        x.created_at == y.created_at,
        x.uses == y.uses,
        x.last_used == y.last_used,
        (x.folder is Some && x.folder->0@.len() > 0) == (y.folder is Some && y.folder->0@.len()
            > 0),
    ensures
        markup(insight_row(x, None, now)) == markup(insight_row(y, None, now)),
        shows(insight_row(x, None, now), x.title@),
        x.folder is Some && x.folder->0@.len() > 0 ==> shows(
            insight_row(x, None, now),
            x.folder->0@,
        ),
        x.top_user is Some ==> shows(insight_row(x, None, now), x.top_user->0@),
{
    broadcast use {
        lemma_markup_concat,
        lemma_markup_escaped,
        lemma_shows_itself,
        lemma_shows_concat,
    };

    lemma_no_markup(Seq::empty());
    assert(opt_view(x.folder) is Some ==> opt_view(x.folder)->0 == x.folder->0@);
    assert(opt_view(x.top_user) is Some ==> opt_view(x.top_user)->0 == x.top_user->0@);
}

/// A line of the tickets shows its reference, and the title of the snippet stands above them:
/// neither adds markup.
pub proof fn law_tickets_hold_no_foreign_markup(t: TicketRow, u: TicketRow, now: i64)
    requires
        t.pastes == u.pastes,
        t.last_used == u.last_used,
    ensures
        markup(ticket_row(t, now)) == markup(ticket_row(u, now)),
        shows(ticket_row(t, now), t.reference@),
        markup(snippet_line(t.reference@)) == markup(snippet_line(u.reference@)),
        shows(snippet_line(t.reference@), t.reference@),
{
    broadcast use {
        lemma_markup_concat,
        lemma_markup_escaped,
        lemma_shows_itself,
        lemma_shows_concat,
    };

}

/// The lists of the statistics show the names, the titles and the folders in them, which add
/// no markup.
pub proof fn law_statistics_hold_no_foreign_markup(
    f: Ranked,
    g: Ranked,
    u: RecentSignup,
    v: RecentSignup,
    s: RecentLibrary,
    t: RecentLibrary,
    now: i64,
)
    requires
        f.count == g.count,
        u.created_at == v.created_at,
        s.updated_at == t.updated_at,
        (s.folder_path is Some && s.folder_path->0@.len() > 0) == (t.folder_path is Some
            && t.folder_path->0@.len() > 0),
    ensures
        markup(top_user_item(f)) == markup(top_user_item(g)),
        shows(top_user_item(f), f.name@),
        markup(top_snippet_item(f)) == markup(top_snippet_item(g)),
        shows(top_snippet_item(f), f.name@),
        markup(signup_item(u, now)) == markup(signup_item(v, now)),
        shows(signup_item(u, now), u.display_name@),
        shows(signup_item(u, now), u.email@),
        shows(signup_item(u, now), u.role@),
        markup(recent_item(s, now)) == markup(recent_item(t, now)),
        shows(recent_item(s, now), s.title@),
        s.folder_path is Some && s.folder_path->0@.len() > 0 ==> shows(
            recent_item(s, now),
            s.folder_path->0@,
        ),
        markup(currency_option(f.name@)) == markup(currency_option(g.name@)),
        shows(currency_option(f.name@), f.name@),
{
    broadcast use {
        lemma_markup_concat,
        lemma_markup_escaped,
        lemma_shows_itself,
        lemma_shows_concat,
    };

    assert(opt_view(s.folder_path) is Some ==> opt_view(s.folder_path)->0 == s.folder_path->0@);
}

/// The list of those who wait shows their names, which add no markup.
pub proof fn law_nudges_hold_no_foreign_markup(u: NudgeRow, v: NudgeRow, now: i64)
    requires
        u.created_at == v.created_at,
        u.saved == v.saved,
        u.tried == v.tried,
    ensures
        markup(nudge_item(u, now)) == markup(nudge_item(v, now)),
        shows(nudge_item(u, now), u.name@),
{
    broadcast use {
        lemma_markup_concat,
        lemma_markup_escaped,
        lemma_shows_itself,
        lemma_shows_concat,
    };

}

/// The banners, the fields and the dialogs show the texts that they are given, which add no
/// markup to them.
pub proof fn law_forms_hold_no_foreign_markup(
    a: Seq<char>,
    b: Seq<char>,
    c: Seq<char>,
    d: Seq<char>,
    e: Seq<char>,
    f: Seq<char>,
    part: Seq<char>,
    count: i64,
)
    ensures
        markup(banner_html(a, b, c, part)) == markup(banner_html(d, e, f, part)),
        shows(banner_html(a, b, c, part), a),
        shows(banner_html(a, b, c, part), b),
        shows(banner_html(a, b, c, part), c),
        shows(banner_html(a, b, c, part), part),
        markup(banner_html(a, b, c, a)) == markup(banner_html(a, b, c, b)),
        markup(folder_gone_html(a, part)) == markup(folder_gone_html(b, part)),
        shows(folder_gone_html(a, part), a),
        markup(folder_input(a)) == markup(folder_input(b)),
        shows(folder_input(a), a),
        markup(search_bar(a)) == markup(search_bar(b)),
        shows(search_bar(a), a),
        markup(search_box(a)) == markup(search_box(b)),
        shows(search_box(a), a),
        markup(import_dialog(part, a)) == markup(import_dialog(part, b)),
        shows(import_dialog(part, a), a),
        markup(error_banner(a)) == markup(error_banner(b)),
        shows(error_banner(a), a),
        markup(button_html(a, b, c)) == markup(button_html(d, e, f)),
        shows(button_html(a, b, c), a),
        shows(button_html(a, b, c), b),
        shows(button_html(a, b, c), c),
        markup(password_form_html(a)) == markup(password_form_html(b)),
        shows(password_form_html(a), a),
        markup(confirm_empty(a)) == markup(confirm_empty(b)),
        shows(confirm_empty(a), a),
        markup(confirm_filled(a, count, part)) == markup(confirm_filled(b, count, part)),
        shows(confirm_filled(a, count, part), a),
{
    broadcast use {
        lemma_markup_concat,
        lemma_markup_escaped,
        lemma_shows_itself,
        lemma_shows_concat,
    };

}

/// An entry of the audit log shows who acted, and neither their address nor their id adds
/// markup to it. So it is with the choice of an actor.
pub proof fn law_actors_hold_no_foreign_markup(r: AuditRow, s: AuditRow, sel: Seq<char>)
    requires
        (r.actor_id is Some && r.actor_id->0@.len() > 0) == (s.actor_id is Some
            && s.actor_id->0@.len() > 0),
    ensures
        markup(actor_cell(r)) == markup(actor_cell(s)),
        shows(actor_cell(r), r.actor_email@),
        r.actor_id is Some && r.actor_id->0@.len() > 0 ==> shows(actor_cell(r), r.actor_id->0@),
        markup(actor_option_html(r.action@, sel, r.actor_email@)) == markup(
            actor_option_html(s.action@, sel, s.actor_email@),
        ),
        shows(actor_option_html(r.action@, sel, r.actor_email@), r.actor_email@),
        shows(actor_option_html(r.action@, sel, r.actor_email@), r.action@),
        markup(action_label(r.action@)) == markup(action_label(s.action@)),
        shows(action_label(r.action@), r.action@),
{
    broadcast use {
        lemma_markup_concat,
        lemma_markup_escaped,
        lemma_shows_itself,
        lemma_shows_concat,
    };

}

/// The sentences of the audit log show the names, the titles and the folders that they speak
/// of, which add no markup to them.
pub proof fn law_sentences_hold_no_foreign_markup(
    a: Seq<char>,
    b: Seq<char>,
    c: Seq<char>,
    d: Seq<char>,
    part: Seq<char>,
    word: Seq<char>,
)
    ensures
        markup(known_label(a, b)) == markup(known_label(c, d)),
        shows(known_label(a, b), a),
        shows(known_label(a, b), b),
        markup(unknown_label(a)) == markup(unknown_label(b)),
        shows(unknown_label(a), a),
        markup(user_link(a, part)) == markup(user_link(b, part)),
        shows(user_link(a, part), a),
        markup(lost_snippet(a)) == markup(lost_snippet(b)),
        shows(lost_snippet(a), a),
        markup(plain_target(a, b)) == markup(plain_target(c, d)),
        shows(plain_target(a, b), a),
        shows(plain_target(a, b), b),
        markup(created_html(a, b, part)) == markup(created_html(c, d, part)),
        shows(created_html(a, b, part), a),
        shows(created_html(a, b, part), b),
        markup(role_change(a, b)) == markup(role_change(c, d)),
        shows(role_change(a, b), a),
        shows(role_change(a, b), b),
        markup(status_change(a, b)) == markup(status_change(c, d)),
        shows(status_change(a, b), a),
        shows(status_change(a, b), b),
        markup(deleted_user_html(a)) == markup(deleted_user_html(b)),
        shows(deleted_user_html(a), a),
        markup(titled_html(word, a)) == markup(titled_html(word, b)),
        shows(titled_html(word, a), a),
        markup(titled_in_html(word, a, part, b)) == markup(titled_in_html(word, c, part, d)),
        shows(titled_in_html(word, a, part, b), a),
        shows(titled_in_html(word, a, part, b), b),
        markup(search_bit(a)) == markup(search_bit(b)),
        shows(search_bit(a), a),
        markup(folder_bit(a)) == markup(folder_bit(b)),
        shows(folder_bit(a), a),
        markup(moved_html(a, part, word)) == markup(moved_html(b, part, word)),
        shows(moved_html(a, part, word), a),
        markup(folder_gone(a, part)) == markup(folder_gone(b, part)),
        shows(folder_gone(a, part), a),
        markup(raw_details(a)) == markup(raw_details(b)),
        shows(raw_details(a), a),
{
    broadcast use {
        lemma_markup_concat,
        lemma_markup_escaped,
        lemma_shows_itself,
        lemma_shows_concat,
    };

}

} // verus!
