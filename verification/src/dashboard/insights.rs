//! How the library is used.
use crate::dashboard::ages::format_relative_at;
use crate::decimal::{count_text, format_thousands, i64_text, thousands_text};
use crate::html::escape_html;
use crate::order::comes_before;
use crate::text::{copy_text, same_text, str_to_lowercase};
use vstd::prelude::*;

verus! {

use crate::dashboard::ages::relative;
use crate::decimal::{decimal, decimal_int, thousands};
use crate::html::escaped;
use crate::order::{lemma_text_before_total, lemma_text_before_transitive, text_before};
use crate::text::{lowercase_text, opt_view};

/// A library snippet with its use by the whole team.
#[derive(Debug)]
pub struct InsightRow {
    pub id: String,
    pub title: String,
    pub folder: Option<String>,
    pub created_at: i64,
    pub uses: i64,
    pub last_used: Option<i64>,
    /// Who uses it most.
    pub top_user: Option<String>,
}

/// How often a user has used a snippet.
#[derive(Debug)]
pub struct UsageRow {
    pub snippet_id: String,
    pub user: String,
    pub count: i64,
}

/// Who uses a snippet most, and how often: the first of those with the highest
/// count. None where nobody does.
pub open spec fn leader(l: Seq<UsageRow>, id: Seq<char>) -> Option<(Seq<char>, int)>
    decreases l.len(),
{
    if l.len() == 0 {
        None
    } else {
        let before = leader(l.drop_last(), id);
        let u = l.last();
        if u.snippet_id@ != id {
            before
        } else {
            let best = match before {
                Some(b) => b,
                None => (Seq::empty(), -1),
            };
            if u.count > best.1 {
                Some((u.user@, u.count as int))
            } else {
                Some(best)
            }
        }
    }
}

/// Who uses a snippet most.
pub open spec fn top_user(l: Seq<UsageRow>, id: Seq<char>) -> Option<Seq<char>> {
    match leader(l, id) {
        Some(b) => Some(b.0),
        None => None,
    }
}

/// Who uses a snippet most.
pub fn find_top_user(l: &Vec<UsageRow>, id: &str) -> (r: Option<String>)
    ensures
        opt_view(r) == top_user(l@, id@),
{
    let n: usize = l.len();
    let mut found = false;
    let mut name: String = String::new();
    let mut best: i64 = -1;
    assert(l@.take(0) =~= Seq::<UsageRow>::empty());
    assert(name@ =~= Seq::<char>::empty());
    for i in 0..n
        invariant
            n == l@.len(),
            leader(l@.take(i as int), id@) == (if found {
                Some((name@, best as int))
            } else {
                None
            }),
            !found ==> name@ == Seq::<char>::empty() && best == -1,
    {
        proof {
            let t = l@.take(i + 1);
            assert(t.drop_last() =~= l@.take(i as int));
            assert(t.last() == l@[i as int]);
        }
        if same_text(l[i].snippet_id.as_str(), id) {
            found = true;
            if l[i].count > best {
                best = l[i].count;
                name = copy_text(l[i].user.as_str());
            }
        }
    }
    assert(l@.take(n as int) =~= l@);
    if found {
        Some(name)
    } else {
        None
    }
}

/// What the table is sorted by.
#[derive(Copy, Clone, Debug, PartialEq, Eq, Structural)]
pub enum InsightSort {
    /// Most used first.
    Uses,
    /// Most recently used first.
    Recent,
    /// Oldest first.
    Age,
    /// By title.
    Title,
}

/// What a request asks to sort by.
pub fn insight_sort(key: &str) -> (r: InsightSort)
    ensures
        r == (if key@ == "age"@ {
            InsightSort::Age
        } else if key@ == "recent"@ {
            InsightSort::Recent
        } else if key@ == "title"@ {
            InsightSort::Title
        } else {
            InsightSort::Uses
        }),
{
    if same_text(key, "age") {
        InsightSort::Age
    } else if same_text(key, "recent") {
        InsightSort::Recent
    } else if same_text(key, "title") {
        InsightSort::Title
    } else {
        InsightSort::Uses
    }
}

/// Whether one row has to come before another.
pub open spec fn precedes(s: InsightSort, a: InsightRow, b: InsightRow) -> bool {
    match s {
        InsightSort::Age => a.created_at < b.created_at,
        InsightSort::Recent => match (a.last_used, b.last_used) {
            (Some(x), Some(y)) => x > y,
            (Some(x), None) => true,
            _ => false,
        },
        InsightSort::Title => text_before(lowercase_text(a.title@), lowercase_text(b.title@)),
        InsightSort::Uses => a.uses > b.uses || (a.uses == b.uses && text_before(
            a.title@,
            b.title@,
        )),
    }
}

fn goes_first(s: InsightSort, a: &InsightRow, b: &InsightRow) -> (r: bool)
    ensures
        r == precedes(s, *a, *b),
{
    match s {
        InsightSort::Age => a.created_at < b.created_at,
        InsightSort::Recent => match (a.last_used, b.last_used) {
            (Some(x), Some(y)) => x > y,
            (Some(x), None) => true,
            _ => false,
        },
        InsightSort::Title => {
            let x = str_to_lowercase(a.title.as_str());
            let y = str_to_lowercase(b.title.as_str());
            comes_before(x.as_str(), y.as_str())
        },
        InsightSort::Uses => a.uses > b.uses || (a.uses == b.uses && comes_before(
            a.title.as_str(),
            b.title.as_str(),
        )),
    }
}

/// The place of a row in a sorted list: after all those that it need not come
/// before.
pub open spec fn place(s: InsightSort, l: Seq<InsightRow>, e: InsightRow) -> int
    decreases l.len(),
{
    if l.len() == 0 {
        0
    } else if precedes(s, e, l.last()) {
        place(s, l.drop_last(), e)
    } else {
        l.len() as int
    }
}

/// The rows in order. Rows that need not precede each other stay as they were.
pub open spec fn in_order(s: InsightSort, l: Seq<InsightRow>) -> Seq<InsightRow>
    decreases l.len(),
{
    if l.len() == 0 {
        Seq::empty()
    } else {
        let before = in_order(s, l.drop_last());
        before.insert(place(s, before, l.last()), l.last())
    }
}

proof fn lemma_place(s: InsightSort, l: Seq<InsightRow>, e: InsightRow)
    ensures
        0 <= place(s, l, e) <= l.len(),
        forall|i: int| place(s, l, e) <= i < l.len() ==> precedes(s, e, #[trigger] l[i]),
        place(s, l, e) > 0 ==> !precedes(s, e, l[place(s, l, e) - 1]),
    decreases l.len(),
{
    if l.len() > 0 {
        lemma_place(s, l.drop_last(), e);
        let k = place(s, l, e);
        assert forall|i: int| k <= i < l.len() implies precedes(s, e, #[trigger] l[i]) by {
            if i < l.len() - 1 {
                assert(l.drop_last()[i] == l[i]);
            }
        }
    }
}

fn place_of(s: InsightSort, l: &Vec<InsightRow>, e: &InsightRow) -> (r: usize)
    ensures
        r == place(s, l@, *e),
        r <= l@.len(),
{
    let mut i: usize = l.len();
    assert(l@.take(i as int) =~= l@);
    while i > 0
        invariant
            i <= l@.len(),
            place(s, l@, *e) == place(s, l@.take(i as int), *e),
        decreases i,
    {
        proof {
            let t = l@.take(i as int);
            assert(t.drop_last() =~= l@.take(i - 1));
            assert(t.last() == l@[i - 1]);
        }
        if !goes_first(s, e, &l[i - 1]) {
            return i;
        }
        i = i - 1;
    }
    0
}

/// The rows in order. Rows that need not precede each other stay as they were.
pub fn sort_insights(rows: Vec<InsightRow>, s: InsightSort) -> (r: Vec<InsightRow>)
    ensures
        r@ == in_order(s, rows@),
{
    let ghost all = rows@;
    let mut rest: Vec<InsightRow> = rows;
    let mut todo: Vec<InsightRow> = Vec::new();
    let n: usize = rest.len();
    while rest.len() > 0
        invariant
            n == all.len(),
            rest@.len() + todo@.len() == n,
            rest@ == all.take(rest@.len() as int),
            forall|i: int|
                0 <= i < todo@.len() ==> #[trigger] todo@[i] == all[all.len() - 1 - i],
        decreases rest@.len(),
    {
        let ghost before = rest@;
        let e = rest.pop();
        if let Some(x) = e {
            assert(x == before.last());
            assert(rest@ =~= all.take(rest@.len() as int));
            todo.push(x);
        }
    }
    let mut out: Vec<InsightRow> = Vec::new();
    assert(all.take(0) =~= Seq::<InsightRow>::empty());
    while todo.len() > 0
        invariant
            n == all.len(),
            todo@.len() + out@.len() == n,
            forall|i: int|
                0 <= i < todo@.len() ==> #[trigger] todo@[i] == all[all.len() - 1 - i],
            out@ == in_order(s, all.take(n - todo@.len())),
        decreases todo@.len(),
    {
        let ghost done = n - todo@.len();
        let ghost before = todo@;
        if let Some(x) = todo.pop() {
            proof {
                assert(x == before[before.len() - 1]);
                assert(x == all[done]);
                let t = all.take(done + 1);
                assert(t.drop_last() =~= all.take(done));
                assert(t.last() == all[done]);
            }
            let k: usize = place_of(s, &out, &x);
            out.insert(k, x);
        }
    }
    assert(all.take(n as int) =~= all);
    out
}

proof fn lemma_precedes(s: InsightSort, a: InsightRow, b: InsightRow, c: InsightRow)
    ensures
        !(precedes(s, a, b) && precedes(s, b, a)),
        precedes(s, a, b) && precedes(s, b, c) ==> precedes(s, a, c),
        !precedes(s, b, a) && !precedes(s, c, b) ==> !precedes(s, c, a),
{
    lemma_text_before_total(a.title@, b.title@);
    lemma_text_before_total(b.title@, c.title@);
    lemma_text_before_total(a.title@, c.title@);
    let x = lowercase_text(a.title@);
    let y = lowercase_text(b.title@);
    let z = lowercase_text(c.title@);
    lemma_text_before_total(x, y);
    lemma_text_before_total(y, z);
    lemma_text_before_total(x, z);
    if text_before(a.title@, b.title@) && text_before(b.title@, c.title@) {
        lemma_text_before_transitive(a.title@, b.title@, c.title@);
    }
    if text_before(x, y) && text_before(y, z) {
        lemma_text_before_transitive(x, y, z);
    }
    if text_before(c.title@, a.title@) && text_before(a.title@, b.title@) {
        lemma_text_before_transitive(c.title@, a.title@, b.title@);
    }
    if text_before(b.title@, c.title@) && text_before(c.title@, a.title@) {
        lemma_text_before_transitive(b.title@, c.title@, a.title@);
    }
    if text_before(z, x) && text_before(x, y) {
        lemma_text_before_transitive(z, x, y);
    }
    if text_before(y, z) && text_before(z, x) {
        lemma_text_before_transitive(y, z, x);
    }
}

/// Sorting keeps exactly the rows that there were, and none comes before one that
/// has to precede it.
pub proof fn law_table_is_sorted(s: InsightSort, l: Seq<InsightRow>)
    ensures
        in_order(s, l).to_multiset() == l.to_multiset(),
        forall|i: int, j: int|
            0 <= i < j < in_order(s, l).len() ==> !precedes(
                s,
                #[trigger] in_order(s, l)[j],
                #[trigger] in_order(s, l)[i],
            ),
    decreases l.len(),
{
    broadcast use vstd::seq_lib::group_to_multiset_ensures;

    if l.len() > 0 {
        let front = l.drop_last();
        let e = l.last();
        let before = in_order(s, front);
        let after = in_order(s, l);
        law_table_is_sorted(s, front);
        lemma_place(s, before, e);
        let k = place(s, before, e);
        assert(front.push(e) =~= l);
        vstd::seq_lib::to_multiset_insert(before, k, e);
        vstd::seq_lib::to_multiset_build(front, e);
        assert forall|i: int, j: int| 0 <= i < j < after.len() implies !precedes(
            s,
            #[trigger] after[j],
            #[trigger] after[i],
        ) by {
            if j < k {
                assert(after[i] == before[i] && after[j] == before[j]);
            } else if j == k {
                assert(after[i] == before[i]);
                if i < k - 1 {
                    lemma_precedes(s, before[i], before[k - 1], e);
                }
            } else if i < k {
                assert(after[i] == before[i] && after[j] == before[j - 1]);
            } else if i == k {
                assert(after[j] == before[j - 1]);
                lemma_precedes(s, e, before[j - 1], e);
            } else {
                assert(after[i] == before[i - 1] && after[j] == before[j - 1]);
            }
        }
    }
}

/// All pastes together.
pub open spec fn total_uses(l: Seq<InsightRow>) -> int
    decreases l.len(),
{
    if l.len() == 0 {
        0
    } else {
        total_uses(l.drop_last()) + l.last().uses
    }
}

/// How many rows were used at all.
pub open spec fn used_rows(l: Seq<InsightRow>) -> nat
    decreases l.len(),
{
    if l.len() == 0 {
        0
    } else if l.last().uses > 0 {
        used_rows(l.drop_last()) + 1
    } else {
        used_rows(l.drop_last())
    }
}

fn sum_uses(l: &Vec<InsightRow>) -> (r: (i128, usize))
    ensures
        r.0 == total_uses(l@),
        r.0 > i128::MIN,
        r.1 == used_rows(l@),
        r.1 <= l@.len(),
{
    let n: usize = l.len();
    let mut sum: i128 = 0;
    let mut used: usize = 0;
    assert(l@.take(0) =~= Seq::<InsightRow>::empty());
    for i in 0..n
        invariant
            n == l@.len(),
            n <= usize::MAX,
            sum == total_uses(l@.take(i as int)),
            -(i * 0x8000_0000_0000_0000) <= sum <= i * 0x8000_0000_0000_0000,
            used == used_rows(l@.take(i as int)),
            used <= i,
    {
        proof {
            let t = l@.take(i + 1);
            assert(t.drop_last() =~= l@.take(i as int));
            assert(t.last() == l@[i as int]);
            assert((i + 1) * 0x8000_0000_0000_0000 <= 0xffff_ffff_ffff_ffff * 0x8000_0000_0000_0000)
                by (nonlinear_arith)
                requires
                    0 <= i < 0xffff_ffff_ffff_ffff,
            ;
            assert((i + 1) * 0x8000_0000_0000_0000 == i * 0x8000_0000_0000_0000
                + 0x8000_0000_0000_0000) by (nonlinear_arith);
        }
        sum = sum + l[i].uses as i128;
        if l[i].uses > 0 {
            used = used + 1;
        }
    }
    proof {
        assert(l@.take(n as int) =~= l@);
        assert(n * 0x8000_0000_0000_0000 <= 0xffff_ffff_ffff_ffff * 0x8000_0000_0000_0000)
            by (nonlinear_arith)
            requires
                0 <= n <= 0xffff_ffff_ffff_ffff,
        ;
    }
    (sum, used)
}

/// A remark below a figure.
pub open spec fn hint_html(hint: Seq<char>) -> Seq<char> {
    "<div class=\"insight-hint\">"@
        + escaped(hint)
        + "</div>"@
}

/// A remark below a figure.
fn hint_text(hint: &str) -> (r: String)
    ensures
        r@ == hint_html(hint@),
{
    let hint_e = escape_html(hint);
    let mut out: String = "<div class=\"insight-hint\">".to_owned();
    out.push_str(hint_e.as_str());
    out.push_str("</div>");
    out
}

/// A remark below a figure; nothing where there is none.
pub open spec fn hint_part(hint: Seq<char>) -> Seq<char> {
    if hint.len() > 0 {
        hint_html(hint)
    } else {
        Seq::empty()
    }
}

/// A remark below a figure; nothing where there is none.
fn hint_or_none(hint: &str) -> (r: String)
    ensures
        r@ == hint_part(hint@),
{
    if hint.unicode_len() > 0 {
        hint_text(hint)
    } else {
        let r: String = String::new();
        assert(r@ =~= Seq::<char>::empty());
        r
    }
}

/// A figure, from its parts.
pub open spec fn tile_html(value: Seq<char>, label: Seq<char>, hint: Seq<char>) -> Seq<char> {
    "<div class=\"insight-tile\"><div class=\"insight-value\">"@
        + escaped(value)
        + "</div><div class=\"insight-label\">"@
        + escaped(label)
        + "</div>"@
        + hint
        + "</div>"@
}

/// A figure, from its parts.
fn tile_text(value: &str, label: &str, hint: &str) -> (r: String)
    ensures
        r@ == tile_html(value@, label@, hint@),
{
    let value_e = escape_html(value);
    let label_e = escape_html(label);
    let mut out: String = "<div class=\"insight-tile\"><div class=\"insight-value\">".to_owned();
    out.push_str(value_e.as_str());
    out.push_str("</div><div class=\"insight-label\">");
    out.push_str(label_e.as_str());
    out.push_str("</div>");
    out.push_str(hint);
    out.push_str("</div>");
    out
}

/// A figure.
pub open spec fn tile(value: Seq<char>, label: Seq<char>, hint: Seq<char>) -> Seq<char> {
    tile_html(value, label, hint_part(hint))
}

/// A figure.
pub fn insight_tile(value: &str, label: &str, hint: &str) -> (r: String)
    ensures
        r@ == tile(value@, label@, hint@),
{
    let h = hint_or_none(hint);
    tile_text(value, label, h.as_str())
}

/// The figures at the head of the page.
pub open spec fn tiles(rows: Seq<InsightRow>) -> Seq<char> {
    "<div class=\"insight-tiles\">"@
        + tile(thousands(total_uses(rows)), "Total pastes"@, ""@)
        + tile(decimal(rows.len()), "Snippets"@, "in the library"@)
        + tile(decimal(used_rows(rows)), "Active"@, "pasted at least once"@)
        + tile(decimal((rows.len() - used_rows(rows)) as nat), "Never used"@, "candidates to prune"@)
        + "</div>"@
}

/// The figures at the head of the page.
fn tiles_text(rows: &Vec<InsightRow>) -> (r: String)
    ensures
        r@ == tiles(rows@),
{
    let sums = sum_uses(rows);
    let n: usize = rows.len();
    let pastes = thousands_text(sums.0);
    let count = count_text(n);
    let active = count_text(sums.1);
    let never = count_text(n - sums.1);
    let mut out: String = "<div class=\"insight-tiles\">".to_owned();
    let p1 = insight_tile(pastes.as_str(), "Total pastes", "");
    out.push_str(p1.as_str());
    let p2 = insight_tile(count.as_str(), "Snippets", "in the library");
    out.push_str(p2.as_str());
    let p3 = insight_tile(active.as_str(), "Active", "pasted at least once");
    out.push_str(p3.as_str());
    let p4 = insight_tile(never.as_str(), "Never used", "candidates to prune");
    out.push_str(p4.as_str());
    out.push_str("</div>");
    out
}

/// The head of a column, from its parts.
pub open spec fn header_html(
    key: Seq<char>,
    label: Seq<char>,
    class: Seq<char>,
    mark: Seq<char>,
) -> Seq<char> {
    "<th"@
        + class
        + "><a href=\"/dashboard/library/insights?sort="@
        + key
        + "\">"@
        + label
        + mark
        + "</a></th>"@
}

/// The head of a column, from its parts.
fn header_text(key: &str, label: &str, class: &str, mark: &str) -> (r: String)
    ensures
        r@ == header_html(key@, label@, class@, mark@),
{
    let mut out: String = "<th".to_owned();
    out.push_str(class);
    out.push_str("><a href=\"/dashboard/library/insights?sort=");
    out.push_str(key);
    out.push_str("\">");
    out.push_str(label);
    out.push_str(mark);
    out.push_str("</a></th>");
    out
}

/// The head of a column that the table can be sorted by. The one it is sorted by
/// is marked.
pub open spec fn header(sort: Seq<char>, key: Seq<char>, label: Seq<char>, numeric: bool) -> Seq<
    char,
> {
    header_html(
        key,
        label,
        if numeric {
            " class=\"n\""@
        } else {
            ""@
        },
        if sort == key {
            " \u{2193}"@
        } else {
            ""@
        },
    )
}

fn header_of(sort: &str, key: &str, label: &str, numeric: bool) -> (r: String)
    ensures
        r@ == header(sort@, key@, label@, numeric),
{
    header_text(
        key,
        label,
        if numeric {
            " class=\"n\""
        } else {
            ""
        },
        if same_text(sort, key) {
            " \u{2193}"
        } else {
            ""
        },
    )
}

/// The folder of a row.
pub open spec fn folder_cell(f: Option<Seq<char>>) -> Seq<char> {
    match f {
        Some(p) => if p.len() == 0 {
            "<span class=\"muted\">Unfiled</span>"@
        } else {
            escaped(p)
        },
        None => "<span class=\"muted\">Unfiled</span>"@,
    }
}

fn folder_cell_text(f: &Option<String>) -> (r: String)
    ensures
        r@ == folder_cell(opt_view(*f)),
{
    if let Some(p) = f {
        if p.as_str().unicode_len() > 0 {
            return escape_html(p.as_str());
        }
    }
    "<span class=\"muted\">Unfiled</span>".to_owned()
}

/// When a row was last used.
pub open spec fn last_cell(t: Option<i64>, now: i64) -> Seq<char> {
    match t {
        Some(x) => relative(now, x),
        None => "<span class=\"muted\">never</span>"@,
    }
}

fn last_cell_text(t: Option<i64>, now: i64) -> (r: String)
    ensures
        r@ == last_cell(t, now),
{
    match t {
        Some(x) => format_relative_at(now, x),
        None => "<span class=\"muted\">never</span>".to_owned(),
    }
}

/// How often a row was used.
pub open spec fn uses_cell(n: i64) -> Seq<char> {
    if n == 0 {
        "<span class=\"muted\">0</span>"@
    } else {
        thousands(n as int)
    }
}

fn uses_cell_text(n: i64) -> (r: String)
    ensures
        r@ == uses_cell(n),
{
    if n == 0 {
        "<span class=\"muted\">0</span>".to_owned()
    } else {
        format_thousands(n)
    }
}

/// How many tickets a snippet was used in; zero where it is not listed.
pub open spec fn tickets_of(l: Seq<(String, i64)>, id: Seq<char>) -> i64
    decreases l.len(),
{
    if l.len() == 0 {
        0
    } else if l.last().0@ == id {
        l.last().1
    } else {
        tickets_of(l.drop_last(), id)
    }
}

fn find_tickets(l: &Vec<(String, i64)>, id: &str) -> (r: i64)
    ensures
        r == tickets_of(l@, id@),
{
    let mut i: usize = l.len();
    assert(l@.take(i as int) =~= l@);
    while i > 0
        invariant
            i <= l@.len(),
            tickets_of(l@, id@) == tickets_of(l@.take(i as int), id@),
        decreases i,
    {
        proof {
            let t = l@.take(i as int);
            assert(t.drop_last() =~= l@.take(i - 1));
            assert(t.last() == l@[i - 1]);
        }
        if same_text(l[i - 1].0.as_str(), id) {
            return l[i - 1].1;
        }
        i = i - 1;
    }
    0
}

/// The number of tickets, with a link to them.
pub open spec fn ticket_link(id: Seq<char>, n: i64) -> Seq<char> {
    "<td class=\"n\"><a href=\"/dashboard/library/snippet-tickets/"@
        + escaped(id)
        + "\">"@
        + decimal_int(n as int)
        + "</a></td>"@
}

/// The number of tickets, with a link to them.
fn ticket_link_text(id: &str, n: i64) -> (r: String)
    ensures
        r@ == ticket_link(id@, n),
{
    let id_e = escape_html(id);
    let n_n = i64_text(n);
    let mut out: String = "<td class=\"n\"><a href=\"/dashboard/library/snippet-tickets/".to_owned();
    out.push_str(id_e.as_str());
    out.push_str("\">");
    out.push_str(n_n.as_str());
    out.push_str("</a></td>");
    out
}

/// The cell with the number of tickets; nothing where tickets are not linked.
pub open spec fn tickets_cell(tickets: Option<Seq<(String, i64)>>, id: Seq<char>) -> Seq<char> {
    match tickets {
        Some(l) => if tickets_of(l, id) == 0 {
            "<td class=\"n muted\">0</td>"@
        } else {
            ticket_link(id, tickets_of(l, id))
        },
        None => Seq::empty(),
    }
}

/// What tickets hold, where they are linked.
pub open spec fn tickets_view(t: Option<&Vec<(String, i64)>>) -> Option<Seq<(String, i64)>> {
    match t {
        Some(l) => Some(l@),
        None => None,
    }
}

fn tickets_cell_text(tickets: Option<&Vec<(String, i64)>>, id: &str) -> (r: String)
    ensures
        r@ == tickets_cell(tickets_view(tickets), id@),
{
    match tickets {
        Some(l) => {
            let n: i64 = find_tickets(l, id);
            if n == 0 {
                "<td class=\"n muted\">0</td>".to_owned()
            } else {
                ticket_link_text(id, n)
            }
        },
        None => {
            let e: String = String::new();
            assert(e@ =~= Seq::<char>::empty());
            e
        },
    }
}

/// A row of the table, from its parts.
pub open spec fn row_html(
    x: InsightRow,
    stale: Seq<char>,
    folder: Seq<char>,
    uses: Seq<char>,
    last: Seq<char>,
    age: Seq<char>,
    top: Seq<char>,
    tickets: Seq<char>,
) -> Seq<char> {
    "<tr"@
        + stale
        + "><td><a href=\"/dashboard/library#lib-"@
        + escaped(x.id@)
        + "\">"@
        + escaped(x.title@)
        + "</a></td><td class=\"fold\">"@
        + folder
        + "</td><td class=\"n\">"@
        + uses
        + "</td><td>"@
        + last
        + "</td><td>"@
        + age
        + "</td><td class=\"muted\">"@
        + top
        + "</td>"@
        + tickets
        + "</tr>"@
}

/// A row of the table, from its parts.
fn row_text(x: &InsightRow, stale: &str, folder: &str, uses: &str, last: &str, age: &str, top: &str, tickets: &str) -> (r: String)
    ensures
        r@ == row_html(*x, stale@, folder@, uses@, last@, age@, top@, tickets@),
{
    let x_id_e = escape_html(x.id.as_str());
    let x_title_e = escape_html(x.title.as_str());
    let mut out: String = "<tr".to_owned();
    out.push_str(stale);
    out.push_str("><td><a href=\"/dashboard/library#lib-");
    out.push_str(x_id_e.as_str());
    out.push_str("\">");
    out.push_str(x_title_e.as_str());
    out.push_str("</a></td><td class=\"fold\">");
    out.push_str(folder);
    out.push_str("</td><td class=\"n\">");
    out.push_str(uses);
    out.push_str("</td><td>");
    out.push_str(last);
    out.push_str("</td><td>");
    out.push_str(age);
    out.push_str("</td><td class=\"muted\">");
    out.push_str(top);
    out.push_str("</td>");
    out.push_str(tickets);
    out.push_str("</tr>");
    out
}

/// Who uses a row most, as it is shown.
pub open spec fn top_cell(u: Option<Seq<char>>) -> Seq<char> {
    match u {
        Some(n) => escaped(n),
        None => Seq::empty(),
    }
}

/// A row of the table, as shown at `now`.
pub open spec fn insight_row(
    x: InsightRow,
    tickets: Option<Seq<(String, i64)>>,
    now: i64,
) -> Seq<char> {
    row_html(
        x,
        if x.uses == 0 {
            " class=\"insight-stale\""@
        } else {
            ""@
        },
        folder_cell(opt_view(x.folder)),
        uses_cell(x.uses),
        last_cell(x.last_used, now),
        relative(now, x.created_at),
        top_cell(opt_view(x.top_user)),
        tickets_cell(tickets, x.id@),
    )
}

fn insight_row_text(x: &InsightRow, tickets: Option<&Vec<(String, i64)>>, now: i64) -> (r: String)
    ensures
        r@ == insight_row(*x, tickets_view(tickets), now),
{
    let folder = folder_cell_text(&x.folder);
    let uses = uses_cell_text(x.uses);
    let last = last_cell_text(x.last_used, now);
    let age = format_relative_at(now, x.created_at);
    let top = match &x.top_user {
        Some(n) => escape_html(n.as_str()),
        None => String::new(),
    };
    assert(x.top_user is None ==> top@ =~= Seq::<char>::empty());
    let t = tickets_cell_text(tickets, x.id.as_str());
    row_text(
        x,
        if x.uses == 0 {
            " class=\"insight-stale\""
        } else {
            ""
        },
        folder.as_str(),
        uses.as_str(),
        last.as_str(),
        age.as_str(),
        top.as_str(),
        t.as_str(),
    )
}

/// The rows of the table.
pub open spec fn insight_rows(
    l: Seq<InsightRow>,
    tickets: Option<Seq<(String, i64)>>,
    now: i64,
) -> Seq<char>
    decreases l.len(),
{
    if l.len() == 0 {
        Seq::empty()
    } else {
        insight_rows(l.drop_last(), tickets, now) + insight_row(l.last(), tickets, now)
    }
}

fn insight_rows_text(
    l: &Vec<InsightRow>,
    tickets: Option<&Vec<(String, i64)>>,
    now: i64,
) -> (r: String)
    ensures
        r@ == insight_rows(l@, tickets_view(tickets), now),
{
    let n: usize = l.len();
    let mut out: String = String::new();
    assert(l@.take(0) =~= Seq::<InsightRow>::empty());
    assert(out@ =~= Seq::<char>::empty());
    for i in 0..n
        invariant
            n == l@.len(),
            out@ == insight_rows(l@.take(i as int), tickets_view(tickets), now),
    {
        proof {
            let t = l@.take(i + 1);
            assert(t.drop_last() =~= l@.take(i as int));
            assert(t.last() == l@[i as int]);
        }
        let s = insight_row_text(&l[i], tickets, now);
        out.push_str(s.as_str());
    }
    assert(l@.take(n as int) =~= l@);
    out
}

/// The head of the column of tickets, where they are linked.
pub open spec fn tickets_header(linked: bool) -> Seq<char> {
    if linked {
        "<th class=\"n\">Tickets</th>"@
    } else {
        ""@
    }
}

/// The table.
pub open spec fn table(
    l: Seq<InsightRow>,
    sort: Seq<char>,
    tickets: Option<Seq<(String, i64)>>,
    now: i64,
) -> Seq<char> {
    if l.len() == 0 {
        NO_LIBRARY_SNIPPETS@
    } else {
        "<div class=\"scroll-x\"><table class=\"insights-table\"><thead><tr>"@
            + header(sort, "title"@, "Snippet"@, false)
            + "<th>Folder</th>"@
            + header(sort, "uses"@, "Uses"@, true)
            + header(sort, "recent"@, "Last used"@, false)
            + header(sort, "age"@, "Created"@, false)
            + "<th>Top user</th>"@
            + tickets_header(tickets is Some)
            + "</tr></thead><tbody>"@
            + insight_rows(l, tickets, now)
            + "</tbody></table></div>"@
    }
}

fn table_text(
    l: &Vec<InsightRow>,
    sort: &str,
    tickets: Option<&Vec<(String, i64)>>,
    now: i64,
) -> (r: String)
    ensures
        r@ == table(l@, sort@, tickets_view(tickets), now),
{
    if l.len() == 0 {
        return NO_LIBRARY_SNIPPETS.to_owned();
    }
    let title = header_of(sort, "title", "Snippet", false);
    let uses = header_of(sort, "uses", "Uses", true);
    let recent = header_of(sort, "recent", "Last used", false);
    let age = header_of(sort, "age", "Created", false);
    let rows = insight_rows_text(l, tickets, now);
    let mut out: String =
        "<div class=\"scroll-x\"><table class=\"insights-table\"><thead><tr>".to_owned();
    out.push_str(title.as_str());
    out.push_str("<th>Folder</th>");
    out.push_str(uses.as_str());
    out.push_str(recent.as_str());
    out.push_str(age.as_str());
    out.push_str("<th>Top user</th>");
    out.push_str(
        if tickets.is_some() {
            "<th class=\"n\">Tickets</th>"
        } else {
            ""
        },
    );
    out.push_str("</tr></thead><tbody>");
    out.push_str(rows.as_str());
    out.push_str("</tbody></table></div>");
    out
}

/// That the library is empty.
pub const NO_LIBRARY_SNIPPETS: &'static str =
    "<p class=\"muted\">No library snippets yet.</p>";

/// The head of the page.
pub const INSIGHTS_HEAD: &'static str =
    "<div class=\"insights-head\"><h1>Library insights</h1><a class=\"btn\" \
        href=\"/dashboard/library\">&larr; Back to library</a></div><p class=\"muted\">Team-wide \
        usage across the snippet library. Counts are cumulative (we don't keep a usage history \
        yet, so there are no time-windowed trends).</p>";

/// What the table is sorted by where a request says nothing.
pub open spec fn sort_key(q: Option<Seq<char>>) -> Seq<char> {
    match q {
        Some(s) => s,
        None => "uses"@,
    }
}

/// The order that a key stands for.
pub open spec fn sort_of(key: Seq<char>) -> InsightSort {
    if key == "age"@ {
        InsightSort::Age
    } else if key == "recent"@ {
        InsightSort::Recent
    } else if key == "title"@ {
        InsightSort::Title
    } else {
        InsightSort::Uses
    }
}

/// The content of the insights page, as shown at `now`.
pub open spec fn insights_html(
    rows: Seq<InsightRow>,
    sort: Seq<char>,
    tickets: Option<Seq<(String, i64)>>,
    now: i64,
) -> Seq<char> {
    INSIGHTS_HEAD@ + tiles(rows) + table(in_order(sort_of(sort), rows), sort, tickets, now)
}

/// The content of the insights page, as shown at `now`. Tickets are given where
/// they are linked.
pub fn library_insights_page(
    rows: Vec<InsightRow>,
    sort: &Option<String>,
    tickets: Option<&Vec<(String, i64)>>,
    now: i64,
) -> (r: String)
    ensures
        r@ == insights_html(rows@, sort_key(opt_view(*sort)), tickets_view(tickets), now),
{
    let key = match sort {
        Some(s) => s.as_str(),
        None => "uses",
    };
    let figures = tiles_text(&rows);
    let sorted = sort_insights(rows, insight_sort(key));
    let t = table_text(&sorted, key, tickets, now);
    let mut out: String = INSIGHTS_HEAD.to_owned();
    out.push_str(figures.as_str());
    out.push_str(t.as_str());
    out
}

/// A ticket in which a snippet was used.
#[derive(Debug)]
pub struct TicketRow {
    pub reference: String,
    pub pastes: i64,
    pub last_used: i64,
}

/// A ticket, from its parts.
pub open spec fn ticket_html(t: TicketRow, last: Seq<char>) -> Seq<char> {
    "<tr><td>"@
        + escaped(t.reference@)
        + "</td><td class=\"n\">"@
        + decimal_int(t.pastes as int)
        + "</td><td>"@
        + last
        + "</td></tr>"@
}

/// A ticket, from its parts.
fn ticket_html_text(t: &TicketRow, last: &str) -> (r: String)
    ensures
        r@ == ticket_html(*t, last@),
{
    let t_reference_e = escape_html(t.reference.as_str());
    let t_pastes_n = i64_text(t.pastes);
    let mut out: String = "<tr><td>".to_owned();
    out.push_str(t_reference_e.as_str());
    out.push_str("</td><td class=\"n\">");
    out.push_str(t_pastes_n.as_str());
    out.push_str("</td><td>");
    out.push_str(last);
    out.push_str("</td></tr>");
    out
}

/// A ticket, as shown at `now`.
pub open spec fn ticket_row(t: TicketRow, now: i64) -> Seq<char> {
    ticket_html(t, relative(now, t.last_used))
}

fn ticket_row_text(t: &TicketRow, now: i64) -> (r: String)
    ensures
        r@ == ticket_row(*t, now),
{
    let last = format_relative_at(now, t.last_used);
    ticket_html_text(t, last.as_str())
}

/// Tickets, as shown at `now`.
pub open spec fn ticket_rows(l: Seq<TicketRow>, now: i64) -> Seq<char>
    decreases l.len(),
{
    if l.len() == 0 {
        Seq::empty()
    } else {
        ticket_rows(l.drop_last(), now) + ticket_row(l.last(), now)
    }
}

/// Tickets, as shown at `now`.
fn ticket_rows_text(l: &Vec<TicketRow>, now: i64) -> (r: String)
    ensures
        r@ == ticket_rows(l@, now),
{
    let mut out: String = String::new();
    let n: usize = l.len();
    assert(l@.take(0) =~= Seq::<TicketRow>::empty());
    assert(out@ =~= Seq::<char>::empty());
    for i in 0..n
        invariant
            n == l@.len(),
            out@ == ticket_rows(l@.take(i as int), now),
    {
        proof {
            let t = l@.take(i + 1);
            assert(t.drop_last() =~= l@.take(i as int));
            assert(t.last() == l@[i as int]);
        }
        let s = ticket_row_text(&l[i], now);
        out.push_str(s.as_str());
    }
    assert(l@.take(n as int) =~= l@);
    out
}

/// The head of the page of tickets.
pub const TICKETS_HEAD: &'static str =
    "<div class=\"insights-head\"><h1>Tickets for this snippet</h1><a class=\"btn\" \
        href=\"/dashboard/library/insights\">&larr; Back to insights</a></div>";

/// The head of the table of tickets.
pub const TICKETS_TABLE_OPEN: &'static str =
    "<div class=\"scroll-x\"><table class=\"insights-table\"><thead><tr><th>Ticket</th><th \
        class=\"n\">Pastes</th><th>Last used</th></tr></thead><tbody>";

/// That a snippet was used in no ticket.
pub const NO_TICKETS: &'static str =
    "<p class=\"muted\">No ticket-linked pastes recorded for this snippet yet.</p>";

/// Which snippet the tickets are about.
pub open spec fn snippet_line(title: Seq<char>) -> Seq<char> {
    "<p class=\"muted\">Snippet: <strong>"@
        + escaped(title)
        + "</strong>. Pastes recorded while a support ticket was open. The reference links to \
            your ticketing tool; titles live there.</p>"@
}

/// Which snippet the tickets are about.
fn snippet_line_text(title: &str) -> (r: String)
    ensures
        r@ == snippet_line(title@),
{
    let title_e = escape_html(title);
    let mut out: String = "<p class=\"muted\">Snippet: <strong>".to_owned();
    out.push_str(title_e.as_str());
    out.push_str("</strong>. Pastes recorded while a support ticket was open. The reference links to \
                your ticketing tool; titles live there.</p>");
    out
}

/// The table of tickets.
pub open spec fn ticket_table(l: Seq<TicketRow>, now: i64) -> Seq<char> {
    if l.len() == 0 {
        NO_TICKETS@
    } else {
        TICKETS_TABLE_OPEN@ + ticket_rows(l, now) + "</tbody></table></div>"@
    }
}

/// The table of tickets.
fn ticket_table_text(l: &Vec<TicketRow>, now: i64) -> (r: String)
    ensures
        r@ == ticket_table(l@, now),
{
    if l.len() == 0 {
        NO_TICKETS.to_owned()
    } else {
        {
            let rows = ticket_rows_text(l, now);
            let mut out: String = TICKETS_TABLE_OPEN.to_owned();
            out.push_str(rows.as_str());
            out.push_str("</tbody></table></div>");
            out
        }
    }
}

/// The content of the page of a snippet's tickets, as shown at `now`.
pub fn library_snippet_tickets_page(
    title: &Option<String>,
    tickets: &Vec<TicketRow>,
    now: i64,
) -> (r: String)
    ensures
        r@ == TICKETS_HEAD@ + snippet_line(
            match *title {
                Some(t) => t@,
                None => "(deleted snippet)"@,
            },
        ) + ticket_table(tickets@, now),
{
    let name = match title {
        Some(t) => t.as_str(),
        None => "(deleted snippet)",
    };
    let line = snippet_line_text(name);
    let t = ticket_table_text(tickets, now);
    let mut out: String = TICKETS_HEAD.to_owned();
    out.push_str(line.as_str());
    out.push_str(t.as_str());
    out
}

/// The table goes by what it is sorted by: the most used first, and those used alike by title;
/// the latest used first, and those never used last; the oldest first; or by title, ignoring
/// case.
pub proof fn law_the_key_orders_the_table(l: Seq<InsightRow>, i: int, j: int)
    requires
        0 <= i < j < l.len(),
    ensures
        ({
            let (a, b) = (
                in_order(InsightSort::Uses, l)[i],
                in_order(InsightSort::Uses, l)[j],
            );
            a.uses > b.uses || (a.uses == b.uses && !text_before(b.title@, a.title@))
        }),
        ({
            let (a, b) = (
                in_order(InsightSort::Recent, l)[i],
                in_order(InsightSort::Recent, l)[j],
            );
            b.last_used is Some ==> a.last_used is Some && a.last_used->0 >= b.last_used->0
        }),
        in_order(InsightSort::Age, l)[i].created_at <= in_order(InsightSort::Age, l)[j].created_at,
        !text_before(
            lowercase_text(in_order(InsightSort::Title, l)[j].title@),
            lowercase_text(in_order(InsightSort::Title, l)[i].title@),
        ),
{
    lemma_in_order_len(InsightSort::Uses, l);
    lemma_in_order_len(InsightSort::Recent, l);
    lemma_in_order_len(InsightSort::Age, l);
    lemma_in_order_len(InsightSort::Title, l);
    law_table_is_sorted(InsightSort::Uses, l);
    law_table_is_sorted(InsightSort::Recent, l);
    law_table_is_sorted(InsightSort::Age, l);
    law_table_is_sorted(InsightSort::Title, l);
    let u = in_order(InsightSort::Uses, l);
    assert(!precedes(InsightSort::Uses, u[j], u[i]));
    let r = in_order(InsightSort::Recent, l);
    assert(!precedes(InsightSort::Recent, r[j], r[i]));
    let c = in_order(InsightSort::Age, l);
    assert(!precedes(InsightSort::Age, c[j], c[i]));
    let t = in_order(InsightSort::Title, l);
    assert(!precedes(InsightSort::Title, t[j], t[i]));
}

proof fn lemma_in_order_len(s: InsightSort, l: Seq<InsightRow>)
    ensures
        in_order(s, l).len() == l.len(),
    decreases l.len(),
{
    if l.len() > 0 {
        lemma_in_order_len(s, l.drop_last());
        lemma_place(s, in_order(s, l.drop_last()), l.last());
    }
}

/// The top user of a snippet is one who pasted it most: nobody pasted it more often, and
/// nobody before them in the list as often. A snippet that nobody pasted has none.
pub proof fn law_the_top_user_pasted_most(l: Seq<UsageRow>, id: Seq<char>, i: int)
    requires
        forall|k: int| 0 <= k < l.len() ==> (#[trigger] l[k]).count >= 0,
        0 <= i < l.len(),
        l[i].snippet_id@ == id,
        forall|k: int|
            0 <= k < l.len() && (#[trigger] l[k]).snippet_id@ == id ==> l[k].count <= l[i].count
                && (k < i ==> l[k].count < l[i].count),
    ensures
        top_user(l, id) == Some(l[i].user@),
{
    lemma_leader(l, id);
    let (u, n) = leader(l, id)->0;
    let k = choose|k: int| is_leader(l, id, k, u, n);
    assert(l[k].count <= l[i].count);
    assert(l[i].count <= l[k].count);
    if k < i {
        assert(l[k].count < l[i].count);
    }
    if i < k {
        assert(l[i].count < l[k].count);
    }
}

/// A snippet that nobody pasted has no top user.
pub proof fn law_unused_snippets_have_no_top_user(l: Seq<UsageRow>, id: Seq<char>)
    requires
        forall|k: int| 0 <= k < l.len() ==> (#[trigger] l[k]).snippet_id@ != id,
    ensures
        top_user(l, id) is None,
    decreases l.len(),
{
    if l.len() > 0 {
        let t = l.drop_last();
        assert forall|k: int| 0 <= k < t.len() implies (#[trigger] t[k]).snippet_id@ != id by {
            assert(t[k] == l[k]);
        }
        assert(l[l.len() - 1].snippet_id@ != id);
        law_unused_snippets_have_no_top_user(t, id);
    }
}

spec fn is_leader(l: Seq<UsageRow>, id: Seq<char>, k: int, user: Seq<char>, n: int) -> bool {
    &&& 0 <= k < l.len()
    &&& l[k].snippet_id@ == id
    &&& l[k].user@ == user
    &&& l[k].count == n
    &&& forall|j: int|
        0 <= j < l.len() && (#[trigger] l[j]).snippet_id@ == id ==> l[j].count <= n && (j < k
            ==> l[j].count < n)
}

proof fn lemma_leader(l: Seq<UsageRow>, id: Seq<char>)
    requires
        forall|k: int| 0 <= k < l.len() ==> (#[trigger] l[k]).count >= 0,
    ensures
        leader(l, id) matches Some(b) ==> exists|k: int| is_leader(l, id, k, b.0, b.1),
        leader(l, id) is None ==> forall|k: int|
            0 <= k < l.len() ==> (#[trigger] l[k]).snippet_id@ != id,
    decreases l.len(),
{
    if l.len() > 0 {
        let t = l.drop_last();
        assert forall|k: int| 0 <= k < t.len() implies (#[trigger] t[k]).count >= 0 by {
            assert(t[k] == l[k]);
        }
        lemma_leader(t, id);
        let u = l[l.len() - 1];
        assert(u.count >= 0);
        let before = leader(t, id);
        if u.snippet_id@ == id && (before is None || u.count > (before->0).1) {
            assert forall|j: int|
                0 <= j < l.len() && (#[trigger] l[j]).snippet_id@ == id implies l[j].count
                <= u.count && (j < l.len() - 1 ==> l[j].count < u.count) by {
                if j < t.len() {
                    assert(t[j] == l[j]);
                    if let Some(b) = before {
                        let k = choose|k: int| is_leader(t, id, k, b.0, b.1);
                        assert(t[j].count <= b.1);
                    }
                }
            }
            assert(is_leader(l, id, l.len() - 1, u.user@, u.count as int));
            assert(leader(l, id) == Some((u.user@, u.count as int)));
            let b = leader(l, id)->0;
            assert(is_leader(l, id, l.len() - 1, b.0, b.1));
        } else if before is Some {
            let b = before->0;
            let k = choose|k: int| is_leader(t, id, k, b.0, b.1);
            assert(l[k] == t[k]);
            assert forall|j: int|
                0 <= j < l.len() && (#[trigger] l[j]).snippet_id@ == id implies l[j].count <= b.1
                && (j < k ==> l[j].count < b.1) by {
                if j < t.len() {
                    assert(t[j] == l[j]);
                }
            }
            assert(is_leader(l, id, k, b.0, b.1));
            assert(leader(l, id) == before);
        } else {
            assert(leader(l, id) is None);
            assert forall|k: int| 0 <= k < l.len() implies (#[trigger] l[k]).snippet_id@ != id by {
                if k < t.len() {
                    assert(t[k] == l[k]);
                }
            }
        }
    }
}

/// The totals of the page add up: those of two lists together are the sums of theirs, and a
/// row counts its own pastes, and as active where it has any.
pub proof fn law_totals_add_up(a: Seq<InsightRow>, b: Seq<InsightRow>, x: InsightRow)
    ensures
        total_uses(a + b) == total_uses(a) + total_uses(b),
        used_rows(a + b) == used_rows(a) + used_rows(b),
        total_uses(seq![x]) == x.uses,
        used_rows(seq![x]) == if x.uses > 0 {
            1nat
        } else {
            0nat
        },
    decreases b.len(),
{
    let none = Seq::<InsightRow>::empty();
    assert(seq![x].drop_last() =~= none);
    assert(total_uses(none) == 0);
    assert(used_rows(none) == 0);
    if b.len() == 0 {
        assert(a + b =~= a);
    } else {
        law_totals_add_up(a, b.drop_last(), x);
        assert((a + b).drop_last() =~= a + b.drop_last());
    }
}

} // verus!
