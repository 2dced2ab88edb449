//! The tree from which snippets are picked for an import or an export.
use crate::decimal::count_text;
use crate::html::escape_html;
use crate::order::sort_distinct;
use crate::text::{copy_text, push_text, same_text, str_to_lowercase};
use crate::trim::{split, trim_parts};
use vstd::prelude::*;

verus! {

use crate::decimal::decimal;
use crate::html::escaped;
use crate::order::{law_sorted_distinct, sorted_distinct};
use crate::paths::{law_slashes_part_segments, segments};
use crate::text::{lowercase_text, views, white_space};
use crate::trim::{
    all_blank,
    law_blank_texts,
    law_outer_blanks_are_trimmed,
    lemma_trimmed,
    trimmed,
};

/// A snippet that can be picked.
#[derive(Debug)]
pub struct TreeItem {
    pub key: String,
    pub title: String,
    pub folder: String,
    pub checked: bool,
    /// Whether it is marked as a duplicate.
    pub badge: bool,
}

/// What a snippet that can be picked holds.
pub struct ItemView {
    pub key: Seq<char>,
    pub title: Seq<char>,
    pub folder: Seq<char>,
    pub checked: bool,
    pub badge: bool,
}

impl View for TreeItem {
    type V = ItemView;

    open spec fn view(&self) -> ItemView {
        ItemView {
            key: self.key@,
            title: self.title@,
            folder: self.folder@,
            checked: self.checked,
            badge: self.badge,
        }
    }
}

/// A snippet with the folders that lead to it, from here on.
#[verifier::ext_equal]
pub struct Entry {
    pub way: Seq<Seq<char>>,
    pub item: ItemView,
}

/// The folder of snippets without one.
pub const NO_FOLDER: &'static str = "(no folder)";

/// The folders that lead to a snippet.
pub open spec fn way_to(folder: Seq<char>) -> Seq<Seq<char>> {
    if trimmed(folder).len() == 0 {
        seq![NO_FOLDER@]
    } else {
        segments(trimmed(folder))
    }
}

/// Snippets with the folders that lead to them.
pub open spec fn entries_of(items: Seq<TreeItem>) -> Seq<Entry> {
    Seq::new(items.len(), |i: int| Entry { way: way_to(items[i].folder@), item: items[i]@ })
}

/// The folders that come next on the ways.
pub open spec fn next_folders(l: Seq<Entry>) -> Seq<Seq<char>>
    decreases l.len(),
{
    if l.len() == 0 {
        Seq::empty()
    } else {
        let before = next_folders(l.drop_last());
        if l.last().way.len() == 0 {
            before
        } else {
            before.push(l.last().way[0])
        }
    }
}

/// The folders here, in order.
pub open spec fn folders_here(l: Seq<Entry>) -> Seq<Seq<char>> {
    sorted_distinct(next_folders(l))
}

/// The snippets in a folder or below it, with the rest of their ways.
pub open spec fn inside(l: Seq<Entry>, name: Seq<char>) -> Seq<Entry>
    decreases l.len(),
{
    if l.len() == 0 {
        Seq::empty()
    } else {
        let before = inside(l.drop_last(), name);
        let e = l.last();
        if e.way.len() > 0 && e.way[0] == name {
            before.push(Entry { way: e.way.skip(1), item: e.item })
        } else {
            before
        }
    }
}

/// Whether all snippets are marked as duplicates.
pub open spec fn all_badged(l: Seq<Entry>) -> bool {
    l.len() > 0 && forall|i: int| 0 <= i < l.len() ==> (#[trigger] l[i]).item.badge
}

/// The mark of a folder full of duplicates.
pub open spec fn folder_badge(all: bool) -> Seq<char> {
    if all {
        " <span class=\"imp-badge\">all duplicates</span>"@
    } else {
        ""@
    }
}

/// The mark of a duplicate.
pub open spec fn item_badge(badge: bool) -> Seq<char> {
    if badge {
        " <span class=\"imp-badge\">duplicate</span>"@
    } else {
        ""@
    }
}

/// The tick of a snippet.
pub open spec fn tick(checked: bool) -> Seq<char> {
    if checked {
        " checked"@
    } else {
        ""@
    }
}

/// The head of a folder.
pub open spec fn folder_open(name: Seq<char>, count: nat, badge: Seq<char>) -> Seq<char> {
    "<div class=\"imp-folder\"><div class=\"imp-folder-row\"><button type=\"button\" \
            class=\"imp-toggle\" aria-label=\"expand\">&#9656;</button><label><input \
            type=\"checkbox\" class=\"imp-folder-cb\" /> <strong>&#128193; "@
        + escaped(name)
        + "</strong> <span class=\"muted\">("@
        + decimal(count)
        + ")</span>"@
        + badge
        + "</label></div><div class=\"imp-children\" hidden>"@
}

/// The head of a folder.
fn folder_open_text(name: &str, count: usize, badge: &str) -> (r: String)
    ensures
        r@ == folder_open(name@, count as nat, badge@),
{
    let name_e = escape_html(name);
    let count_n = count_text(count);
    let mut out: String = "<div class=\"imp-folder\"><div class=\"imp-folder-row\"><button type=\"button\" \
                class=\"imp-toggle\" aria-label=\"expand\">&#9656;</button><label><input \
                type=\"checkbox\" class=\"imp-folder-cb\" /> <strong>&#128193; ".to_owned();
    out.push_str(name_e.as_str());
    out.push_str("</strong> <span class=\"muted\">(");
    out.push_str(count_n.as_str());
    out.push_str(")</span>");
    out.push_str(badge);
    out.push_str("</label></div><div class=\"imp-children\" hidden>");
    out
}

/// A snippet, from its parts.
pub open spec fn item_html_of(
    key: Seq<char>,
    title: Seq<char>,
    lower: Seq<char>,
    checked: Seq<char>,
    badge: Seq<char>,
) -> Seq<char> {
    "<div class=\"imp-item\" data-title=\""@
        + escaped(lower)
        + "\"><label><input type=\"checkbox\" class=\"imp-item-cb\" data-idx=\""@
        + escaped(key)
        + "\""@
        + checked
        + " /> "@
        + escaped(title)
        + badge
        + "</label></div>"@
}

/// A snippet, from its parts.
fn item_html_text(key: &str, title: &str, lower: &str, checked: &str, badge: &str) -> (r: String)
    ensures
        r@ == item_html_of(key@, title@, lower@, checked@, badge@),
{
    let lower_e = escape_html(lower);
    let key_e = escape_html(key);
    let title_e = escape_html(title);
    let mut out: String = "<div class=\"imp-item\" data-title=\"".to_owned();
    out.push_str(lower_e.as_str());
    out.push_str("\"><label><input type=\"checkbox\" class=\"imp-item-cb\" data-idx=\"");
    out.push_str(key_e.as_str());
    out.push_str("\"");
    out.push_str(checked);
    out.push_str(" /> ");
    out.push_str(title_e.as_str());
    out.push_str(badge);
    out.push_str("</label></div>");
    out
}

/// A snippet to pick.
pub open spec fn item_html(i: ItemView) -> Seq<char> {
    item_html_of(i.key, i.title, lowercase_text(i.title), tick(i.checked), item_badge(i.badge))
}

fn item_text(i: &TreeItem) -> (r: String)
    ensures
        r@ == item_html(i@),
{
    let lower = str_to_lowercase(i.title.as_str());
    item_html_text(
        i.key.as_str(),
        i.title.as_str(),
        lower.as_str(),
        if i.checked {
            " checked"
        } else {
            ""
        },
        if i.badge {
            " <span class=\"imp-badge\">duplicate</span>"
        } else {
            ""
        },
    )
}

/// The snippets that lie right here.
pub open spec fn items_here(l: Seq<Entry>) -> Seq<char>
    decreases l.len(),
{
    if l.len() == 0 {
        Seq::empty()
    } else {
        let before = items_here(l.drop_last());
        if l.last().way.len() == 0 {
            before + item_html(l.last().item)
        } else {
            before
        }
    }
}

/// The tree, at most `height` folders deep: the folders in order, each with what
/// is in it, then the snippets that lie right here.
pub open spec fn tree(l: Seq<Entry>, height: nat) -> Seq<char>
    decreases height, 1nat, 0nat,
{
    folders_tree(l, folders_here(l), height) + items_here(l)
}

/// These folders, each with what is in it.
pub open spec fn folders_tree(l: Seq<Entry>, names: Seq<Seq<char>>, height: nat) -> Seq<char>
    decreases height, 0nat, names.len(),
{
    if names.len() == 0 || height == 0 {
        Seq::empty()
    } else {
        let name = names.last();
        let child = inside(l, name);
        folders_tree(l, names.drop_last(), height) + folder_open(
            name,
            child.len(),
            folder_badge(all_badged(child)),
        ) + tree(child, (height - 1) as nat) + "</div></div>"@
    }
}

/// The length of the longest way.
pub open spec fn height_of(l: Seq<Entry>) -> nat
    decreases l.len(),
{
    if l.len() == 0 {
        0
    } else {
        let before = height_of(l.drop_last());
        if l.last().way.len() > before {
            l.last().way.len()
        } else {
            before
        }
    }
}

/// The ways of items, from the folder number `d` on, for the items at these
/// places.
pub open spec fn entries_at(
    items: Seq<TreeItem>,
    ways: Seq<Vec<String>>,
    places: Seq<usize>,
    d: int,
) -> Seq<Entry> {
    Seq::new(
        places.len(),
        |i: int|
            Entry {
                way: views(ways[places[i] as int]@).skip(d),
                item: items[places[i] as int]@,
            },
    )
}

/// Whether the places are places of items with ways at least `d` long.
pub open spec fn places_ok(
    items: Seq<TreeItem>,
    ways: Seq<Vec<String>>,
    places: Seq<usize>,
    d: int,
) -> bool {
    &&& items.len() == ways.len()
    &&& 0 <= d
    &&& forall|i: int|
        0 <= i < places.len() ==> (#[trigger] places[i]) < items.len() && ways[places[i] as int]@.len()
            >= d
}

fn names_at(
    items: &[TreeItem],
    ways: &Vec<Vec<String>>,
    places: &Vec<usize>,
    d: usize,
) -> (r: Vec<String>)
    requires
        places_ok(items@, ways@, places@, d as int),
    ensures
        views(r@) == folders_here(entries_at(items@, ways@, places@, d as int)),
{
    let n: usize = places.len();
    let ghost l = entries_at(items@, ways@, places@, d as int);
    let mut all: Vec<String> = Vec::new();
    assert(l.take(0) =~= Seq::<Entry>::empty());
    assert(views(all@) =~= Seq::<Seq<char>>::empty());
    for i in 0..n
        invariant
            n == places@.len(),
            places_ok(items@, ways@, places@, d as int),
            l == entries_at(items@, ways@, places@, d as int),
            views(all@) == next_folders(l.take(i as int)),
    {
        proof {
            let t = l.take(i + 1);
            assert(t.drop_last() =~= l.take(i as int));
            assert(t.last() == l[i as int]);
        }
        let p: usize = places[i];
        let k: usize = ways[p].len();
        assert(views(ways@[p as int]@).len() == k);
        if d < k {
            assert(l[i as int].way[0] == ways@[p as int]@[d as int]@);
            push_text(&mut all, copy_text(ways[p][d].as_str()));
        }
    }
    assert(l.take(n as int) =~= l);
    sort_distinct(&all)
}

fn places_inside(
    items: &[TreeItem],
    ways: &Vec<Vec<String>>,
    places: &Vec<usize>,
    d: usize,
    name: &str,
) -> (r: Vec<usize>)
    requires
        places_ok(items@, ways@, places@, d as int),
    ensures
        places_ok(items@, ways@, r@, d + 1),
        entries_at(items@, ways@, r@, d + 1) == inside(
            entries_at(items@, ways@, places@, d as int),
            name@,
        ),
        r@.len() <= places@.len(),
{
    let n: usize = places.len();
    let ghost l = entries_at(items@, ways@, places@, d as int);
    let mut out: Vec<usize> = Vec::new();
    assert(l.take(0) =~= Seq::<Entry>::empty());
    assert(entries_at(items@, ways@, out@, d + 1) =~= Seq::<Entry>::empty());
    for i in 0..n
        invariant
            n == places@.len(),
            places_ok(items@, ways@, places@, d as int),
            l == entries_at(items@, ways@, places@, d as int),
            places_ok(items@, ways@, out@, d + 1),
            entries_at(items@, ways@, out@, d + 1) == inside(l.take(i as int), name@),
            out@.len() <= i,
    {
        proof {
            let t = l.take(i + 1);
            assert(t.drop_last() =~= l.take(i as int));
            assert(t.last() == l[i as int]);
        }
        let p: usize = places[i];
        let k: usize = ways[p].len();
        assert(views(ways@[p as int]@).len() == k);
        if d < k {
            assert(l[i as int].way[0] == ways@[p as int]@[d as int]@);
            if same_text(ways[p][d].as_str(), name) {
                let ghost before = out@;
                out.push(p);
                proof {
                    assert(views(ways@[p as int]@).skip(d as int).skip(1) =~= views(
                        ways@[p as int]@,
                    ).skip(d + 1));
                    assert(entries_at(items@, ways@, out@, d + 1) =~= entries_at(
                        items@,
                        ways@,
                        before,
                        d + 1,
                    ).push(
                        Entry {
                            way: views(ways@[p as int]@).skip(d + 1),
                            item: items@[p as int]@,
                        },
                    ));
                }
            }
        }
    }
    assert(l.take(n as int) =~= l);
    out
}

fn badged_at(items: &[TreeItem], ways: &Vec<Vec<String>>, places: &Vec<usize>, d: usize) -> (r: bool)
    requires
        places_ok(items@, ways@, places@, d as int),
    ensures
        r == all_badged(entries_at(items@, ways@, places@, d as int)),
{
    let n: usize = places.len();
    if n == 0 {
        return false;
    }
    let ghost l = entries_at(items@, ways@, places@, d as int);
    for i in 0..n
        invariant
            n == places@.len(),
            n > 0,
            places_ok(items@, ways@, places@, d as int),
            l == entries_at(items@, ways@, places@, d as int),
            forall|j: int| 0 <= j < i ==> (#[trigger] l[j]).item.badge,
    {
        if !items[places[i]].badge {
            assert(!l[i as int].item.badge);
            return false;
        }
    }
    true
}

fn items_text(items: &[TreeItem], ways: &Vec<Vec<String>>, places: &Vec<usize>, d: usize) -> (r:
    String)
    requires
        places_ok(items@, ways@, places@, d as int),
    ensures
        r@ == items_here(entries_at(items@, ways@, places@, d as int)),
{
    let n: usize = places.len();
    let ghost l = entries_at(items@, ways@, places@, d as int);
    let mut out: String = String::new();
    assert(l.take(0) =~= Seq::<Entry>::empty());
    assert(out@ =~= Seq::<char>::empty());
    for i in 0..n
        invariant
            n == places@.len(),
            places_ok(items@, ways@, places@, d as int),
            l == entries_at(items@, ways@, places@, d as int),
            out@ == items_here(l.take(i as int)),
    {
        proof {
            let t = l.take(i + 1);
            assert(t.drop_last() =~= l.take(i as int));
            assert(t.last() == l[i as int]);
        }
        let p: usize = places[i];
        let k: usize = ways[p].len();
        assert(views(ways@[p as int]@).len() == k);
        if d == k {
            let s = item_text(&items[p]);
            out.push_str(s.as_str());
        }
    }
    assert(l.take(n as int) =~= l);
    out
}

fn render_tree_children(
    items: &[TreeItem],
    ways: &Vec<Vec<String>>,
    places: &Vec<usize>,
    d: usize,
    height: usize,
) -> (r: String)
    requires
        places_ok(items@, ways@, places@, d as int),
        d + height <= usize::MAX,
    ensures
        r@ == tree(entries_at(items@, ways@, places@, d as int), height as nat),
    decreases height,
{
    let ghost l = entries_at(items@, ways@, places@, d as int);
    let names: Vec<String> = names_at(items, ways, places, d);
    let n: usize = names.len();
    let ghost all = folders_here(l);
    assert(views(names@).len() == names@.len());
    let mut out: String = String::new();
    assert(all.take(0) =~= Seq::<Seq<char>>::empty());
    assert(out@ =~= Seq::<char>::empty());
    if height > 0 {
        for i in 0..n
            invariant
                n == names@.len(),
                height > 0,
                d + height <= usize::MAX,
                places_ok(items@, ways@, places@, d as int),
                l == entries_at(items@, ways@, places@, d as int),
                views(names@) == all,
                out@ == folders_tree(l, all.take(i as int), height as nat),
        {
            proof {
                let t = all.take(i + 1);
                assert(t.drop_last() =~= all.take(i as int));
                assert(t.last() == all[i as int]);
                assert(views(names@)[i as int] == names@[i as int]@);
            }
            let child: Vec<usize> = places_inside(items, ways, places, d, names[i].as_str());
            let badge = badged_at(items, ways, &child, d + 1);
            let open = folder_open_text(
                names[i].as_str(),
                child.len(),
                if badge {
                    " <span class=\"imp-badge\">all duplicates</span>"
                } else {
                    ""
                },
            );
            let below = render_tree_children(items, ways, &child, d + 1, height - 1);
            out.push_str(open.as_str());
            out.push_str(below.as_str());
            out.push_str("</div></div>");
        }
        assert(all.take(n as int) =~= all);
    }
    let here = items_text(items, ways, places, d);
    out.push_str(here.as_str());
    out
}

/// The tree of these snippets.
pub open spec fn selection_tree(items: Seq<TreeItem>) -> Seq<char> {
    tree(entries_of(items), height_of(entries_of(items)))
}

/// The tree of these snippets: folders in order, each with the number of snippets
/// in it, then the snippets in the order given.
pub fn render_selection_tree(items: &[TreeItem]) -> (r: String)
    ensures
        r@ == selection_tree(items@),
{
    let n: usize = items.len();
    let mut ways: Vec<Vec<String>> = Vec::new();
    let mut places: Vec<usize> = Vec::new();
    let mut height: usize = 0;
    let ghost all = entries_of(items@);
    assert(all.take(0) =~= Seq::<Entry>::empty());
    for i in 0..n
        invariant
            n == items@.len(),
            all == entries_of(items@),
            ways@.len() == i,
            places@.len() == i,
            forall|j: int| 0 <= j < i ==> places@[j] == j,
            forall|j: int| 0 <= j < i ==> views((#[trigger] ways@[j])@) == all[j].way,
            height == height_of(all.take(i as int)),
    {
        proof {
            let t = all.take(i + 1);
            assert(t.drop_last() =~= all.take(i as int));
            assert(t.last() == all[i as int]);
        }
        let folder = crate::trim::trim(items[i].folder.as_str());
        let mut way: Vec<String> = Vec::new();
        if folder.as_str().unicode_len() == 0 {
            push_text(&mut way, NO_FOLDER.to_owned());
            assert(views(way@) =~= seq![NO_FOLDER@]);
        } else {
            let parts: Vec<String> = split(folder.as_str(), '/');
            way = trim_parts(&parts);
        }
        assert(views(way@) == all[i as int].way);
        assert(views(way@).len() == way@.len());
        if way.len() > height {
            height = way.len();
        }
        ways.push(way);
        places.push(i);
    }
    proof {
        assert(all.take(n as int) =~= all);
        assert forall|i: int| 0 <= i < n implies entries_at(items@, ways@, places@, 0)[i]
            == all[i] by {
            assert(views(ways@[i]@).skip(0) =~= views(ways@[i]@));
            assert(views(ways@[i]@) == all[i].way);
        }
        assert(entries_at(items@, ways@, places@, 0) =~= all);
    }
    render_tree_children(items, &ways, &places, 0, height)
}

/// How many snippets a tree shows.
pub open spec fn shown(l: Seq<Entry>, height: nat) -> nat
    decreases height, 1nat, 0nat,
{
    folders_shown(l, folders_here(l), height) + here(l)
}

/// How many snippets these folders show.
pub open spec fn folders_shown(l: Seq<Entry>, names: Seq<Seq<char>>, height: nat) -> nat
    decreases height, 0nat, names.len(),
{
    if names.len() == 0 || height == 0 {
        0
    } else {
        folders_shown(l, names.drop_last(), height) + shown(
            inside(l, names.last()),
            (height - 1) as nat,
        )
    }
}

/// How many snippets lie right here.
pub open spec fn here(l: Seq<Entry>) -> nat
    decreases l.len(),
{
    if l.len() == 0 {
        0
    } else if l.last().way.len() == 0 {
        here(l.drop_last()) + 1
    } else {
        here(l.drop_last())
    }
}

/// How many snippets lie in these folders or below them.
pub open spec fn sizes(l: Seq<Entry>, names: Seq<Seq<char>>) -> nat
    decreases names.len(),
{
    if names.len() == 0 {
        0
    } else {
        sizes(l, names.drop_last()) + inside(l, names.last()).len()
    }
}

proof fn lemma_sizes_step(l: Seq<Entry>, names: Seq<Seq<char>>)
    requires
        l.len() > 0,
        forall|i: int, j: int| 0 <= i < j < names.len() ==> names[i] != names[j],
    ensures
        sizes(l, names) == sizes(l.drop_last(), names) + (if l.last().way.len() > 0
            && names.contains(l.last().way[0]) {
            1nat
        } else {
            0nat
        }),
    decreases names.len(),
{
    if names.len() > 0 {
        let front = names.drop_last();
        lemma_sizes_step(l, front);
        let way = l.last().way;
        if way.len() > 0 {
            if names.last() == way[0] {
                assert(names[names.len() - 1] == way[0]);
                if front.contains(way[0]) {
                    let k = choose|k: int| 0 <= k < front.len() && front[k] == way[0];
                    assert(names[k] == names[names.len() - 1]);
                }
            } else if names.contains(way[0]) {
                let k = choose|k: int| 0 <= k < names.len() && names[k] == way[0];
                assert(front[k] == way[0]);
            } else if front.contains(way[0]) {
                let k = choose|k: int| 0 <= k < front.len() && front[k] == way[0];
                assert(names[k] == way[0]);
            }
        }
    }
}

proof fn lemma_sizes(l: Seq<Entry>, names: Seq<Seq<char>>)
    requires
        forall|i: int, j: int| 0 <= i < j < names.len() ==> names[i] != names[j],
        forall|i: int|
            0 <= i < l.len() && (#[trigger] l[i]).way.len() > 0 ==> names.contains(l[i].way[0]),
    ensures
        sizes(l, names) + here(l) == l.len(),
    decreases l.len(),
{
    if l.len() > 0 {
        lemma_sizes_step(l, names);
        let front = l.drop_last();
        assert forall|i: int| 0 <= i < front.len() && (#[trigger] front[i]).way.len() > 0 implies
            names.contains(front[i].way[0]) by {
            assert(l[i] == front[i]);
        }
        lemma_sizes(front, names);
        assert(l[l.len() - 1] == l.last());
    } else {
        lemma_no_sizes(l, names);
    }
}

proof fn lemma_no_sizes(l: Seq<Entry>, names: Seq<Seq<char>>)
    requires
        l.len() == 0,
    ensures
        sizes(l, names) == 0,
    decreases names.len(),
{
    if names.len() > 0 {
        lemma_no_sizes(l, names.drop_last());
    }
}

proof fn lemma_next_listed(l: Seq<Entry>, i: int)
    requires
        0 <= i < l.len(),
        l[i].way.len() > 0,
    ensures
        next_folders(l).contains(l[i].way[0]),
    decreases l.len(),
{
    let all = next_folders(l);
    if i == l.len() - 1 {
        assert(all[all.len() - 1] == l[i].way[0]);
    } else {
        lemma_next_listed(l.drop_last(), i);
        let before = next_folders(l.drop_last());
        let k = choose|k: int| 0 <= k < before.len() && before[k] == l[i].way[0];
        assert(all[k] == l[i].way[0]);
    }
}

proof fn lemma_inside_height(l: Seq<Entry>, name: Seq<char>, height: nat)
    requires
        height > 0,
        forall|i: int| 0 <= i < l.len() ==> (#[trigger] l[i]).way.len() <= height,
    ensures
        forall|i: int|
            0 <= i < inside(l, name).len() ==> (#[trigger] inside(l, name)[i]).way.len() <= height
                - 1,
    decreases l.len(),
{
    if l.len() > 0 {
        let front = l.drop_last();
        assert forall|i: int| 0 <= i < front.len() implies (#[trigger] front[i]).way.len()
            <= height by {
            assert(l[i] == front[i]);
        }
        lemma_inside_height(front, name, height);
        assert(l[l.len() - 1] == l.last());
        let before = inside(front, name);
        let after = inside(l, name);
        assert forall|i: int| 0 <= i < after.len() implies (#[trigger] after[i]).way.len() <= height
            - 1 by {
            if i < before.len() {
                assert(after[i] == before[i]);
            }
        }
    }
}

proof fn lemma_folders_shown(l: Seq<Entry>, names: Seq<Seq<char>>, height: nat)
    requires
        height > 0,
        forall|i: int| 0 <= i < l.len() ==> (#[trigger] l[i]).way.len() <= height,
    ensures
        folders_shown(l, names, height) == sizes(l, names),
    decreases height, 0nat, names.len(),
{
    if names.len() > 0 {
        lemma_folders_shown(l, names.drop_last(), height);
        lemma_inside_height(l, names.last(), height);
        law_tree_shows_every_item(inside(l, names.last()), (height - 1) as nat);
    }
}

/// A tree that is deep enough shows as many snippets as there are, so the number
/// beside a folder is the number of snippets that it opens onto.
pub proof fn law_tree_shows_every_item(l: Seq<Entry>, height: nat)
    requires
        forall|i: int| 0 <= i < l.len() ==> (#[trigger] l[i]).way.len() <= height,
    ensures
        shown(l, height) == l.len(),
    decreases height, 1nat, 0nat,
{
    let names = folders_here(l);
    law_sorted_distinct(next_folders(l));
    assert forall|i: int, j: int| 0 <= i < j < names.len() implies names[i] != names[j] by {
        crate::order::lemma_text_before_total(names[i], names[j]);
    }
    assert forall|i: int| 0 <= i < l.len() && (#[trigger] l[i]).way.len() > 0 implies names.contains(
        l[i].way[0],
    ) by {
        lemma_next_listed(l, i);
    }
    lemma_sizes(l, names);
    if height > 0 {
        lemma_folders_shown(l, names, height);
    } else {
        assert(here(l) == l.len()) by {
            lemma_all_here(l);
        }
    }
}

proof fn lemma_all_here(l: Seq<Entry>)
    requires
        forall|i: int| 0 <= i < l.len() ==> (#[trigger] l[i]).way.len() == 0,
    ensures
        here(l) == l.len(),
    decreases l.len(),
{
    if l.len() > 0 {
        let front = l.drop_last();
        assert forall|i: int| 0 <= i < front.len() implies (#[trigger] front[i]).way.len() == 0 by {
            assert(l[i] == front[i]);
        }
        lemma_all_here(front);
        assert(l[l.len() - 1] == l.last());
    }
}

/// A folder of the tree with what stands before it, inside it and behind it.
pub open spec fn folder_block(
    before: Seq<char>,
    name: Seq<char>,
    count: nat,
    badge: Seq<char>,
    inner: Seq<char>,
    behind: Seq<char>,
) -> Seq<char> {
    before + folder_open(name, count, badge) + inner + "</div></div>"@ + behind
}

/// Whether a tree shows an item at the end of a way through its folders: inside a folder with
/// the first name, inside that one with the next, and so on.
pub open spec fn shows_at(html: Seq<char>, way: Seq<Seq<char>>, item: ItemView) -> bool
    decreases way.len(),
{
    if way.len() == 0 {
        exists|a: Seq<char>, b: Seq<char>| html == #[trigger] (a + item_html(item) + b)
    } else {
        exists|
            a: Seq<char>,
            count: nat,
            badge: Seq<char>,
            inner: Seq<char>,
            b: Seq<char>,
        |
            html == #[trigger] folder_block(a, way[0], count, badge, inner, b) && shows_at(
                inner,
                way.skip(1),
                item,
            )
    }
}

proof fn lemma_shown_within(
    x: Seq<char>,
    html: Seq<char>,
    y: Seq<char>,
    way: Seq<Seq<char>>,
    item: ItemView,
)
    requires
        shows_at(html, way, item),
    ensures
        shows_at(x + html + y, way, item),
{
    if way.len() == 0 {
        let (a, b) = choose|a: Seq<char>, b: Seq<char>|
            html == #[trigger] (a + item_html(item) + b);
        assert(x + html + y =~= (x + a) + item_html(item) + (b + y));
    } else {
        let (a, count, badge, inner, b) = choose|
            a: Seq<char>,
            count: nat,
            badge: Seq<char>,
            inner: Seq<char>,
            b: Seq<char>,
        |
            html == #[trigger] folder_block(a, way[0], count, badge, inner, b) && shows_at(
                inner,
                way.skip(1),
                item,
            );
        assert(x + html + y =~= folder_block(x + a, way[0], count, badge, inner, b + y));
    }
}

proof fn lemma_item_here(l: Seq<Entry>, i: int)
    requires
        0 <= i < l.len(),
        l[i].way.len() == 0,
    ensures
        shows_at(items_here(l), l[i].way, l[i].item),
    decreases l.len(),
{
    let t = l.drop_last();
    let e = Seq::<char>::empty();
    if i < t.len() {
        lemma_item_here(t, i);
        assert(t[i] == l[i]);
        let more = if l.last().way.len() == 0 {
            item_html(l.last().item)
        } else {
            e
        };
        lemma_shown_within(e, items_here(t), more, l[i].way, l[i].item);
        assert(e + items_here(t) + more =~= items_here(l));
    } else {
        let h = item_html(l[i].item);
        assert(items_here(l) =~= items_here(t) + h + e);
    }
}

proof fn lemma_block_of(l: Seq<Entry>, names: Seq<Seq<char>>, height: nat, k: int) -> (r: (
    Seq<char>,
    Seq<char>,
))
    requires
        height > 0,
        0 <= k < names.len(),
    ensures
        folders_tree(l, names, height) == folder_block(
            r.0,
            names[k],
            inside(l, names[k]).len(),
            folder_badge(all_badged(inside(l, names[k]))),
            tree(inside(l, names[k]), (height - 1) as nat),
            r.1,
        ),
    decreases names.len(),
{
    let t = names.drop_last();
    let e = Seq::<char>::empty();
    let name = names.last();
    let child = inside(l, name);
    let own = folder_open(name, child.len(), folder_badge(all_badged(child)));
    let inner = tree(child, (height - 1) as nat);
    let before = folders_tree(l, t, height);
    assert(folders_tree(l, names, height) == before + own + inner + "</div></div>"@);
    if k < t.len() {
        let r = lemma_block_of(l, t, height, k);
        assert(t[k] == names[k]);
        let behind = r.1 + (own + inner + "</div></div>"@);
        assert(folders_tree(l, names, height) =~= folder_block(
            r.0,
            names[k],
            inside(l, names[k]).len(),
            folder_badge(all_badged(inside(l, names[k]))),
            tree(inside(l, names[k]), (height - 1) as nat),
            behind,
        ));
        (r.0, behind)
    } else {
        assert(folders_tree(l, names, height) =~= folder_block(
            before,
            name,
            child.len(),
            folder_badge(all_badged(child)),
            inner,
            e,
        ));
        (before, e)
    }
}

proof fn lemma_goes_inside(l: Seq<Entry>, i: int) -> (k: int)
    requires
        0 <= i < l.len(),
        l[i].way.len() > 0,
    ensures
        0 <= k < inside(l, l[i].way[0]).len(),
        inside(l, l[i].way[0])[k].way == l[i].way.skip(1),
        inside(l, l[i].way[0])[k].item == l[i].item,
    decreases l.len(),
{
    let t = l.drop_last();
    if i < t.len() {
        assert(t[i] == l[i]);
        lemma_goes_inside(t, i)
    } else {
        inside(l, l[i].way[0]).len() - 1
    }
}

/// Every item stands in the tree, inside the folders that lead to it.
pub proof fn law_items_stand_in_their_folders(l: Seq<Entry>, height: nat, i: int)
    requires
        forall|k: int| 0 <= k < l.len() ==> (#[trigger] l[k]).way.len() <= height,
        0 <= i < l.len(),
    ensures
        shows_at(tree(l, height), l[i].way, l[i].item),
    decreases height,
{
    let e = Seq::<char>::empty();
    let names = folders_here(l);
    if l[i].way.len() == 0 {
        lemma_item_here(l, i);
        lemma_shown_within(folders_tree(l, names, height), items_here(l), e, l[i].way, l[i].item);
        assert(folders_tree(l, names, height) + items_here(l) + e =~= tree(l, height));
    } else {
        let name = l[i].way[0];
        lemma_next_listed(l, i);
        law_sorted_distinct(next_folders(l));
        assert(names.contains(name));
        let k = choose|k: int| 0 <= k < names.len() && names[k] == name;
        let r = lemma_block_of(l, names, height, k);
        let child = inside(l, name);
        let h = (height - 1) as nat;
        lemma_inside_height(l, name, height);
        let j = lemma_goes_inside(l, i);
        law_items_stand_in_their_folders(child, h, j);
        assert(shows_at(folders_tree(l, names, height), l[i].way, l[i].item));
        lemma_shown_within(e, folders_tree(l, names, height), items_here(l), l[i].way, l[i].item);
        assert(e + folders_tree(l, names, height) + items_here(l) =~= tree(l, height));
    }
}

/// The way to an item leads through the segments of its folder, and to the place for items
/// without one where its folder is blank.
pub proof fn law_ways_follow_folders(a: Seq<char>, b: Seq<char>)
    requires
        !all_blank(a),
        !all_blank(b),
        trimmed(a) == a,
        trimmed(b) == b,
    ensures
        way_to(a + seq!['/'] + b) == way_to(a) + way_to(b),
        way_to(Seq::empty()) == seq!["(no folder)"@],
{
    let e = Seq::<char>::empty();
    let w = a + seq!['/'] + b;
    assert(a.len() > 0 && !white_space(a[0])) by {
        law_blank_texts(a);
        lemma_trimmed(a);
    }
    assert(b.len() > 0 && !white_space(b.last())) by {
        law_blank_texts(b);
        lemma_trimmed(b);
    }
    assert(trimmed(w) == w) by {
        assert(w[0] == a[0]);
        assert(w.last() == b.last());
        law_outer_blanks_are_trimmed(e, w, e);
        assert(e + w + e =~= w);
    }
    assert(trimmed(e) == e) by {
        law_outer_blanks_are_trimmed(e, e, e);
        assert(e + e + e =~= e);
    }
    law_slashes_part_segments(a, b);
}

proof fn lemma_height(l: Seq<Entry>)
    ensures
        forall|k: int| 0 <= k < l.len() ==> (#[trigger] l[k]).way.len() <= height_of(l),
    decreases l.len(),
{
    if l.len() > 0 {
        let p = l.drop_last();
        lemma_height(p);
        assert forall|k: int| 0 <= k < l.len() implies (#[trigger] l[k]).way.len() <= height_of(
            l,
        ) by {
            if k < p.len() {
                assert(p[k] == l[k]);
            }
        }
    }
}

/// Whatever can be picked stands in the tree, inside its folders.
pub proof fn law_everything_can_be_picked(items: Seq<TreeItem>, i: int)
    requires
        0 <= i < items.len(),
    ensures
        shows_at(selection_tree(items), way_to(items[i].folder@), items[i]@),
{
    let l = entries_of(items);
    lemma_height(l);
    law_items_stand_in_their_folders(l, height_of(l), i);
}

} // verus!
