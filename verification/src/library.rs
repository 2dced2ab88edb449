//! The shared library's rows and what of them a view shows.
use crate::find::{contains, starts_with};
use crate::text::{copy_text, same_text, str_to_lowercase};
use crate::trim::{is_blank, trim};
use vstd::prelude::*;

verus! {

use crate::find::occurs;
use crate::text::{lowercase_text, opt_view, white_space};
use crate::trim::{all_blank, law_blank_texts, law_outer_blanks_are_trimmed, trimmed};

/// A snippet of the shared library, with its team-wide usage.
#[derive(Debug)]
pub struct LibraryRow {
    pub id: String,
    pub title: String,
    pub body: String,
    pub tags: String,
    pub folder_path: Option<String>,
    pub version: i64,
    pub updated_at: i64,
    /// Team-wide paste count.
    pub use_count: i64,
    /// Most recent paste (unix seconds); none where nobody has pasted yet.
    pub last_used: Option<i64>,
}

/// The folder selector for every snippet.
pub const FOLDER_ALL: &'static str = "__all__";

/// The folder selector for snippets without a folder.
pub const FOLDER_UNFILED: &'static str = "__unfiled__";

/// The folder of a row; empty where it has none.
pub open spec fn folder_of(r: LibraryRow) -> Seq<char> {
    match r.folder_path {
        Some(f) => f@,
        None => Seq::empty(),
    }
}

/// Whether a row lies in the folder `path` or below it.
pub open spec fn under(r: LibraryRow, path: Seq<char>) -> bool {
    folder_of(r).len() > 0 && (folder_of(r) == path || (path + seq!['/']).is_prefix_of(
        folder_of(r),
    ))
}

/// Whether a row has no folder.
pub open spec fn unfiled(r: LibraryRow) -> bool {
    folder_of(r).len() == 0
}

/// Whether the view `selected` shows a row.
pub open spec fn in_view(r: LibraryRow, selected: Seq<char>) -> bool {
    if selected == FOLDER_ALL@ {
        true
    } else if selected == FOLDER_UNFILED@ {
        unfiled(r)
    } else {
        under(r, selected)
    }
}

/// The selector that a query's folder stands for.
pub open spec fn selected_folder(raw: Option<Seq<char>>) -> Seq<char> {
    match raw {
        Some(s) => if trimmed(s).len() == 0 {
            FOLDER_ALL@
        } else {
            trimmed(s)
        },
        None => FOLDER_ALL@,
    }
}

/// The selector that a query's folder stands for; everything where it is blank.
pub fn library_selected_folder(raw: &Option<String>) -> (r: String)
    ensures
        r@ == selected_folder(opt_view(*raw)),
{
    match raw {
        Some(s) => {
            let t = trim(s.as_str());
            if t.as_str().unicode_len() == 0 {
                FOLDER_ALL.to_owned()
            } else {
                t
            }
        },
        None => FOLDER_ALL.to_owned(),
    }
}

/// Whether a row has no folder.
pub fn is_unfiled(r: &LibraryRow) -> (b: bool)
    ensures
        b == unfiled(*r),
{
    match &r.folder_path {
        Some(f) => f.as_str().unicode_len() == 0,
        None => true,
    }
}

/// Whether a row lies in the folder `path` or below it.
pub fn is_under(r: &LibraryRow, path: &str) -> (b: bool)
    ensures
        b == under(*r, path@),
{
    match &r.folder_path {
        Some(f) => {
            if f.as_str().unicode_len() == 0 {
                return false;
            }
            let mut prefix: String = copy_text(path);
            prefix.push('/');
            assert(prefix@ =~= path@ + seq!['/']);
            same_text(f.as_str(), path) || starts_with(f.as_str(), prefix.as_str())
        },
        None => false,
    }
}

/// Whether the view `selected` shows a row.
pub fn is_in_view(r: &LibraryRow, selected: &str) -> (b: bool)
    ensures
        b == in_view(*r, selected@),
{
    if same_text(selected, FOLDER_ALL) {
        true
    } else if same_text(selected, FOLDER_UNFILED) {
        is_unfiled(r)
    } else {
        is_under(r, selected)
    }
}

/// One more element of a filtered prefix.
pub proof fn lemma_filter_take_succ<A>(s: Seq<A>, p: spec_fn(A) -> bool, i: int)
    requires
        0 <= i < s.len(),
    ensures
        s.take(i + 1).filter(p) == if p(s[i]) {
            s.take(i).filter(p).push(s[i])
        } else {
            s.take(i).filter(p)
        },
{
    reveal(Seq::filter);
    assert(s.take(i + 1).drop_last() =~= s.take(i));
}

pub proof fn lemma_filter_none<A>(s: Seq<A>, p: spec_fn(A) -> bool)
    ensures
        s.take(0).filter(p) == Seq::<A>::empty(),
{
    reveal(Seq::filter);
    assert(s.take(0) =~= Seq::<A>::empty());
}

/// The rows that the view `selected` shows.
pub open spec fn rows_in_view(rows: Seq<LibraryRow>, selected: Seq<char>) -> Seq<LibraryRow> {
    rows.filter(|r: LibraryRow| in_view(r, selected))
}

/// The rows that the view `selected` shows, in order.
pub fn filter_library_rows<'a>(rows: &'a [LibraryRow], selected: &str) -> (out: Vec<&'a LibraryRow>)
    ensures
        out@.unref() == rows_in_view(rows@, selected@),
{
    let mut out: Vec<&'a LibraryRow> = Vec::new();
    let n: usize = rows.len();
    let ghost p = |r: LibraryRow| in_view(r, selected@);
    proof {
        lemma_filter_none(rows@, p);
        assert(out@.unref() =~= Seq::<LibraryRow>::empty());
    }
    for i in 0..n
        invariant
            n == rows@.len(),
            p == (|r: LibraryRow| in_view(r, selected@)),
            out@.unref() == rows@.take(i as int).filter(p),
    {
        proof {
            lemma_filter_take_succ(rows@, p, i as int);
        }
        if is_in_view(&rows[i], selected) {
            let ghost before = out@;
            out.push(&rows[i]);
            assert(out@.unref() =~= before.unref().push(rows@[i as int]));
        }
    }
    assert(rows@.take(n as int) =~= rows@);
    out
}

/// What a search looks for; empty where there is no search.
pub open spec fn search_needle(q: Option<Seq<char>>) -> Seq<char> {
    match q {
        Some(s) => if trimmed(s).len() == 0 {
            Seq::empty()
        } else {
            lowercase_text(trimmed(s))
        },
        None => Seq::empty(),
    }
}

/// Whether a row's title, body or tags hold `needle`, ignoring case.
pub open spec fn matches_search(r: LibraryRow, needle: Seq<char>) -> bool {
    ||| occurs(lowercase_text(r.title@), needle)
    ||| occurs(lowercase_text(r.body@), needle)
    ||| occurs(lowercase_text(r.tags@), needle)
}

/// The rows that hold `needle`; all of them where it is empty.
pub open spec fn rows_holding(rows: Seq<LibraryRow>, needle: Seq<char>) -> Seq<LibraryRow> {
    if needle.len() == 0 {
        rows
    } else {
        rows.filter(|r: LibraryRow| matches_search(r, needle))
    }
}

/// The rows that a search leaves.
pub open spec fn rows_found(rows: Seq<LibraryRow>, q: Option<Seq<char>>) -> Seq<LibraryRow> {
    rows_holding(rows, search_needle(q))
}

/// Whether one of three texts holds `needle`.
pub fn any_holds(title: &str, body: &str, tags: &str, needle: &str) -> (b: bool)
    ensures
        b == (occurs(title@, needle@) || occurs(body@, needle@) || occurs(tags@, needle@)),
{
    contains(title, needle) || contains(body, needle) || contains(tags, needle)
}

fn row_matches(r: &LibraryRow, needle: &str) -> (b: bool)
    ensures
        b == matches_search(*r, needle@),
{
    let t = str_to_lowercase(r.title.as_str());
    let b = str_to_lowercase(r.body.as_str());
    let g = str_to_lowercase(r.tags.as_str());
    any_holds(t.as_str(), b.as_str(), g.as_str(), needle)
}

/// The rows whose title, body or tags hold a needle in lower case, ignoring case. An empty
/// needle leaves every row.
pub fn filter_by_needle<'a>(rows: Vec<&'a LibraryRow>, needle: &str) -> (out: Vec<&'a LibraryRow>)
    ensures
        out@.unref() == rows_holding(rows@.unref(), needle@),
        needle@.len() == 0 ==> out == rows,
{
    if needle.unicode_len() == 0 {
        return rows;
    }
    let mut out: Vec<&'a LibraryRow> = Vec::new();
    let n: usize = rows.len();
    let ghost all = rows@.unref();
    let ghost p = |r: LibraryRow| matches_search(r, needle@);
    proof {
        lemma_filter_none(all, p);
        assert(out@.unref() =~= Seq::<LibraryRow>::empty());
    }
    for i in 0..n
        invariant
            n == rows@.len(),
            all == rows@.unref(),
            p == (|r: LibraryRow| matches_search(r, needle@)),
            out@.unref() == all.take(i as int).filter(p),
    {
        proof {
            lemma_filter_take_succ(all, p, i as int);
        }
        if row_matches(rows[i], needle) {
            let ghost before = out@;
            out.push(rows[i]);
            assert(out@.unref() =~= before.unref().push(all[i as int]));
        }
    }
    assert(all.take(n as int) =~= all);
    out
}

/// The rows whose title, body or tags hold the query, ignoring case. Without a query, or
/// with a blank one, every row is left.
pub fn filter_library_query<'a>(
    rows: Vec<&'a LibraryRow>,
    q: &Option<String>,
) -> (out: Vec<&'a LibraryRow>)
    ensures
        out@.unref() == rows_found(rows@.unref(), opt_view(*q)),
        !searching(opt_view(*q)) ==> out == rows,
{
    match q {
        Some(s) => {
            if is_blank(s.as_str()) {
                return rows;
            }
            let t = trim(s.as_str());
            let needle = str_to_lowercase(t.as_str());
            filter_by_needle(rows, needle.as_str())
        },
        None => rows,
    }
}

/// Whether a query is a search at all.
pub open spec fn searching(q: Option<Seq<char>>) -> bool {
    q matches Some(s) && trimmed(s).len() > 0
}

/// The rows that the list shows: a search spans the whole library, and without
/// one the list is scoped to the selected folder.
pub open spec fn visible_rows(
    rows: Seq<LibraryRow>,
    selected: Seq<char>,
    q: Option<Seq<char>>,
) -> Seq<LibraryRow> {
    rows_found(
        if searching(q) {
            rows
        } else {
            rows_in_view(rows, selected)
        },
        q,
    )
}

/// The rows that the list shows for the current view.
pub fn library_visible_rows<'a>(
    rows: &'a [LibraryRow],
    selected: &str,
    q: &Option<String>,
) -> (out: Vec<&'a LibraryRow>)
    ensures
        out@.unref() == visible_rows(rows@, selected@, opt_view(*q)),
{
    let search: bool = match q {
        Some(s) => !is_blank(s.as_str()),
        None => false,
    };
    let base: Vec<&'a LibraryRow> = if search {
        let mut all: Vec<&'a LibraryRow> = Vec::new();
        let n: usize = rows.len();
        for i in 0..n
            invariant
                n == rows@.len(),
                all@.len() == i,
                forall|k: int| 0 <= k < i ==> *all@[k] == rows@[k],
        {
            all.push(&rows[i]);
        }
        assert(all@.unref() =~= rows@);
        all
    } else {
        filter_library_rows(rows, selected)
    };
    filter_library_query(base, q)
}

/// A folder's view shows the rows in that folder and those in folders below it; the view of
/// everything shows every row, and that of what is unfiled shows the rows without a folder.
pub proof fn law_views_follow_folders(r: LibraryRow, path: Seq<char>)
    ensures
        in_view(r, "__all__"@),
        in_view(r, "__unfiled__"@) <==> r.folder_path is None || r.folder_path->0@.len() == 0,
        path != "__all__"@ && path != "__unfiled__"@ ==> (in_view(r, path) <==> (
        r.folder_path matches Some(f) && f@.len() > 0 && (f@ == path || exists|rest: Seq<char>|
            f@ == #[trigger] (path + seq!['/'] + rest)))),
{
    reveal_strlit("__all__");
    reveal_strlit("__unfiled__");
    assert("__all__"@.len() != "__unfiled__"@.len());
    if let Some(f) = r.folder_path {
        let p = path + seq!['/'];
        if p.is_prefix_of(f@) {
            let rest = f@.skip(p.len() as int);
            assert(f@ =~= path + seq!['/'] + rest);
        }
        if exists|rest: Seq<char>| f@ == #[trigger] (path + seq!['/'] + rest) {
            let rest = choose|rest: Seq<char>| f@ == #[trigger] (path + seq!['/'] + rest);
            assert(f@.subrange(0, p.len() as int) =~= p);
        }
    }
}

/// A search looks through the whole library, whatever folder is selected, and finds a row
/// exactly where its title, its body or its tags hold what is looked for, ignoring case.
pub proof fn law_search_spans_the_library(
    rows: Seq<LibraryRow>,
    selected: Seq<char>,
    q: Seq<char>,
    i: int,
)
    requires
        !all_blank(q),
        lowercase_text(trimmed(q)).len() > 0,
        0 <= i < rows.len(),
    ensures
        visible_rows(rows, selected, Some(q)).contains(rows[i]) <==> {
            ||| occurs(lowercase_text(rows[i].title@), lowercase_text(trimmed(q)))
            ||| occurs(lowercase_text(rows[i].body@), lowercase_text(trimmed(q)))
            ||| occurs(lowercase_text(rows[i].tags@), lowercase_text(trimmed(q)))
        },
{
    law_blank_texts(q);
    let p = |r: LibraryRow| matches_search(r, lowercase_text(trimmed(q)));
    lemma_filter_holds(rows, p, i);
}

/// Without a search the list shows a row exactly where the selected view does.
pub proof fn law_without_search_the_view_is_listed(
    rows: Seq<LibraryRow>,
    selected: Seq<char>,
    q: Option<Seq<char>>,
    i: int,
)
    requires
        q matches Some(s) ==> all_blank(s),
        0 <= i < rows.len(),
    ensures
        visible_rows(rows, selected, q).contains(rows[i]) <==> in_view(rows[i], selected),
{
    if let Some(s) = q {
        law_blank_texts(s);
    }
    lemma_filter_holds(rows, |r: LibraryRow| in_view(r, selected), i);
}

proof fn lemma_filter_holds(rows: Seq<LibraryRow>, p: spec_fn(LibraryRow) -> bool, i: int)
    requires
        0 <= i < rows.len(),
    ensures
        rows.filter(p).contains(rows[i]) <==> p(rows[i]),
{
    rows.filter_lemma(p);
    if rows.filter(p).contains(rows[i]) {
        let k = choose|k: int| 0 <= k < rows.filter(p).len() && rows.filter(p)[k] == rows[i];
        assert(p(rows.filter(p)[k]));
    }
}

/// A folder is selected by its name, without its outer blanks; everything where none is named.
pub proof fn law_folders_are_selected_by_name(a: Seq<char>, name: Seq<char>, b: Seq<char>)
    requires
        all_blank(a),
        all_blank(b),
        name.len() > 0 ==> !white_space(name[0]) && !white_space(name.last()),
    ensures
        name.len() > 0 ==> selected_folder(Some(a + name + b)) == name,
        name.len() == 0 ==> selected_folder(Some(a + name + b)) == "__all__"@,
        selected_folder(None) == "__all__"@,
{
    law_outer_blanks_are_trimmed(a, name, b);
}

} // verus!
