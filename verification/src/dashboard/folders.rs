//! Making, ordering, moving and deleting folders of the library.
use crate::audit::action::LIBRARY_FOLDER_DELETE;
use crate::audit::{event_of, Actor, AuditEvent, Detail};
use crate::clock::unix_now;
use crate::dashboard::forms::{
    FolderCreateForm,
    FolderDeleteForm,
    FolderMoveForm,
    FolderReorderBody,
};
use crate::decimal::{count_text, i64_text};
use crate::find::{contains, starts_with};
use crate::html::escape_html;
use crate::library::{FOLDER_ALL, FOLDER_UNFILED};
use crate::paths::normalize_folder_path;
use crate::text::{chars_of, copy_text, is_control, same_text, text_between};
use crate::trim::{trim, trim_of};
use crate::url::url_encode;
use crate::validate::FOLDER_MAX_CHARS;
use vstd::prelude::*;

verus! {

use crate::audit::{detail_views, event_by, DetailView};
use crate::db::{at_or_below, renamed};
use crate::decimal::{decimal, decimal_int};
use crate::find::occurs;
use crate::html::escaped;
use crate::library::lemma_filter_take_succ;
use crate::paths::{checked_folder_path, slash};
use crate::text::{control_code, views, white_space};
use crate::trim::{
    all_blank,
    exactly,
    law_outer_blanks_are_trimmed,
    lemma_strip_back_unique,
    lemma_strip_front_unique,
    trimmed,
    trimmed_of,
};
use crate::url::percent_encoded;
use vstd::utf8::encode_utf8;

/// A path as a form gives it, without outer white space and slashes.
pub open spec fn bare_path(raw: Seq<char>) -> Seq<char> {
    trimmed_of(trimmed(raw), '/')
}

/// A path as a form gives it, without outer white space and slashes.
pub fn strip_path(raw: &str) -> (r: String)
    ensures
        r@ == bare_path(raw@),
{
    let t = trim(raw);
    trim_of(t.as_str(), '/')
}

/// The most folders that are put in order at once.
pub const REORDER_LIMIT: usize = 500;

/// A folder with its place among its siblings.
#[derive(Debug)]
pub struct Placed {
    pub path: String,
    pub order: i64,
}

/// Puts folders in the order given, counted from one.
pub fn library_folder_reorder(body: &FolderReorderBody) -> (r: Result<Vec<Placed>, &'static str>)
    ensures
        match r {
            Ok(l) => {
                &&& 0 < body.paths@.len() <= REORDER_LIMIT
                &&& l@.len() == body.paths@.len()
                &&& forall|i: int|
                    0 <= i < l@.len() ==> (#[trigger] l@[i]).path@ == body.paths@[i]@ && l@[i].order
                        == i + 1
            },
            Err(e) => {
                ||| body.paths@.len() == 0 && e@ == "no paths supplied"@
                ||| body.paths@.len() > REORDER_LIMIT && e@ == "too many paths in one reorder"@
            },
        },
{
    let n: usize = body.paths.len();
    if n == 0 {
        return Err("no paths supplied");
    }
    if n > REORDER_LIMIT {
        return Err("too many paths in one reorder");
    }
    let mut out: Vec<Placed> = Vec::new();
    for i in 0..n
        invariant
            n == body.paths@.len(),
            n <= REORDER_LIMIT,
            out@.len() == i,
            forall|k: int|
                0 <= k < out@.len() ==> (#[trigger] out@[k]).path@ == body.paths@[k]@
                    && out@[k].order == k + 1,
    {
        out.push(Placed { path: copy_text(body.paths[i].as_str()), order: i as i64 + 1 });
    }
    Ok(out)
}

/// Why a folder cannot be moved; none where it can.
pub open spec fn move_fault(old: Seq<char>, new: Seq<char>) -> Option<Seq<char>> {
    if old.len() == 0 {
        Some("old path required"@)
    } else if new.len() > 0 && (occurs(new, "//"@) || holds_control(new) || new.len()
        > FOLDER_MAX_CHARS) {
        Some("invalid new path"@)
    } else if new.len() > 0 && at_or_below(new, old) {
        Some("can't move a folder into itself or one of its descendants"@)
    } else {
        None
    }
}

/// Whether a text holds a control code.
pub open spec fn holds_control(s: Seq<char>) -> bool {
    exists|i: int| 0 <= i < s.len() && control_code(#[trigger] s[i])
}

fn has_control(v: &Vec<char>) -> (r: bool)
    ensures
        r == holds_control(v@),
{
    let n: usize = v.len();
    for i in 0..n
        invariant
            n == v@.len(),
            forall|j: int| 0 <= j < i ==> !control_code(#[trigger] v@[j]),
    {
        if is_control(v[i]) {
            assert(control_code(v@[i as int]));
            return true;
        }
    }
    false
}

fn is_at_or_below(path: &str, base: &str) -> (r: bool)
    ensures
        r == at_or_below(path@, base@),
{
    let mut prefix: String = copy_text(base);
    prefix.push('/');
    assert(prefix@ =~= base@ + slash());
    same_text(path, base) || starts_with(path, prefix.as_str())
}

/// Where a folder is moved from and to; the top level where the second is empty.
#[derive(Debug)]
pub struct FolderMove {
    pub old: String,
    pub new: String,
}

/// What a form asks to be moved, or why it cannot be.
pub fn check_move(f: &FolderMoveForm) -> (r: Result<FolderMove, &'static str>)
    ensures
        match r {
            Ok(m) => m.old@ == bare_path(f.old@) && m.new@ == bare_path(f.new@) && move_fault(
                m.old@,
                m.new@,
            ) is None,
            Err(e) => move_fault(bare_path(f.old@), bare_path(f.new@)) == Some(e@),
        },
{
    let old = strip_path(f.old.as_str());
    let new = strip_path(f.new.as_str());
    if old.as_str().unicode_len() == 0 {
        return Err("old path required");
    }
    let v: Vec<char> = chars_of(new.as_str());
    if v.len() > 0 {
        proof {
            reveal_strlit("//");
        }
        if contains(new.as_str(), "//") || has_control(&v) || v.len() > FOLDER_MAX_CHARS {
            return Err("invalid new path");
        }
        if is_at_or_below(new.as_str(), old.as_str()) {
            return Err("can't move a folder into itself or one of its descendants");
        }
    }
    Ok(FolderMove { old, new })
}

/// Where a path goes when the folder around it is moved; empty for the top level.
pub open spec fn moved(path: Seq<char>, old: Seq<char>, new: Seq<char>) -> Seq<char> {
    if path == old {
        new
    } else {
        let rest = path.skip(old.len() as int + 1);
        if new.len() == 0 {
            rest
        } else {
            new + slash() + rest
        }
    }
}

/// Where a path goes when the folder around it is moved.
pub fn moved_path(path: &str, old: &str, new: &str) -> (r: String)
    requires
        at_or_below(path@, old@),
    ensures
        r@ == moved(path@, old@, new@),
{
    if same_text(path, old) {
        return copy_text(new);
    }
    let v: Vec<char> = chars_of(path);
    let k: usize = old.unicode_len();
    let n: usize = v.len();
    assert((old@ + slash()).len() <= path@.len());
    let rest = text_between(&v, k + 1, n);
    assert(v@.subrange(k + 1, v@.len() as int) =~= path@.skip(old@.len() as int + 1));
    if new.unicode_len() == 0 {
        return rest;
    }
    let mut out: String = copy_text(new);
    out.push('/');
    out.push_str(rest.as_str());
    assert(out@ =~= new@ + slash() + rest@);
    out
}

/// A path as it is stored: none for the top level.
pub open spec fn stored_path(p: Seq<char>) -> Option<Seq<char>> {
    if p.len() == 0 {
        None
    } else {
        Some(p)
    }
}

/// A snippet or a folder, and where it lies.
#[derive(Debug)]
pub struct Located {
    pub id: String,
    pub path: String,
}

/// Where something that is moved goes: its new path, none for the top level, and
/// the version it gets.
#[derive(Debug)]
pub struct Relocation {
    pub id: String,
    pub path: Option<String>,
    pub version: i64,
}

/// What a relocation says.
#[verifier::ext_equal]
pub struct RelocationView {
    pub id: Seq<char>,
    pub path: Option<Seq<char>>,
    pub version: int,
}

impl View for Relocation {
    type V = RelocationView;

    open spec fn view(&self) -> RelocationView {
        RelocationView {
            id: self.id@,
            path: crate::text::opt_view(self.path),
            version: self.version as int,
        }
    }
}

/// What relocations say.
pub open spec fn relocation_views(l: Seq<Relocation>) -> Seq<RelocationView> {
    Seq::new(l.len(), |i: int| l[i]@)
}

/// Those that lie in a folder or below it.
pub open spec fn located_in(rows: Seq<Located>, folder: Seq<char>) -> Seq<Located> {
    rows.filter(|r: Located| at_or_below(r.path@, folder))
}

/// Where everything in a folder goes: each gets the next version.
pub open spec fn relocations(
    rows: Seq<Located>,
    old: Seq<char>,
    new: Seq<char>,
    base: int,
) -> Seq<RelocationView> {
    let inside = located_in(rows, old);
    Seq::new(
        inside.len(),
        |i: int|
            RelocationView {
                id: inside[i].id@,
                path: stored_path(moved(inside[i].path@, old, new)),
                version: base + 1 + i,
            },
    )
}

/// Plans the move of a folder: exactly the snippets in it or below it get a new
/// path, each with a version of its own above `base_version`.
pub fn plan_move(rows: &Vec<Located>, m: &FolderMove, base_version: i64) -> (r: Vec<Relocation>)
    requires
        base_version + rows@.len() <= i64::MAX,
    ensures
        relocation_views(r@) == relocations(rows@, m.old@, m.new@, base_version as int),
{
    let n: usize = rows.len();
    let mut out: Vec<Relocation> = Vec::new();
    let mut last: i64 = base_version;
    let ghost p = |r: Located| at_or_below(r.path@, m.old@);
    assert(rows@.take(0).filter(p).len() == 0) by {
        reveal(Seq::filter);
        assert(rows@.take(0).len() == 0);
    }
    for i in 0..n
        invariant
            n == rows@.len(),
            base_version + n <= i64::MAX,
            p == (|r: Located| at_or_below(r.path@, m.old@)),
            rows@.take(i as int).filter(p).len() <= i,
            out@.len() == rows@.take(i as int).filter(p).len(),
            last == base_version + out@.len(),
            relocation_views(out@) =~= relocations(
                rows@.take(i as int),
                m.old@,
                m.new@,
                base_version as int,
            ),
    {
        proof {
            lemma_filter_take_succ(rows@, p, i as int);
        }
        if is_at_or_below(rows[i].path.as_str(), m.old.as_str()) {
            let to = moved_path(rows[i].path.as_str(), m.old.as_str(), m.new.as_str());
            let path = if to.as_str().unicode_len() == 0 {
                None
            } else {
                Some(to)
            };
            last = last + 1;
            let e = Relocation { id: copy_text(rows[i].id.as_str()), path, version: last };
            let ghost before = out@;
            let ghost done = rows@.take(i as int).filter(p);
            out.push(e);
            proof {
                let now = rows@.take(i + 1).filter(p);
                assert(now =~= done.push(rows@[i as int]));
                assert(relocation_views(out@) =~= relocation_views(before).push(e@));
                assert(relocations(rows@.take(i + 1), m.old@, m.new@, base_version as int)
                    =~= relocations(rows@.take(i as int), m.old@, m.new@, base_version as int).push(
                    e@,
                ));
            }
        }
    }
    assert(rows@.take(n as int) =~= rows@);
    out
}

/// Whether `path` is that of a row that a move leaves where it is.
pub open spec fn stays(rows: Seq<Seq<char>>, old: Seq<char>, path: Seq<char>) -> bool {
    rows.contains(path) && !at_or_below(path, old)
}

/// What becomes of the row of a folder that is moved: its new path; none where it is
/// dropped.
pub open spec fn row_target(
    rows: Seq<Seq<char>>,
    path: Seq<char>,
    old: Seq<char>,
    new: Seq<char>,
) -> Option<Seq<char>> {
    let to = moved(path, old, new);
    if to.len() == 0 || stays(rows, old, to) {
        None
    } else {
        Some(to)
    }
}

fn is_listed(paths: &Vec<String>, path: &str) -> (r: bool)
    ensures
        r == views(paths@).contains(path@),
{
    let n: usize = paths.len();
    for i in 0..n
        invariant
            n == paths@.len(),
            forall|j: int| 0 <= j < i ==> #[trigger] views(paths@)[j] != path@,
    {
        assert(views(paths@)[i as int] == paths@[i as int]@);
        if same_text(paths[i].as_str(), path) {
            return true;
        }
    }
    false
}

/// Plans what becomes of the rows of folders when one is moved: each that lies in
/// it or below it leaves its path for the new one. A row that lands on a path that
/// is taken, or on the top level itself, is dropped.
pub fn plan_folder_rows(paths: &Vec<String>, m: &FolderMove) -> (r: Vec<(String, Option<String>)>)
    ensures
        row_moves(r@) == folder_row_moves(views(paths@), m.old@, m.new@),
{
    let n: usize = paths.len();
    let mut out: Vec<(String, Option<String>)> = Vec::new();
    let ghost all = views(paths@);
    assert(all.take(0) =~= Seq::<Seq<char>>::empty());
    assert(row_moves(out@) =~= Seq::<(Seq<char>, Option<Seq<char>>)>::empty());
    for i in 0..n
        invariant
            n == paths@.len(),
            all == views(paths@),
            row_moves(out@) == row_moves_among(all, all.take(i as int), m.old@, m.new@),
    {
        proof {
            let t = all.take(i + 1);
            assert(t.drop_last() =~= all.take(i as int));
            assert(t.last() == paths@[i as int]@);
        }
        if is_at_or_below(paths[i].as_str(), m.old.as_str()) {
            let to = moved_path(paths[i].as_str(), m.old.as_str(), m.new.as_str());
            let taken: bool = is_listed(paths, to.as_str()) && !is_at_or_below(
                to.as_str(),
                m.old.as_str(),
            );
            let target = if to.as_str().unicode_len() == 0 || taken {
                None
            } else {
                Some(to)
            };
            let e = (copy_text(paths[i].as_str()), target);
            let ghost before = out@;
            out.push(e);
            assert(row_moves(out@) =~= row_moves(before).push(
                (e.0@, crate::text::opt_view(e.1)),
            ));
        }
    }
    assert(all.take(n as int) =~= all);
    out
}

/// What moves of rows say: from where, and to where.
pub open spec fn row_moves(
    l: Seq<(String, Option<String>)>,
) -> Seq<(Seq<char>, Option<Seq<char>>)> {
    Seq::new(l.len(), |i: int| (l[i].0@, crate::text::opt_view(l[i].1)))
}

/// The moves of the rows of folders.
pub open spec fn folder_row_moves(paths: Seq<Seq<char>>, old: Seq<char>, new: Seq<char>) -> Seq<
    (Seq<char>, Option<Seq<char>>),
> {
    row_moves_among(paths, paths, old, new)
}

/// The moves of some of the rows.
pub open spec fn row_moves_among(
    rows: Seq<Seq<char>>,
    paths: Seq<Seq<char>>,
    old: Seq<char>,
    new: Seq<char>,
) -> Seq<(Seq<char>, Option<Seq<char>>)>
    decreases paths.len(),
{
    if paths.len() == 0 {
        Seq::empty()
    } else {
        let before = row_moves_among(rows, paths.drop_last(), old, new);
        let p = paths.last();
        if at_or_below(p, old) {
            before.push((p, row_target(rows, p, old, new)))
        } else {
            before
        }
    }
}

proof fn lemma_row_moves(
    rows: Seq<Seq<char>>,
    paths: Seq<Seq<char>>,
    old: Seq<char>,
    new: Seq<char>,
)
    ensures
        ({
            let l = row_moves_among(rows, paths, old, new);
            &&& forall|i: int|
                0 <= i < l.len() ==> paths.contains((#[trigger] l[i]).0) && at_or_below(
                    l[i].0,
                    old,
                ) && l[i].1 == row_target(rows, l[i].0, old, new)
            &&& paths.no_duplicates() ==> forall|i: int, j: int|
                0 <= i < j < l.len() ==> (#[trigger] l[i]).0 != (#[trigger] l[j]).0
        }),
    decreases paths.len(),
{
    if paths.len() > 0 {
        let front = paths.drop_last();
        lemma_row_moves(rows, front, old, new);
        let before = row_moves_among(rows, front, old, new);
        let l = row_moves_among(rows, paths, old, new);
        assert(paths[paths.len() - 1] == paths.last());
        assert forall|p: Seq<char>| front.contains(p) implies paths.contains(p) && (
        paths.no_duplicates() ==> p != paths.last()) by {
            let k = choose|k: int| 0 <= k < front.len() && front[k] == p;
            assert(paths[k] == p);
        }
        if paths.no_duplicates() {
            assert(front.no_duplicates());
        }
        assert forall|i: int| 0 <= i < l.len() implies paths.contains((#[trigger] l[i]).0)
            && at_or_below(l[i].0, old) && l[i].1 == row_target(rows, l[i].0, old, new) by {
            if i < before.len() {
                assert(l[i] == before[i]);
            }
        }
        if paths.no_duplicates() {
            assert forall|i: int, j: int| 0 <= i < j < l.len() implies (#[trigger] l[i]).0 != (
            #[trigger] l[j]).0 by {
                assert(l[i] == before[i]);
                assert(front.contains(before[i].0));
                if j < before.len() {
                    assert(l[j] == before[j]);
                }
            }
        }
    }
}

/// After a move no two rows have one path: a row that stays keeps its path to itself, and no
/// two rows that are moved land on the same one.
pub proof fn law_moved_rows_do_not_clash(
    paths: Seq<Seq<char>>,
    old: Seq<char>,
    new: Seq<char>,
    i: int,
    j: int,
)
    requires
        paths.no_duplicates(),
        0 <= i < j < folder_row_moves(paths, old, new).len(),
    ensures
        folder_row_moves(paths, old, new)[i].1 matches Some(to) ==> !stays(paths, old, to)
            && folder_row_moves(paths, old, new)[j].1 != Some(to),
        folder_row_moves(paths, old, new)[j].1 matches Some(to) ==> !stays(paths, old, to),
{
    let l = folder_row_moves(paths, old, new);
    lemma_row_moves(paths, paths, old, new);
    let p = l[i].0;
    let q = l[j].0;
    assert(p != q);
    if l[i].1 is Some && l[j].1 is Some {
        let k = old.len() as int + 1;
        let a = moved(p, old, new);
        let b = moved(q, old, new);
        if a == b {
            if p != old && q != old {
                if new.len() > 0 {
                    let h = new.len() as int + 1;
                    assert(a.skip(h) =~= p.skip(k));
                    assert(b.skip(h) =~= q.skip(k));
                }
                assert(p.skip(k) == q.skip(k));
                assert forall|x: int| 0 <= x < k implies p[x] == q[x] by {
                    assert(p[x] == (old + slash())[x]);
                    assert(q[x] == (old + slash())[x]);
                }
                assert(p.len() == q.len()) by {
                    assert(p.skip(k).len() == p.len() - k);
                    assert(q.skip(k).len() == q.len() - k);
                }
                assert(p =~= q) by {
                    assert forall|x: int| 0 <= x < p.len() implies p[x] == q[x] by {
                        if x >= k {
                            assert(p.skip(k)[x - k] == q.skip(k)[x - k]);
                        }
                    }
                }
            } else if p == old {
                assert(b.len() > new.len() || new.len() == 0);
            } else {
                assert(a.len() > new.len() || new.len() == 0);
            }
        }
    }
}

/// What is left of an audit entry's target when folders move: the new path, empty
/// for the top level; other targets stay.
pub fn moved_target(target: &str, m: &FolderMove) -> (r: String)
    ensures
        r@ == (if at_or_below(target@, m.old@) {
            moved(target@, m.old@, m.new@)
        } else {
            target@
        }),
{
    if is_at_or_below(target, m.old.as_str()) {
        moved_path(target, m.old.as_str(), m.new.as_str())
    } else {
        copy_text(target)
    }
}

/// Whether there is anything to move: a snippet, or a row of a folder.
pub fn anything_to_move(snippets: usize, folder_rows: usize) -> (r: bool)
    ensures
        r == (snippets > 0 || folder_rows > 0),
{
    snippets > 0 || folder_rows > 0
}

/// Every version that a move hands out is new, and no two are the same.
pub proof fn law_move_versions_are_fresh(
    rows: Seq<Located>,
    old: Seq<char>,
    new: Seq<char>,
    base: int,
)
    ensures
        forall|i: int|
            0 <= i < relocations(rows, old, new, base).len() ==> (#[trigger] relocations(
                rows,
                old,
                new,
                base,
            )[i]).version > base,
        forall|i: int, j: int|
            0 <= i < j < relocations(rows, old, new, base).len() ==> (#[trigger] relocations(
                rows,
                old,
                new,
                base,
            )[i]).version < (#[trigger] relocations(rows, old, new, base)[j]).version,
{
}

/// What lay in a folder or below it lies in the new one after a move, with the
/// rest of its path kept.
pub proof fn law_move_keeps_the_rest(path: Seq<char>, old: Seq<char>, new: Seq<char>)
    requires
        at_or_below(path, old),
        new.len() > 0,
    ensures
        at_or_below(moved(path, old, new), new),
        moved(path, old, new) == renamed(path, old, new),
{
    let m = moved(path, old, new);
    if path == old {
        assert(path.skip(old.len() as int) =~= Seq::<char>::empty());
        assert(new + path.skip(old.len() as int) =~= new);
    } else {
        assert((old + slash()).len() <= path.len());
        assert((old + slash())[old.len() as int] == '/');
        assert(path[old.len() as int] == '/');
        assert(path.skip(old.len() as int) =~= slash() + path.skip(old.len() as int + 1));
        assert(m =~= new + path.skip(old.len() as int));
        assert((new + slash()).is_prefix_of(m));
    }
}

/// Moving a folder there and back gives every path in it back.
pub proof fn law_move_there_and_back(path: Seq<char>, old: Seq<char>, new: Seq<char>)
    requires
        at_or_below(path, old),
        old.len() > 0,
        new.len() > 0,
    ensures
        moved(moved(path, old, new), new, old) == path,
{
    law_move_keeps_the_rest(path, old, new);
    law_move_keeps_the_rest(moved(path, old, new), new, old);
    crate::db::laws::law_rename_back(path, old, new);
}

/// Moving a folder to the top level lifts what is in it out, and keeps the rest of
/// each path.
pub proof fn law_move_to_the_top(path: Seq<char>, old: Seq<char>, rest: Seq<char>)
    requires
        path == old + slash() + rest,
    ensures
        moved(path, old, Seq::empty()) == rest,
{
    assert(path.len() > old.len());
    assert(path.skip(old.len() as int + 1) =~= rest);
}

/// What is said of a folder that cannot be deleted.
pub const NOT_DELETABLE: &'static str =
    "<div class=\"banner error\">That folder can't be deleted.</div>";

/// The dialog that deletes an empty folder.
pub open spec fn confirm_empty(path: Seq<char>) -> Seq<char> {
    "<h2>Delete folder</h2><p class=\"muted\"><em>"@
        + escaped(path)
        + "</em> is empty (no snippets, including subfolders).</p><form method=\"post\" \
            action=\"/dashboard/library/folders/delete\" class=\"imp-form\"><input type=\"hidden\" \
            name=\"path\" value=\""@
        + escaped(path)
        + "\" /><input type=\"hidden\" name=\"mode\" value=\"move\" /><div class=\"imp-actions\">\
            <button type=\"submit\" class=\"btn danger\">Delete folder</button></div></form>"@
}

/// The dialog that deletes an empty folder.
fn confirm_empty_text(path: &str) -> (r: String)
    ensures
        r@ == confirm_empty(path@),
{
    let path_e = escape_html(path);
    let mut out: String = "<h2>Delete folder</h2><p class=\"muted\"><em>".to_owned();
    out.push_str(path_e.as_str());
    out.push_str("</em> is empty (no snippets, including subfolders).</p><form method=\"post\" \
                action=\"/dashboard/library/folders/delete\" class=\"imp-form\"><input \
                type=\"hidden\" name=\"path\" value=\"");
    out.push_str(path_e.as_str());
    out.push_str("\" /><input type=\"hidden\" name=\"mode\" value=\"move\" /><div \
                class=\"imp-actions\"><button type=\"submit\" class=\"btn danger\">Delete folder\
                </button></div></form>");
    out
}

/// The dialog that deletes a folder with snippets in it.
pub open spec fn confirm_filled(path: Seq<char>, count: i64, s: Seq<char>) -> Seq<char> {
    "<h2>Delete folder</h2><p class=\"muted\"><em>"@
        + escaped(path)
        + "</em> contains <strong>"@
        + decimal_int(count as int)
        + "</strong> snippet"@
        + s
        + " (including subfolders). What should happen to them?</p><div \
            class=\"folder-del-choices\"><form method=\"post\" \
            action=\"/dashboard/library/folders/delete\" class=\"imp-form\"><input type=\"hidden\" \
            name=\"path\" value=\""@
        + escaped(path)
        + "\" /><input type=\"hidden\" name=\"mode\" value=\"move\" /><button type=\"submit\" \
            class=\"btn\">Move them to Unfiled</button></form><form method=\"post\" \
            action=\"/dashboard/library/folders/delete\" class=\"imp-form\"><input type=\"hidden\" \
            name=\"path\" value=\""@
        + escaped(path)
        + "\" /><input type=\"hidden\" name=\"mode\" value=\"delete\" /><button type=\"submit\" \
            class=\"btn danger\">Delete them too</button></form></div><p class=\"muted \
            small\">Deleted snippets propagate to every signed-in client as deletions; they stay \
            recoverable from the trash until the retention purge.</p>"@
}

/// The dialog that deletes a folder with snippets in it.
fn confirm_filled_text(path: &str, count: i64, s: &str) -> (r: String)
    ensures
        r@ == confirm_filled(path@, count, s@),
{
    let path_e = escape_html(path);
    let count_n = i64_text(count);
    let mut out: String = "<h2>Delete folder</h2><p class=\"muted\"><em>".to_owned();
    out.push_str(path_e.as_str());
    out.push_str("</em> contains <strong>");
    out.push_str(count_n.as_str());
    out.push_str("</strong> snippet");
    out.push_str(s);
    out.push_str(" (including subfolders). What should happen to them?</p><div \
                class=\"folder-del-choices\"><form method=\"post\" \
                action=\"/dashboard/library/folders/delete\" class=\"imp-form\"><input \
                type=\"hidden\" name=\"path\" value=\"");
    out.push_str(path_e.as_str());
    out.push_str("\" /><input type=\"hidden\" name=\"mode\" value=\"move\" /><button type=\"submit\" \
                class=\"btn\">Move them to Unfiled</button></form><form method=\"post\" \
                action=\"/dashboard/library/folders/delete\" class=\"imp-form\"><input \
                type=\"hidden\" name=\"path\" value=\"");
    out.push_str(path_e.as_str());
    out.push_str("\" /><input type=\"hidden\" name=\"mode\" value=\"delete\" /><button \
                type=\"submit\" class=\"btn danger\">Delete them too</button></form></div><p \
                class=\"muted small\">Deleted snippets propagate to every signed-in client as \
                deletions; they stay recoverable from the trash until the retention purge.</p>");
    out
}

/// Whether a path is one that can be deleted.
pub open spec fn deletable(path: Seq<char>) -> bool {
    path.len() > 0 && path != FOLDER_ALL@ && path != FOLDER_UNFILED@
}

fn is_deletable(path: &str) -> (r: bool)
    ensures
        r == deletable(path@),
{
    path.unicode_len() > 0 && !same_text(path, FOLDER_ALL) && !same_text(path, FOLDER_UNFILED)
}

/// The path that a request asks to delete; none where it cannot be.
pub fn deletable_path(raw: &str) -> (r: Option<String>)
    ensures
        match r {
            Some(p) => p@ == bare_path(raw@) && deletable(p@),
            None => !deletable(bare_path(raw@)),
        },
{
    let p = strip_path(raw);
    if is_deletable(p.as_str()) {
        Some(p)
    } else {
        None
    }
}

/// The dialog that deletes a folder, given how many snippets lie in it or below
/// it. Where there are any, it asks what becomes of them.
pub fn library_folder_delete_confirm(path: Option<&str>, count: i64) -> (r: String)
    ensures
        r@ == (match path {
            None => NOT_DELETABLE@,
            Some(p) => if count == 0 {
                confirm_empty(p@)
            } else {
                confirm_filled(
                    p@,
                    count,
                    if count == 1 {
                        ""@
                    } else {
                        "s"@
                    },
                )
            },
        }),
{
    match path {
        None => NOT_DELETABLE.to_owned(),
        Some(p) => if count == 0 {
            confirm_empty_text(p)
        } else {
            confirm_filled_text(
                p,
                count,
                if count == 1 {
                    ""
                } else {
                    "s"
                },
            )
        },
    }
}

/// What a form asks to be deleted, and whether the snippets go too.
#[derive(Debug)]
pub struct FolderDeletion {
    pub path: String,
    pub cascade: bool,
}

/// Why a deletion is refused; none where it is not.
pub open spec fn delete_fault(path: Seq<char>, mode: Seq<char>) -> Option<Seq<char>> {
    if !deletable(path) {
        Some("invalid folder path"@)
    } else if mode != "move"@ && mode != "delete"@ {
        Some("invalid mode"@)
    } else {
        None
    }
}

/// What a form asks to be deleted, or why it cannot be.
pub fn check_delete(f: &FolderDeleteForm) -> (r: Result<FolderDeletion, &'static str>)
    ensures
        match r {
            Ok(d) => delete_fault(bare_path(f.path@), f.mode@) is None && d.path@ == bare_path(
                f.path@,
            ) && d.cascade == (f.mode@ == "delete"@),
            Err(e) => delete_fault(bare_path(f.path@), f.mode@) == Some(e@),
        },
{
    let path = match deletable_path(f.path.as_str()) {
        Some(p) => p,
        None => {
            return Err("invalid folder path");
        },
    };
    proof {
        reveal_strlit("move");
        reveal_strlit("delete");
        assert("move"@.len() != "delete"@.len());
    }
    if same_text(f.mode.as_str(), "move") {
        Ok(FolderDeletion { path, cascade: false })
    } else if same_text(f.mode.as_str(), "delete") {
        Ok(FolderDeletion { path, cascade: true })
    } else {
        Err("invalid mode")
    }
}

/// A snippet, and the version it gets.
#[derive(Debug)]
pub struct Versioned {
    pub id: String,
    pub version: i64,
}

/// The snippets of a folder, each with a version of its own above `base_version`,
/// in order.
pub fn plan_delete(rows: &Vec<Located>, path: &str, base_version: i64) -> (r: Vec<Versioned>)
    requires
        base_version + rows@.len() <= i64::MAX,
    ensures
        r@.len() == located_in(rows@, path@).len(),
        forall|i: int|
            0 <= i < r@.len() ==> (#[trigger] r@[i]).id@ == located_in(rows@, path@)[i].id@
                && r@[i].version == base_version + 1 + i,
{
    let n: usize = rows.len();
    let mut out: Vec<Versioned> = Vec::new();
    let mut last: i64 = base_version;
    let ghost p = |r: Located| at_or_below(r.path@, path@);
    assert(rows@.take(0).filter(p).len() == 0) by {
        reveal(Seq::filter);
        assert(rows@.take(0).len() == 0);
    }
    for i in 0..n
        invariant
            n == rows@.len(),
            base_version + n <= i64::MAX,
            p == (|r: Located| at_or_below(r.path@, path@)),
            rows@.take(i as int).filter(p).len() <= i,
            out@.len() == rows@.take(i as int).filter(p).len(),
            last == base_version + out@.len(),
            forall|k: int|
                0 <= k < out@.len() ==> (#[trigger] out@[k]).id@ == rows@.take(i as int).filter(
                    p,
                )[k].id@ && out@[k].version == base_version + 1 + k,
    {
        proof {
            lemma_filter_take_succ(rows@, p, i as int);
        }
        if is_at_or_below(rows[i].path.as_str(), path) {
            last = last + 1;
            out.push(Versioned { id: copy_text(rows[i].id.as_str()), version: last });
        }
    }
    assert(rows@.take(n as int) =~= rows@);
    out
}

/// Where the page goes on after a deletion.
pub open spec fn landing_of_delete(path: Seq<char>, cascade: bool, count: nat) -> Seq<char> {
    "/dashboard/library?folder_deleted="@ + percent_encoded(encode_utf8(path)) + (if cascade {
        "&deleted="@
    } else {
        "&moved="@
    }) + decimal(count)
}

/// Where the page goes on after a deletion.
pub fn delete_landing(path: &str, cascade: bool, count: usize) -> (r: String)
    ensures
        r@ == landing_of_delete(path@, cascade, count as nat),
{
    let p = url_encode(path);
    let n = count_text(count);
    let mut out: String = "/dashboard/library?folder_deleted=".to_owned();
    out.push_str(p.as_str());
    out.push_str(
        if cascade {
            "&deleted="
        } else {
            "&moved="
        },
    );
    out.push_str(n.as_str());
    out
}

/// A folder that is made for itself.
#[derive(Debug)]
pub struct FolderCreation {
    pub path: String,
    pub at: i64,
    pub event: AuditEvent,
}

/// Makes the folder that a form asks for, or says why it cannot be made.
pub fn library_folder_create(f: &FolderCreateForm, actor: &Actor) -> (r: Result<
    FolderCreation,
    &'static str,
>)
    ensures
        match r {
            Ok(c) => {
                &&& checked_folder_path(f.path@) == Ok::<Seq<char>, Seq<char>>(c.path@)
                &&& c.event@ == event_by(
                    *actor,
                    "library.folder.create"@,
                    "folder"@,
                    Some(c.path@),
                    None,
                )
            },
            Err(e) => checked_folder_path(f.path@) == Err::<Seq<char>, Seq<char>>(e@),
        },
{
    match normalize_folder_path(f.path.as_str()) {
        Ok(path) => {
            let id = Some(copy_text(path.as_str()));
            let event = event_of(actor, "library.folder.create", "folder", id, None);
            Ok(FolderCreation { path, at: unix_now(), event })
        },
        Err(e) => Err(e),
    }
}

/// What the log keeps of a move.
pub open spec fn move_details(old: Seq<char>, new: Seq<char>, snippets: nat) -> Seq<
    (Seq<char>, DetailView),
> {
    seq![
        ("from"@, DetailView::Text(old)),
        ("snippets_moved"@, DetailView::Count(snippets)),
        ("to"@, DetailView::Text(new)),
    ]
}

fn move_event(m: &FolderMove, snippets: usize, actor: &Actor) -> (r: AuditEvent)
    ensures
        r@.wf(),
        r@ == event_by(
            *actor,
            "library.folder.move"@,
            "folder"@,
            Some(m.new@),
            Some(move_details(m.old@, m.new@, snippets as nat)),
        ),
{
    let mut l: Vec<(&'static str, Detail)> = Vec::new();
    l.push(("from", Detail::Text(copy_text(m.old.as_str()))));
    l.push(("snippets_moved", Detail::Count(snippets)));
    l.push(("to", Detail::Text(copy_text(m.new.as_str()))));
    proof {
        reveal_strlit("from");
        reveal_strlit("to");
        reveal_strlit("snippets_moved");
        assert("from"@.len() == 4 && "to"@.len() == 2 && "snippets_moved"@.len() == 14);
        assert(detail_views(l@) =~= move_details(m.old@, m.new@, snippets as nat));
    }
    event_of(
        actor,
        "library.folder.move",
        "folder",
        Some(copy_text(m.new.as_str())),
        Some(l),
    )
}

/// The targets in the log that a move changes, each with what it becomes; empty
/// for the top level.
pub open spec fn target_moves(targets: Seq<Seq<char>>, old: Seq<char>, new: Seq<char>) -> Seq<
    (Seq<char>, Seq<char>),
>
    decreases targets.len(),
{
    if targets.len() == 0 {
        Seq::empty()
    } else {
        let before = target_moves(targets.drop_last(), old, new);
        if at_or_below(targets.last(), old) {
            before.push((targets.last(), moved(targets.last(), old, new)))
        } else {
            before
        }
    }
}

/// What pairs of texts hold.
pub open spec fn text_pairs(l: Seq<(String, String)>) -> Seq<(Seq<char>, Seq<char>)> {
    Seq::new(l.len(), |i: int| (l[i].0@, l[i].1@))
}

fn plan_targets(targets: &Vec<String>, m: &FolderMove) -> (r: Vec<(String, String)>)
    ensures
        text_pairs(r@) == target_moves(views(targets@), m.old@, m.new@),
{
    let n: usize = targets.len();
    let mut out: Vec<(String, String)> = Vec::new();
    let ghost all = views(targets@);
    assert(all.take(0) =~= Seq::<Seq<char>>::empty());
    assert(text_pairs(out@) =~= Seq::<(Seq<char>, Seq<char>)>::empty());
    for i in 0..n
        invariant
            n == targets@.len(),
            all == views(targets@),
            text_pairs(out@) == target_moves(all.take(i as int), m.old@, m.new@),
    {
        proof {
            let t = all.take(i + 1);
            assert(t.drop_last() =~= all.take(i as int));
            assert(t.last() == targets@[i as int]@);
        }
        if is_at_or_below(targets[i].as_str(), m.old.as_str()) {
            let to = moved_path(targets[i].as_str(), m.old.as_str(), m.new.as_str());
            let e = (copy_text(targets[i].as_str()), to);
            let ghost before = out@;
            out.push(e);
            assert(text_pairs(out@) =~= text_pairs(before).push((e.0@, e.1@)));
        }
    }
    assert(all.take(n as int) =~= all);
    out
}

/// Everything that a move changes: the snippets, the folder rows, the targets in
/// the log, and what the log is told.
#[derive(Debug)]
pub struct FolderMoveWork {
    pub snippets: Vec<Relocation>,
    pub folders: Vec<(String, Option<String>)>,
    pub targets: Vec<(String, String)>,
    pub event: AuditEvent,
}

/// Moves a folder with everything in it and below it; none where there is neither
/// a snippet nor a folder row to move. The log is told once, however many snippets
/// are moved.
pub fn library_folder_move(
    m: &FolderMove,
    rows: &Vec<Located>,
    folders: &Vec<String>,
    targets: &Vec<String>,
    base_version: i64,
    actor: &Actor,
) -> (r: Option<FolderMoveWork>)
    requires
        base_version + rows@.len() <= i64::MAX,
    ensures
        r is None <==> located_in(rows@, m.old@).len() == 0 && folder_row_moves(
            views(folders@),
            m.old@,
            m.new@,
        ).len() == 0,
        r matches Some(w) ==> {
            &&& relocation_views(w.snippets@) == relocations(
                rows@,
                m.old@,
                m.new@,
                base_version as int,
            )
            &&& row_moves(w.folders@) == folder_row_moves(views(folders@), m.old@, m.new@)
            &&& text_pairs(w.targets@) == target_moves(views(targets@), m.old@, m.new@)
            &&& w.event@.wf()
            &&& w.event@ == event_by(
                *actor,
                "library.folder.move"@,
                "folder"@,
                Some(m.new@),
                Some(move_details(m.old@, m.new@, located_in(rows@, m.old@).len())),
            )
        },
{
    let snippets = plan_move(rows, m, base_version);
    let moved_rows = plan_folder_rows(folders, m);
    assert(relocation_views(snippets@).len() == snippets@.len());
    assert(row_moves(moved_rows@).len() == moved_rows@.len());
    if !anything_to_move(snippets.len(), moved_rows.len()) {
        return None;
    }
    let event = move_event(m, snippets.len(), actor);
    Some(
        FolderMoveWork { snippets, folders: moved_rows, targets: plan_targets(targets, m), event },
    )
}

/// How a deletion treats the snippets, as the log is told.
pub open spec fn mode_of(cascade: bool) -> Seq<char> {
    if cascade {
        "delete"@
    } else {
        "move"@
    }
}

/// What the log keeps of a deletion.
pub open spec fn delete_details(path: Seq<char>, cascade: bool, snippets: nat) -> Seq<
    (Seq<char>, DetailView),
> {
    seq![
        ("count"@, DetailView::Count(snippets)),
        ("mode"@, DetailView::Text(mode_of(cascade))),
        ("path"@, DetailView::Text(path)),
    ]
}

fn delete_event(d: &FolderDeletion, snippets: usize, actor: &Actor) -> (r: AuditEvent)
    ensures
        r@.wf(),
        r@ == event_by(
            *actor,
            LIBRARY_FOLDER_DELETE@,
            "folder"@,
            None,
            Some(delete_details(d.path@, d.cascade, snippets as nat)),
        ),
{
    let mode = if d.cascade {
        "delete"
    } else {
        "move"
    };
    let mut l: Vec<(&'static str, Detail)> = Vec::new();
    l.push(("count", Detail::Count(snippets)));
    l.push(("mode", Detail::Text(copy_text(mode))));
    l.push(("path", Detail::Text(copy_text(d.path.as_str()))));
    proof {
        reveal_strlit("path");
        reveal_strlit("mode");
        reveal_strlit("count");
        assert("path"@[0] != "mode"@[0]);
        assert(detail_views(l@) =~= delete_details(d.path@, d.cascade, snippets as nat));
    }
    event_of(actor, LIBRARY_FOLDER_DELETE, "folder", None, Some(l))
}

/// Everything that a deletion changes: the snippets in the folder, with the version
/// that each gets, what the log is told, and where the page goes on.
#[derive(Debug)]
pub struct FolderDeletionWork {
    pub snippets: Vec<Versioned>,
    pub event: AuditEvent,
    pub landing: String,
}

/// Deletes a folder: its snippets go with it, or lose their folder.
pub fn library_folder_delete(
    d: &FolderDeletion,
    rows: &Vec<Located>,
    base_version: i64,
    actor: &Actor,
) -> (r: FolderDeletionWork)
    requires
        base_version + rows@.len() <= i64::MAX,
    ensures
        r.snippets@.len() == located_in(rows@, d.path@).len(),
        forall|i: int|
            0 <= i < r.snippets@.len() ==> (#[trigger] r.snippets@[i]).id@ == located_in(
                rows@,
                d.path@,
            )[i].id@ && r.snippets@[i].version == base_version + 1 + i,
        r.event@.wf(),
        r.event@ == event_by(
            *actor,
            LIBRARY_FOLDER_DELETE@,
            "folder"@,
            None,
            Some(delete_details(d.path@, d.cascade, located_in(rows@, d.path@).len())),
        ),
        r.landing@ == landing_of_delete(
            d.path@,
            d.cascade,
            located_in(rows@, d.path@).len(),
        ),
{
    let snippets = plan_delete(rows, d.path.as_str(), base_version);
    let event = delete_event(d, snippets.len(), actor);
    let landing = delete_landing(d.path.as_str(), d.cascade, snippets.len());
    FolderDeletionWork { snippets, event, landing }
}

/// A path is taken without the blanks around it and without its outer slashes.
pub proof fn law_paths_are_taken_bare(
    a: Seq<char>,
    front: Seq<char>,
    path: Seq<char>,
    back: Seq<char>,
    b: Seq<char>,
)
    requires
        all_blank(a),
        all_blank(b),
        forall|i: int| 0 <= i < front.len() ==> #[trigger] front[i] == '/',
        forall|i: int| 0 <= i < back.len() ==> #[trigger] back[i] == '/',
        path.len() > 0,
        path[0] != '/' && !white_space(path[0]),
        path.last() != '/' && !white_space(path.last()),
    ensures
        bare_path(a + (front + path + back) + b) == path,
{
    let s = front + path + back;
    assert(!white_space('/'));
    assert(s[0] == path[0] || s[0] == '/') by {
        if front.len() > 0 {
            assert(s[0] == front[0]);
        }
    }
    assert(s.last() == path.last() || s.last() == '/') by {
        if back.len() > 0 {
            assert(s.last() == back[back.len() - 1]);
        }
    }
    law_outer_blanks_are_trimmed(a, s, b);
    let p = exactly('/');
    assert forall|i: int| 0 <= i < front.len() implies p(#[trigger] s[i]) by {
        assert(s[i] == front[i]);
    }
    assert(s[front.len() as int] == path[0]);
    lemma_strip_front_unique(s, p, front.len() as int);
    let t = path + back;
    assert(s.skip(front.len() as int) =~= t);
    assert forall|i: int| path.len() <= i < t.len() implies p(#[trigger] t[i]) by {
        assert(t[i] == back[i - path.len()]);
    }
    assert(t[path.len() - 1] == path.last());
    lemma_strip_back_unique(t, p, path.len() as int);
    assert(t.take(path.len() as int) =~= path);
}

/// A folder is moved unless there is none, its new path is malformed or longer than three
/// hundred characters, or it would come to lie in itself; to the top it is always moved.
pub proof fn law_folders_that_move(old: Seq<char>, new: Seq<char>)
    ensures
        move_fault(old, new) is None <==> {
            &&& old.len() > 0
            &&& new.len() == 0 || {
                &&& new.len() <= 300
                &&& !occurs(new, "//"@)
                &&& forall|i: int| 0 <= i < new.len() ==> !control_code(#[trigger] new[i])
                &&& new != old
                &&& !exists|rest: Seq<char>| new == #[trigger] (old + seq!['/'] + rest)
            }
        },
{
    if exists|rest: Seq<char>| new == #[trigger] (old + seq!['/'] + rest) {
        let rest = choose|rest: Seq<char>| new == #[trigger] (old + seq!['/'] + rest);
        assert(new.subrange(0, old.len() as int + 1) =~= old + slash());
        assert((old + slash()).is_prefix_of(new));
    }
    if (old + slash()).is_prefix_of(new) {
        let rest = new.skip(old.len() as int + 1);
        assert(new =~= old + seq!['/'] + rest);
    }
}

/// A folder is deleted unless there is none or it is one of the views, and only in one of the
/// two ways that there are.
pub proof fn law_folders_that_go(path: Seq<char>, mode: Seq<char>)
    ensures
        delete_fault(path, mode) is None <==> path.len() > 0 && path != "__all__"@ && path
            != "__unfiled__"@ && (mode == "move"@ || mode == "delete"@),
{
}

/// The snippets that a folder takes along are those in it and those in folders below it.
pub proof fn law_folders_hold_what_is_below(rows: Seq<Located>, folder: Seq<char>, i: int)
    requires
        0 <= i < rows.len(),
    ensures
        located_in(rows, folder).contains(rows[i]) <==> rows[i].path@ == folder || exists|
            rest: Seq<char>,
        |
            rows[i].path@ == #[trigger] (folder + seq!['/'] + rest),
{
    let p = |r: Located| at_or_below(r.path@, folder);
    rows.filter_lemma(p);
    let path = rows[i].path@;
    if rows.filter(p).contains(rows[i]) {
        let k = choose|k: int| 0 <= k < rows.filter(p).len() && rows.filter(p)[k] == rows[i];
        assert(p(rows.filter(p)[k]));
    }
    if exists|rest: Seq<char>| path == #[trigger] (folder + seq!['/'] + rest) {
        let rest = choose|rest: Seq<char>| path == #[trigger] (folder + seq!['/'] + rest);
        assert(path.subrange(0, folder.len() as int + 1) =~= folder + slash());
        assert(p(rows[i]));
    }
    if (folder + slash()).is_prefix_of(path) {
        let rest = path.skip(folder.len() as int + 1);
        assert(path =~= folder + seq!['/'] + rest);
    }
}

} // verus!
