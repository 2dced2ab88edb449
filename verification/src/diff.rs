//! Line-level differences between two versions of a text.
use crate::html::escape_html;
use crate::text::{copy_text, same_text};
use crate::trim::split;
use vstd::prelude::*;

verus! {

use crate::html::escaped;
use crate::text::views;
use crate::trim::pieces;

/// What became of a line.
#[derive(Copy, Clone, Debug, PartialEq, Eq, Structural)]
pub enum DiffKind {
    Same,
    Add,
    Del,
}

/// The length of a longest common subsequence of the first `i` lines of `a` and
/// the first `j` lines of `b`.
pub open spec fn common(a: Seq<Seq<char>>, b: Seq<Seq<char>>, i: int, j: int) -> nat
    decreases i + j,
{
    if i <= 0 || j <= 0 {
        0
    } else if a[i - 1] == b[j - 1] {
        common(a, b, i - 1, j - 1) + 1
    } else if common(a, b, i, j - 1) >= common(a, b, i - 1, j) {
        common(a, b, i, j - 1)
    } else {
        common(a, b, i - 1, j)
    }
}

/// The differences between the first `i` lines of `a` and the first `j` of `b`.
pub open spec fn differences(
    a: Seq<Seq<char>>,
    b: Seq<Seq<char>>,
    i: int,
    j: int,
) -> Seq<(DiffKind, Seq<char>)>
    decreases i + j,
{
    if i < 0 || j < 0 || (i == 0 && j == 0) {
        Seq::empty()
    } else if i > 0 && j > 0 && a[i - 1] == b[j - 1] {
        differences(a, b, i - 1, j - 1).push((DiffKind::Same, a[i - 1]))
    } else if i > 0 && (j <= 0 || common(a, b, i - 1, j) >= common(a, b, i, j - 1)) {
        differences(a, b, i - 1, j).push((DiffKind::Del, a[i - 1]))
    } else {
        differences(a, b, i, j - 1).push((DiffKind::Add, b[j - 1]))
    }
}

/// The line-level differences between two texts, in source order.
pub open spec fn text_differences(a: Seq<char>, b: Seq<char>) -> Seq<(DiffKind, Seq<char>)> {
    let x = pieces(a, '\n');
    let y = pieces(b, '\n');
    differences(x, y, x.len() as int, y.len() as int)
}

/// The contents of a list of differences.
pub open spec fn diff_view(d: Seq<(DiffKind, String)>) -> Seq<(DiffKind, Seq<char>)> {
    Seq::new(d.len(), |i: int| (d[i].0, d[i].1@))
}

/// `s` can be had from `t` by leaving lines out.
pub open spec fn subsequence(s: Seq<Seq<char>>, t: Seq<Seq<char>>) -> bool
    decreases t.len(),
{
    s.len() == 0 || (t.len() > 0 && ((s.last() == t.last() && subsequence(
        s.drop_last(),
        t.drop_last(),
    )) || subsequence(s, t.drop_last())))
}

/// The lines of a difference that the old text has.
pub open spec fn old_side(d: Seq<(DiffKind, Seq<char>)>) -> Seq<Seq<char>>
    decreases d.len(),
{
    if d.len() == 0 {
        Seq::empty()
    } else if d.last().0 == DiffKind::Add {
        old_side(d.drop_last())
    } else {
        old_side(d.drop_last()).push(d.last().1)
    }
}

/// The lines of a difference that the new text has.
pub open spec fn new_side(d: Seq<(DiffKind, Seq<char>)>) -> Seq<Seq<char>>
    decreases d.len(),
{
    if d.len() == 0 {
        Seq::empty()
    } else if d.last().0 == DiffKind::Del {
        new_side(d.drop_last())
    } else {
        new_side(d.drop_last()).push(d.last().1)
    }
}

/// The lines that a difference keeps.
pub open spec fn kept(d: Seq<(DiffKind, Seq<char>)>) -> Seq<Seq<char>>
    decreases d.len(),
{
    if d.len() == 0 {
        Seq::empty()
    } else if d.last().0 == DiffKind::Same {
        kept(d.drop_last()).push(d.last().1)
    } else {
        kept(d.drop_last())
    }
}

proof fn lemma_common_steps(a: Seq<Seq<char>>, b: Seq<Seq<char>>, i: int, j: int)
    requires
        0 <= i,
        0 <= j,
    ensures
        common(a, b, i, j) <= i,
        common(a, b, i, j) <= j,
        i > 0 ==> common(a, b, i - 1, j) <= common(a, b, i, j) <= common(a, b, i - 1, j) + 1,
        j > 0 ==> common(a, b, i, j - 1) <= common(a, b, i, j) <= common(a, b, i, j - 1) + 1,
    decreases i + j,
{
    if i > 0 && j > 0 {
        lemma_common_steps(a, b, i - 1, j - 1);
        lemma_common_steps(a, b, i - 1, j);
        lemma_common_steps(a, b, i, j - 1);
    }
}

/// A difference tells both texts: without the added lines it is the old text,
/// without the deleted ones the new text.
pub proof fn law_difference_tells_both_texts(a: Seq<char>, b: Seq<char>)
    ensures
        old_side(text_differences(a, b)) == pieces(a, '\n'),
        new_side(text_differences(a, b)) == pieces(b, '\n'),
{
    let x = pieces(a, '\n');
    let y = pieces(b, '\n');
    lemma_sides(x, y, x.len() as int, y.len() as int);
    assert(x.take(x.len() as int) =~= x);
    assert(y.take(y.len() as int) =~= y);
}

proof fn lemma_sides(a: Seq<Seq<char>>, b: Seq<Seq<char>>, i: int, j: int)
    requires
        0 <= i <= a.len(),
        0 <= j <= b.len(),
    ensures
        old_side(differences(a, b, i, j)) == a.take(i),
        new_side(differences(a, b, i, j)) == b.take(j),
    decreases i + j,
{
    let d = differences(a, b, i, j);
    if i <= 0 && j <= 0 {
        assert(a.take(i) =~= Seq::empty());
        assert(b.take(j) =~= Seq::empty());
    } else if i > 0 && j > 0 && a[i - 1] == b[j - 1] {
        lemma_sides(a, b, i - 1, j - 1);
        assert(d.drop_last() =~= differences(a, b, i - 1, j - 1));
        assert(a.take(i) =~= a.take(i - 1).push(a[i - 1]));
        assert(b.take(j) =~= b.take(j - 1).push(b[j - 1]));
    } else if i > 0 && (j <= 0 || common(a, b, i - 1, j) >= common(a, b, i, j - 1)) {
        lemma_sides(a, b, i - 1, j);
        assert(d.drop_last() =~= differences(a, b, i - 1, j));
        assert(a.take(i) =~= a.take(i - 1).push(a[i - 1]));
    } else {
        lemma_sides(a, b, i, j - 1);
        assert(d.drop_last() =~= differences(a, b, i, j - 1));
        assert(b.take(j) =~= b.take(j - 1).push(b[j - 1]));
    }
}

/// A difference keeps as many lines as can be kept: no common subsequence of
/// the two texts' lines is longer than what it marks as the same.
pub proof fn law_difference_is_minimal(a: Seq<char>, b: Seq<char>, s: Seq<Seq<char>>)
    requires
        subsequence(s, pieces(a, '\n')),
        subsequence(s, pieces(b, '\n')),
    ensures
        s.len() <= kept(text_differences(a, b)).len(),
{
    let x = pieces(a, '\n');
    let y = pieces(b, '\n');
    assert(x.take(x.len() as int) =~= x);
    assert(y.take(y.len() as int) =~= y);
    lemma_longest(x, y, x.len() as int, y.len() as int, s);
    lemma_kept_len(x, y, x.len() as int, y.len() as int);
}

proof fn lemma_kept_len(a: Seq<Seq<char>>, b: Seq<Seq<char>>, i: int, j: int)
    requires
        0 <= i <= a.len(),
        0 <= j <= b.len(),
    ensures
        kept(differences(a, b, i, j)).len() == common(a, b, i, j),
    decreases i + j,
{
    let d = differences(a, b, i, j);
    if i <= 0 && j <= 0 {
    } else if i > 0 && j > 0 && a[i - 1] == b[j - 1] {
        lemma_kept_len(a, b, i - 1, j - 1);
        assert(d.drop_last() =~= differences(a, b, i - 1, j - 1));
    } else if i > 0 && (j <= 0 || common(a, b, i - 1, j) >= common(a, b, i, j - 1)) {
        lemma_kept_len(a, b, i - 1, j);
        assert(d.drop_last() =~= differences(a, b, i - 1, j));
    } else {
        lemma_kept_len(a, b, i, j - 1);
        assert(d.drop_last() =~= differences(a, b, i, j - 1));
    }
}

proof fn lemma_longest(a: Seq<Seq<char>>, b: Seq<Seq<char>>, i: int, j: int, s: Seq<Seq<char>>)
    requires
        0 <= i <= a.len(),
        0 <= j <= b.len(),
        subsequence(s, a.take(i)),
        subsequence(s, b.take(j)),
    ensures
        s.len() <= common(a, b, i, j),
    decreases i + j,
{
    if s.len() > 0 {
        let x = a.take(i);
        let y = b.take(j);
        assert(x.drop_last() =~= a.take(i - 1));
        assert(y.drop_last() =~= b.take(j - 1));
        lemma_common_steps(a, b, i, j);
        if subsequence(s, x.drop_last()) {
            lemma_longest(a, b, i - 1, j, s);
        } else if subsequence(s, y.drop_last()) {
            lemma_longest(a, b, i, j - 1, s);
        } else {
            assert(a[i - 1] == b[j - 1]);
            lemma_longest(a, b, i - 1, j - 1, s.drop_last());
        }
    }
}

/// The table of common subsequence lengths.
fn common_table(a: &Vec<String>, b: &Vec<String>) -> (r: Vec<Vec<usize>>)
    ensures
        r@.len() == a@.len() + 1,
        forall|i: int| 0 <= i <= a@.len() ==> (#[trigger] r@[i])@.len() == b@.len() + 1,
        forall|i: int, j: int|
            0 <= i <= a@.len() && 0 <= j <= b@.len() ==> #[trigger] r@[i]@[j] == common(
                views(a@),
                views(b@),
                i,
                j,
            ),
{
    let n: usize = a.len();
    let m: usize = b.len();
    let ghost x = views(a@);
    let ghost y = views(b@);
    let mut table: Vec<Vec<usize>> = Vec::new();
    let mut first: Vec<usize> = Vec::new();
    first.push(0);
    for j in 0..m
        invariant
            first@.len() == j + 1,
            forall|k: int| 0 <= k <= j ==> #[trigger] first@[k] == 0,
    {
        first.push(0);
    }
    table.push(first);
    for i in 0..n
        invariant
            n == a@.len(),
            m == b@.len(),
            x == views(a@),
            y == views(b@),
            table@.len() == i + 1,
            forall|k: int| 0 <= k <= i ==> (#[trigger] table@[k])@.len() == m + 1,
            forall|k: int, l: int|
                0 <= k <= i && 0 <= l <= m ==> #[trigger] table@[k]@[l] == common(x, y, k, l),
    {
        let mut row: Vec<usize> = Vec::new();
        row.push(0);
        for j in 0..m
            invariant
                n == a@.len(),
                m == b@.len(),
                x == views(a@),
                y == views(b@),
                i < n,
                table@.len() == i + 1,
                table@[i as int]@.len() == m + 1,
                forall|l: int| 0 <= l <= m ==> #[trigger] table@[i as int]@[l] == common(x, y, i as int, l),
                row@.len() == j + 1,
                forall|l: int| 0 <= l <= j ==> #[trigger] row@[l] == common(x, y, i + 1, l),
        {
            assert(x[i as int] == a@[i as int]@);
            assert(y[j as int] == b@[j as int]@);
            assert(table@[i as int]@[j as int] == common(x, y, i as int, j as int));
            assert(table@[i as int]@[j + 1] == common(x, y, i as int, j + 1));
            assert(row@[j as int] == common(x, y, i + 1, j as int));
            let up: usize = table[i][j + 1];
            let left: usize = row[j];
            let v: usize = if same_text(a[i].as_str(), b[j].as_str()) {
                proof {
                    lemma_common_steps(x, y, i as int, j as int);
                }
                table[i][j] + 1
            } else if left >= up {
                left
            } else {
                up
            };
            row.push(v);
        }
        let ghost before = table@;
        table.push(row);
        assert forall|k: int, l: int| 0 <= k <= i + 1 && 0 <= l <= m implies #[trigger] table@[k]@[l]
            == common(x, y, k, l) by {
            if k <= i {
                assert(table@[k] == before[k]);
                assert(before[k]@[l] == common(x, y, k, l));
            }
        }
    }
    table
}

/// The line-level differences between two texts, in source order, with as many
/// lines kept as can be.
pub fn line_diff(a: &str, b: &str) -> (r: Vec<(DiffKind, String)>)
    ensures
        diff_view(r@) == text_differences(a@, b@),
{
    let al: Vec<String> = split(a, '\n');
    let bl: Vec<String> = split(b, '\n');
    let ghost x = views(al@);
    let ghost y = views(bl@);
    let table: Vec<Vec<usize>> = common_table(&al, &bl);
    let mut i: usize = al.len();
    let mut j: usize = bl.len();
    let ghost total = differences(x, y, i as int, j as int);
    let mut back: Vec<(DiffKind, String)> = Vec::new();
    assert(differences(x, y, i as int, j as int) + diff_view(back@).reverse() =~= total);
    while i > 0 || j > 0
        invariant
            x == views(al@),
            y == views(bl@),
            i <= al@.len(),
            j <= bl@.len(),
            table@.len() == al@.len() + 1,
            forall|k: int| 0 <= k <= al@.len() ==> (#[trigger] table@[k])@.len() == bl@.len() + 1,
            forall|k: int, l: int|
                0 <= k <= al@.len() && 0 <= l <= bl@.len() ==> #[trigger] table@[k]@[l] == common(
                    x,
                    y,
                    k,
                    l,
                ),
            differences(x, y, i as int, j as int) + diff_view(back@).reverse() == total,
        decreases i + j,
    {
        let ghost before = differences(x, y, i as int, j as int);
        let ghost old_back = back@;
        proof {
            if i > 0 {
                assert(x[i - 1] == al@[i - 1]@);
            }
            if j > 0 {
                assert(y[j - 1] == bl@[j - 1]@);
            }
            if i > 0 && j > 0 {
                assert(table@[i - 1]@[j as int] == common(x, y, i - 1, j as int));
                assert(table@[i as int]@[j - 1] == common(x, y, i as int, j - 1));
            }
        }
        let entry: (DiffKind, String);
        if i > 0 && j > 0 && same_text(al[i - 1].as_str(), bl[j - 1].as_str()) {
            entry = (DiffKind::Same, copy_text(al[i - 1].as_str()));
            i = i - 1;
            j = j - 1;
        } else if i > 0 && (j == 0 || table[i - 1][j] >= table[i][j - 1]) {
            entry = (DiffKind::Del, copy_text(al[i - 1].as_str()));
            i = i - 1;
        } else {
            entry = (DiffKind::Add, copy_text(bl[j - 1].as_str()));
            j = j - 1;
        }
        proof {
            let after = differences(x, y, i as int, j as int);
            assert(before == after.push((entry.0, entry.1@)));
            let pushed = diff_view(old_back.push(entry));
            assert(pushed =~= diff_view(old_back).push((entry.0, entry.1@)));
            assert(after + pushed.reverse() =~= before + diff_view(old_back).reverse());
        }
        back.push(entry);
    }
    assert(differences(x, y, 0, 0) + diff_view(back@).reverse() =~= diff_view(back@).reverse());
    let mut out: Vec<(DiffKind, String)> = Vec::new();
    let len: usize = back.len();
    let ghost fwd = diff_view(back@).reverse();
    for k in 0..len
        invariant
            len == back@.len(),
            fwd == diff_view(back@).reverse(),
            diff_view(out@) == fwd.take(k as int),
    {
        let e = &back[len - 1 - k];
        let copy = (e.0, copy_text(e.1.as_str()));
        proof {
            assert(diff_view(out@.push(copy)) =~= diff_view(out@).push((copy.0, copy.1@)));
            assert(fwd.take(k + 1) =~= fwd.take(k as int).push(fwd[k as int]));
        }
        out.push(copy);
    }
    assert(fwd.take(len as int) =~= fwd);
    out
}

/// The class and the marker of a line in a difference block.
pub open spec fn diff_line_html(d: (DiffKind, Seq<char>)) -> Seq<char> {
    let (cls, marker) = match d.0 {
        DiffKind::Same => ("diff-line-same"@, " "@),
        DiffKind::Add => ("diff-line-add"@, "+"@),
        DiffKind::Del => ("diff-line-del"@, "-"@),
    };
    "<span class=\"diff-line "@ + cls + "\"><span class=\"diff-marker\">"@ + marker + "</span>"@
        + escaped(d.1) + "</span>\n"@
}

/// The lines of a difference as HTML, one after the other.
pub open spec fn diff_lines_html(d: Seq<(DiffKind, Seq<char>)>) -> Seq<char>
    decreases d.len(),
{
    if d.len() == 0 {
        Seq::empty()
    } else {
        diff_lines_html(d.drop_last()) + diff_line_html(d.last())
    }
}

/// The block for a field that changed from `before` to `after`.
pub open spec fn diff_field_html(
    label: Seq<char>,
    before: Seq<char>,
    after: Seq<char>,
) -> Seq<char> {
    "<div class=\"diff-field\"><div class=\"diff-field-label\">"@ + escaped(label)
        + "</div><pre class=\"diff-block\">"@ + diff_lines_html(text_differences(before, after))
        + "</pre></div>"@
}

fn diff_line(kind: DiffKind, text: &str) -> (r: String)
    ensures
        r@ == diff_line_html((kind, text@)),
{
    let (cls, marker) = match kind {
        DiffKind::Same => ("diff-line-same", " "),
        DiffKind::Add => ("diff-line-add", "+"),
        DiffKind::Del => ("diff-line-del", "-"),
    };
    let t = escape_html(text);
    let mut out: String = "<span class=\"diff-line ".to_owned();
    out.push_str(cls);
    out.push_str("\"><span class=\"diff-marker\">");
    out.push_str(marker);
    out.push_str("</span>");
    out.push_str(t.as_str());
    out.push_str("</span>\n");
    out
}

/// One field's before and after as a difference block; `None` where the two are
/// the same.
pub fn render_diff_field(label: &str, before: &str, after: &str) -> (r: Option<String>)
    ensures
        match r {
            Some(html) => before@ != after@ && html@ == diff_field_html(label@, before@, after@),
            None => before@ == after@,
        },
{
    if same_text(before, after) {
        return None;
    }
    let l = escape_html(label);
    let mut out: String = "<div class=\"diff-field\"><div class=\"diff-field-label\">".to_owned();
    out.push_str(l.as_str());
    out.push_str("</div><pre class=\"diff-block\">");
    let d: Vec<(DiffKind, String)> = line_diff(before, after);
    let n: usize = d.len();
    let mut lines: String = String::new();
    for i in 0..n
        invariant
            n == d@.len(),
            lines@ == diff_lines_html(diff_view(d@).take(i as int)),
    {
        let h = diff_line(d[i].0, d[i].1.as_str());
        proof {
            let t = diff_view(d@).take(i + 1);
            assert(t.drop_last() =~= diff_view(d@).take(i as int));
            assert(t.last() == diff_view(d@)[i as int]);
        }
        lines.push_str(h.as_str());
    }
    assert(diff_view(d@).take(n as int) =~= diff_view(d@));
    out.push_str(lines.as_str());
    out.push_str("</pre></div>");
    Some(out)
}

} // verus!
