//! Folders in the order of a tree: each with what lies below it directly after it.
use crate::text::{chars_of, copy_text, same_text};
use vstd::prelude::*;

verus! {

use crate::order::text_before;
use crate::paths::{lemma_joined_concat, slash};
use crate::text::views;
use crate::trim::joined;

/// The order of characters in paths: a slash ends a segment, and so comes before every
/// other character.
pub open spec fn char_before(a: char, b: char) -> bool {
    a != b && (a == '/' || (b != '/' && a < b))
}

/// The order of paths by their segments, and of segments by code point.
pub open spec fn path_before(a: Seq<char>, b: Seq<char>) -> bool
    decreases a.len(),
{
    if b.len() == 0 {
        false
    } else if a.len() == 0 {
        true
    } else if a[0] != b[0] {
        char_before(a[0], b[0])
    } else {
        path_before(a.skip(1), b.skip(1))
    }
}

pub proof fn lemma_path_before_total(a: Seq<char>, b: Seq<char>)
    ensures
        a == b || path_before(a, b) || path_before(b, a),
        !(path_before(a, b) && path_before(b, a)),
        !path_before(a, a),
    decreases a.len(),
{
    if a.len() > 0 {
        lemma_path_before_total(a.skip(1), a.skip(1));
    }
    if a.len() == 0 && b.len() == 0 {
        assert(a =~= b);
    } else if a.len() > 0 && b.len() > 0 && a[0] == b[0] {
        lemma_path_before_total(a.skip(1), b.skip(1));
        if a.skip(1) == b.skip(1) {
            assert(a =~= seq![a[0]] + a.skip(1));
            assert(b =~= seq![b[0]] + b.skip(1));
        }
    }
}

pub proof fn lemma_path_before_transitive(a: Seq<char>, b: Seq<char>, c: Seq<char>)
    requires
        path_before(a, b),
        path_before(b, c),
    ensures
        path_before(a, c),
    decreases a.len(),
{
    if a.len() > 0 && b.len() > 0 && c.len() > 0 && a[0] == b[0] && b[0] == c[0] {
        lemma_path_before_transitive(a.skip(1), b.skip(1), c.skip(1));
    }
}

/// Whether `a` comes before `b`.
fn path_comes_before(a: &str, b: &str) -> (r: bool)
    ensures
        r == path_before(a@, b@),
{
    let x: Vec<char> = chars_of(a);
    let y: Vec<char> = chars_of(b);
    let n: usize = x.len();
    let m: usize = y.len();
    let mut i: usize = 0;
    assert(x@.skip(0) =~= x@);
    assert(y@.skip(0) =~= y@);
    while i < n && i < m && x[i] == y[i]
        invariant
            n == x@.len(),
            m == y@.len(),
            i <= n,
            i <= m,
            path_before(x@.skip(i as int), y@.skip(i as int)) == path_before(x@, y@),
        decreases n - i,
    {
        assert(x@.skip(i as int).skip(1) =~= x@.skip(i + 1));
        assert(y@.skip(i as int).skip(1) =~= y@.skip(i + 1));
        i = i + 1;
    }
    if i == m {
        false
    } else if i == n {
        true
    } else {
        let c = x[i];
        let d = y[i];
        if c == '/' {
            true
        } else if d == '/' {
            false
        } else {
            c < d
        }
    }
}

/// How many of the first entries of `l` come before `s`.
pub open spec fn place_of(l: Seq<Seq<char>>, s: Seq<char>) -> int
    decreases l.len(),
{
    if l.len() == 0 {
        0
    } else if path_before(l[0], s) {
        1 + place_of(l.skip(1), s)
    } else {
        0
    }
}

/// `l` with `s` put in its place, unless it is there already.
pub open spec fn placed_in(l: Seq<Seq<char>>, s: Seq<char>) -> Seq<Seq<char>> {
    let k = place_of(l, s);
    if k < l.len() && l[k] == s {
        l
    } else {
        l.take(k) + seq![s] + l.skip(k)
    }
}

/// The distinct paths of `l` in the order of the tree.
pub open spec fn tree_sorted(l: Seq<Seq<char>>) -> Seq<Seq<char>>
    decreases l.len(),
{
    if l.len() == 0 {
        Seq::empty()
    } else {
        placed_in(tree_sorted(l.drop_last()), l.last())
    }
}

/// Each entry comes before the next.
pub open spec fn in_tree_order(l: Seq<Seq<char>>) -> bool {
    forall|i: int, j: int| 0 <= i < j < l.len() ==> path_before(#[trigger] l[i], #[trigger] l[j])
}

pub proof fn lemma_place(l: Seq<Seq<char>>, s: Seq<char>)
    ensures
        0 <= place_of(l, s) <= l.len(),
        forall|i: int| 0 <= i < place_of(l, s) ==> path_before(#[trigger] l[i], s),
        place_of(l, s) < l.len() ==> !path_before(l[place_of(l, s)], s),
    decreases l.len(),
{
    if l.len() > 0 && path_before(l[0], s) {
        lemma_place(l.skip(1), s);
        let k = place_of(l.skip(1), s);
        assert forall|i: int| 0 <= i < 1 + k implies path_before(#[trigger] l[i], s) by {
            if i > 0 {
                assert(l.skip(1)[i - 1] == l[i]);
            }
        }
        if k < l.skip(1).len() {
            assert(l.skip(1)[k] == l[k + 1]);
        }
    }
}

pub proof fn lemma_place_unique(l: Seq<Seq<char>>, s: Seq<char>, k: int)
    requires
        0 <= k <= l.len(),
        forall|i: int| 0 <= i < k ==> path_before(#[trigger] l[i], s),
        k < l.len() ==> !path_before(l[k], s),
    ensures
        place_of(l, s) == k,
{
    lemma_place(l, s);
    if place_of(l, s) < k {
        assert(path_before(l[place_of(l, s)], s));
    } else if k < place_of(l, s) {
        assert(path_before(l[k], s));
    }
}

/// Putting a text in keeps the list ascending, and adds that text alone.
pub proof fn lemma_placed_in(l: Seq<Seq<char>>, s: Seq<char>)
    requires
        in_tree_order(l),
    ensures
        in_tree_order(placed_in(l, s)),
        forall|t: Seq<char>| #[trigger] placed_in(l, s).contains(t) <==> l.contains(t) || t == s,
{
    lemma_place(l, s);
    let k = place_of(l, s);
    let m = placed_in(l, s);
    if k < l.len() && l[k] == s {
        assert(l.contains(s));
    } else {
        assert(m[k] == s);
        if k < l.len() {
            lemma_path_before_total(l[k], s);
        }
        assert forall|i: int, j: int| 0 <= i < j < m.len() implies path_before(
            #[trigger] m[i],
            #[trigger] m[j],
        ) by {
            let oi = if i < k { i } else { i - 1 };
            let oj = if j < k { j } else { j - 1 };
            if i == k {
                assert(m[j] == l[oj]);
                if oj > k {
                    assert(path_before(l[k], l[oj]));
                    lemma_path_before_transitive(s, l[k], l[oj]);
                }
            } else if j == k {
                assert(m[i] == l[oi]);
                assert(path_before(l[oi], s));
            } else {
                assert(m[i] == l[oi]);
                assert(m[j] == l[oj]);
                assert(path_before(l[oi], l[oj]));
            }
        }
        assert forall|t: Seq<char>| #[trigger] m.contains(t) <==> l.contains(t) || t == s by {
            if l.contains(t) {
                let i = choose|i: int| 0 <= i < l.len() && l[i] == t;
                if i < k {
                    assert(m[i] == t);
                } else {
                    assert(m[i + 1] == t);
                }
            }
            if m.contains(t) && t != s {
                let i = choose|i: int| 0 <= i < m.len() && m[i] == t;
                if i < k {
                    assert(l[i] == t);
                } else {
                    assert(l[i - 1] == t);
                }
            }
        }
    }
}

/// A sorted list of paths holds the paths of the list it was made of, each once and in
/// the order of the tree.
pub proof fn law_tree_order(l: Seq<Seq<char>>)
    ensures
        in_tree_order(tree_sorted(l)),
        forall|t: Seq<char>| #[trigger] tree_sorted(l).contains(t) <==> l.contains(t),
    decreases l.len(),
{
    if l.len() > 0 {
        let p = l.drop_last();
        law_tree_order(p);
        lemma_placed_in(tree_sorted(p), l.last());
        assert forall|t: Seq<char>| #[trigger] tree_sorted(l).contains(t) <==> l.contains(t) by {
            if l.contains(t) {
                let i = choose|i: int| 0 <= i < l.len() && l[i] == t;
                if i < p.len() {
                    assert(p[i] == t);
                    assert(p.contains(t));
                }
            }
            if p.contains(t) {
                let i = choose|i: int| 0 <= i < p.len() && p[i] == t;
                assert(l[i] == t);
            }
            assert(l[l.len() - 1] == l.last());
        }
    }
}

/// Puts `s` in its place in a sorted list, unless it is there already.
fn place_in(l: &mut Vec<String>, s: String)
    ensures
        views(final(l)@) == placed_in(views(old(l)@), s@),
{
    let n: usize = l.len();
    let mut k: usize = 0;
    while k < n && path_comes_before(l[k].as_str(), s.as_str())
        invariant
            l@ == old(l)@,
            n == l@.len(),
            k <= n,
            forall|i: int| 0 <= i < k ==> path_before(#[trigger] views(l@)[i], s@),
        decreases n - k,
    {
        k = k + 1;
    }
    proof {
        if k < n {
            assert(views(l@)[k as int] == l@[k as int]@);
        }
        lemma_place_unique(views(l@), s@, k as int);
    }
    if k < n && same_text(l[k].as_str(), s.as_str()) {
        return;
    }
    l.insert(k, s);
    assert(views(l@) =~= placed_in(views(old(l)@), s@));
}

/// The distinct paths of `l` in the order of the tree.
pub fn sort_tree(l: &Vec<String>) -> (r: Vec<String>)
    ensures
        views(r@) == tree_sorted(views(l@)),
{
    let mut out: Vec<String> = Vec::new();
    let n: usize = l.len();
    assert(views(out@) =~= Seq::<Seq<char>>::empty());
    assert(views(l@).take(0) =~= Seq::<Seq<char>>::empty());
    for i in 0..n
        invariant
            n == l@.len(),
            views(out@) == tree_sorted(views(l@).take(i as int)),
    {
        let s = copy_text(l[i].as_str());
        place_in(&mut out, s);
        proof {
            let t = views(l@).take(i + 1);
            assert(t.drop_last() =~= views(l@).take(i as int));
            assert(t.last() == l@[i as int]@);
        }
    }
    assert(views(l@).take(n as int) =~= views(l@));
    out
}

/// A path comes before every path below it.
pub proof fn lemma_folder_before_its_own(a: Seq<char>, b: Seq<char>)
    requires
        (a + slash()).is_prefix_of(b),
    ensures
        path_before(a, b),
    decreases a.len(),
{
    if a.len() > 0 {
        lemma_prefix_step(a, b);
        lemma_folder_before_its_own(a.skip(1), b.skip(1));
    }
}

/// What stands between a path and one below it lies below it too.
pub proof fn lemma_between_is_below(a: Seq<char>, x: Seq<char>, b: Seq<char>)
    requires
        path_before(a, x),
        path_before(x, b),
        (a + slash()).is_prefix_of(b),
    ensures
        (a + slash()).is_prefix_of(x),
    decreases a.len(),
{
    if a.len() == 0 {
        assert(b[0] == (a + slash())[0]);
        assert(x[0] == '/');
        assert(a + slash() =~= x.take(1));
    } else {
        lemma_prefix_step(a, b);
        assert(x[0] == a[0]);
        lemma_between_is_below(a.skip(1), x.skip(1), b.skip(1));
        let p = a + slash();
        let q = a.skip(1) + slash();
        assert forall|k: int| 0 <= k < p.len() implies p[k] == x[k] by {
            if k > 0 {
                assert(q[k - 1] == x.skip(1)[k - 1]);
            }
        }
        assert(p =~= x.take(p.len() as int));
    }
}

proof fn lemma_prefix_step(a: Seq<char>, b: Seq<char>)
    requires
        a.len() > 0,
        (a + slash()).is_prefix_of(b),
    ensures
        b.len() > 0,
        a[0] == b[0],
        (a.skip(1) + slash()).is_prefix_of(b.skip(1)),
{
    let p = a + slash();
    assert(b.take(p.len() as int) =~= p);
    assert(b[0] == p[0]);
    let q = a.skip(1) + slash();
    assert forall|k: int| 0 <= k < q.len() implies q[k] == b.skip(1)[k] by {
        assert(p[k + 1] == b[k + 1]);
    }
    assert(q =~= b.skip(1).take(q.len() as int));
}

/// The order of lists of segments: by the first in which they differ, and a list before
/// those that go on from it.
pub open spec fn segments_before(a: Seq<Seq<char>>, b: Seq<Seq<char>>) -> bool
    decreases a.len(),
{
    if b.len() == 0 {
        false
    } else if a.len() == 0 {
        true
    } else if a[0] != b[0] {
        text_before(a[0], b[0])
    } else {
        segments_before(a.skip(1), b.skip(1))
    }
}

/// Whether no text of a list holds a slash.
pub open spec fn no_slashes(l: Seq<Seq<char>>) -> bool {
    forall|i: int| 0 <= i < l.len() ==> !(#[trigger] l[i]).contains('/')
}

/// Whether a text is empty or starts with a slash.
spec fn after_segment(t: Seq<char>) -> bool {
    t.len() == 0 || t[0] == '/'
}

proof fn lemma_first_segment(x: Seq<char>, y: Seq<char>, a: Seq<char>, b: Seq<char>)
    requires
        !x.contains('/'),
        !y.contains('/'),
        after_segment(a),
        after_segment(b),
    ensures
        path_before(x + a, y + b) == (if x == y {
            path_before(a, b)
        } else {
            text_before(x, y)
        }),
    decreases x.len(),
{
    if x.len() == 0 && y.len() == 0 {
        assert(x =~= y);
        assert(x + a =~= a);
        assert(y + b =~= b);
    } else if x.len() == 0 {
        assert(x + a =~= a);
        assert((y + b)[0] == y[0]);
        assert(y.contains(y[0]));
    } else if y.len() == 0 {
        assert(y + b =~= b);
        assert((x + a)[0] == x[0]);
        assert(x.contains(x[0]));
    } else {
        assert((x + a)[0] == x[0]);
        assert((y + b)[0] == y[0]);
        assert(x.contains(x[0]));
        assert(y.contains(y[0]));
        if x[0] == y[0] {
            let p = x.skip(1);
            let q = y.skip(1);
            assert((x + a).skip(1) =~= p + a);
            assert((y + b).skip(1) =~= q + b);
            assert forall|i: int| 0 <= i < p.len() implies p[i] != '/' by {
                assert(x.contains(x[i + 1]));
            }
            assert forall|i: int| 0 <= i < q.len() implies q[i] != '/' by {
                assert(y.contains(y[i + 1]));
            }
            lemma_first_segment(p, q, a, b);
            if p == q {
                assert(x =~= seq![x[0]] + p);
                assert(y =~= seq![y[0]] + q);
            }
        }
    }
}

/// What follows the first segment of a path.
spec fn tail_of(l: Seq<Seq<char>>) -> Seq<char> {
    if l.len() <= 1 {
        Seq::empty()
    } else {
        slash() + joined(l.skip(1), slash())
    }
}

proof fn lemma_tail_of(l: Seq<Seq<char>>)
    requires
        l.len() > 0,
    ensures
        joined(l, slash()) == l[0] + tail_of(l),
{
    if l.len() == 1 {
        assert(l[0] + tail_of(l) =~= l[0]);
    } else {
        let a = seq![l[0]];
        assert(a + l.skip(1) =~= l);
        lemma_joined_concat(a, l.skip(1), slash());
        assert(joined(a, slash()) == l[0]);
        assert(l[0] + slash() + joined(l.skip(1), slash()) =~= l[0] + tail_of(l));
    }
}

/// Paths come in the order of their segments.
pub proof fn law_paths_go_by_segments(a: Seq<Seq<char>>, b: Seq<Seq<char>>)
    requires
        a.len() > 0,
        b.len() > 0,
        no_slashes(a),
        no_slashes(b),
    ensures
        path_before(joined(a, slash()), joined(b, slash())) == segments_before(a, b),
    decreases a.len(),
{
    let (s, t) = (tail_of(a), tail_of(b));
    lemma_tail_of(a);
    lemma_tail_of(b);
    lemma_first_segment(a[0], b[0], s, t);
    if a[0] == b[0] {
        let (p, q) = (a.skip(1), b.skip(1));
        if a.len() > 1 && b.len() > 1 {
            assert(s.skip(1) =~= joined(p, slash()));
            assert(t.skip(1) =~= joined(q, slash()));
            assert forall|i: int| 0 <= i < p.len() implies !(#[trigger] p[i]).contains('/') by {
                assert(p[i] == a[i + 1]);
            }
            assert forall|i: int| 0 <= i < q.len() implies !(#[trigger] q[i]).contains('/') by {
                assert(q[i] == b[i + 1]);
            }
            law_paths_go_by_segments(p, q);
            assert(path_before(s, t) == path_before(s.skip(1), t.skip(1)));
        } else {
            assert(segments_before(p, q) == (p.len() == 0 && q.len() > 0));
        }
    }
}

} // verus!
