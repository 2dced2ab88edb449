//! Sorted lists of distinct texts.
use crate::text::{chars_of, copy_text, same_text, views};
use vstd::prelude::*;

verus! {


/// Lexicographic order by code point, which is also the order of the UTF-8 bytes.
pub open spec fn text_before(a: Seq<char>, b: Seq<char>) -> bool
    decreases a.len(),
{
    if b.len() == 0 {
        false
    } else if a.len() == 0 {
        true
    } else if a[0] != b[0] {
        a[0] < b[0]
    } else {
        text_before(a.skip(1), b.skip(1))
    }
}

pub proof fn lemma_text_before_total(a: Seq<char>, b: Seq<char>)
    ensures
        a == b || text_before(a, b) || text_before(b, a),
        !(text_before(a, b) && text_before(b, a)),
        !text_before(a, a),
    decreases a.len(),
{
    if a.len() > 0 {
        lemma_text_before_total(a.skip(1), a.skip(1));
    }
    if a.len() == 0 && b.len() == 0 {
        assert(a =~= b);
    } else if a.len() > 0 && b.len() > 0 && a[0] == b[0] {
        lemma_text_before_total(a.skip(1), b.skip(1));
        if a.skip(1) == b.skip(1) {
            assert(a =~= seq![a[0]] + a.skip(1));
            assert(b =~= seq![b[0]] + b.skip(1));
        }
    }
}

pub proof fn lemma_text_before_transitive(a: Seq<char>, b: Seq<char>, c: Seq<char>)
    requires
        text_before(a, b),
        text_before(b, c),
    ensures
        text_before(a, c),
    decreases a.len(),
{
    if a.len() > 0 && b.len() > 0 && c.len() > 0 && a[0] == b[0] && b[0] == c[0] {
        lemma_text_before_transitive(a.skip(1), b.skip(1), c.skip(1));
    }
}

/// Whether `a` comes before `b`.
pub fn comes_before(a: &str, b: &str) -> (r: bool)
    ensures
        r == text_before(a@, b@),
{
    let x: Vec<char> = chars_of(a);
    let y: Vec<char> = chars_of(b);
    let n: usize = x.len();
    let m: usize = y.len();
    let mut i: usize = 0;
    assert(x@.skip(0) =~= x@);
    assert(y@.skip(0) =~= y@);
    while i < n && i < m && x[i] == y[i]
        invariant
            n == x@.len(),
            m == y@.len(),
            i <= n,
            i <= m,
            text_before(x@.skip(i as int), y@.skip(i as int)) == text_before(x@, y@),
        decreases n - i,
    {
        assert(x@.skip(i as int).skip(1) =~= x@.skip(i + 1));
        assert(y@.skip(i as int).skip(1) =~= y@.skip(i + 1));
        i = i + 1;
    }
    if i == m {
        false
    } else if i == n {
        true
    } else {
        let c = x[i];
        let d = y[i];
        c < d
    }
}

/// How many of the first entries of `l` come before `s`.
pub open spec fn rank(l: Seq<Seq<char>>, s: Seq<char>) -> int
    decreases l.len(),
{
    if l.len() == 0 {
        0
    } else if text_before(l[0], s) {
        1 + rank(l.skip(1), s)
    } else {
        0
    }
}

/// `l` with `s` put in its place, unless it is there already.
pub open spec fn sorted_with(l: Seq<Seq<char>>, s: Seq<char>) -> Seq<Seq<char>> {
    let k = rank(l, s);
    if k < l.len() && l[k] == s {
        l
    } else {
        l.take(k) + seq![s] + l.skip(k)
    }
}

/// The distinct texts of `l` in order.
pub open spec fn sorted_distinct(l: Seq<Seq<char>>) -> Seq<Seq<char>>
    decreases l.len(),
{
    if l.len() == 0 {
        Seq::empty()
    } else {
        sorted_with(sorted_distinct(l.drop_last()), l.last())
    }
}

/// Each entry comes before the next.
pub open spec fn ascending(l: Seq<Seq<char>>) -> bool {
    forall|i: int, j: int| 0 <= i < j < l.len() ==> text_before(#[trigger] l[i], #[trigger] l[j])
}

pub proof fn lemma_rank(l: Seq<Seq<char>>, s: Seq<char>)
    ensures
        0 <= rank(l, s) <= l.len(),
        forall|i: int| 0 <= i < rank(l, s) ==> text_before(#[trigger] l[i], s),
        rank(l, s) < l.len() ==> !text_before(l[rank(l, s)], s),
    decreases l.len(),
{
    if l.len() > 0 && text_before(l[0], s) {
        lemma_rank(l.skip(1), s);
        let k = rank(l.skip(1), s);
        assert forall|i: int| 0 <= i < 1 + k implies text_before(#[trigger] l[i], s) by {
            if i > 0 {
                assert(l.skip(1)[i - 1] == l[i]);
            }
        }
        if k < l.skip(1).len() {
            assert(l.skip(1)[k] == l[k + 1]);
        }
    }
}

pub proof fn lemma_rank_unique(l: Seq<Seq<char>>, s: Seq<char>, k: int)
    requires
        0 <= k <= l.len(),
        forall|i: int| 0 <= i < k ==> text_before(#[trigger] l[i], s),
        k < l.len() ==> !text_before(l[k], s),
    ensures
        rank(l, s) == k,
{
    lemma_rank(l, s);
    if rank(l, s) < k {
        assert(text_before(l[rank(l, s)], s));
    } else if k < rank(l, s) {
        assert(text_before(l[k], s));
    }
}

/// Putting a text in keeps the list ascending, and adds that text alone.
pub proof fn lemma_sorted_with(l: Seq<Seq<char>>, s: Seq<char>)
    requires
        ascending(l),
    ensures
        ascending(sorted_with(l, s)),
        forall|t: Seq<char>| #[trigger] sorted_with(l, s).contains(t) <==> l.contains(t) || t == s,
{
    lemma_rank(l, s);
    let k = rank(l, s);
    let m = sorted_with(l, s);
    if k < l.len() && l[k] == s {
        assert(l.contains(s));
    } else {
        assert(m[k] == s);
        if k < l.len() {
            lemma_text_before_total(l[k], s);
        }
        assert forall|i: int, j: int| 0 <= i < j < m.len() implies text_before(
            #[trigger] m[i],
            #[trigger] m[j],
        ) by {
            let oi = if i < k { i } else { i - 1 };
            let oj = if j < k { j } else { j - 1 };
            if i == k {
                assert(m[j] == l[oj]);
                if oj > k {
                    assert(text_before(l[k], l[oj]));
                    lemma_text_before_transitive(s, l[k], l[oj]);
                }
            } else if j == k {
                assert(m[i] == l[oi]);
                assert(text_before(l[oi], s));
            } else {
                assert(m[i] == l[oi]);
                assert(m[j] == l[oj]);
                assert(text_before(l[oi], l[oj]));
            }
        }
        assert forall|t: Seq<char>| #[trigger] m.contains(t) <==> l.contains(t) || t == s by {
            if l.contains(t) {
                let i = choose|i: int| 0 <= i < l.len() && l[i] == t;
                if i < k {
                    assert(m[i] == t);
                } else {
                    assert(m[i + 1] == t);
                }
            }
            if m.contains(t) && t != s {
                let i = choose|i: int| 0 <= i < m.len() && m[i] == t;
                if i < k {
                    assert(l[i] == t);
                } else {
                    assert(l[i - 1] == t);
                }
            }
        }
    }
}

/// A sorted list of distinct texts holds the texts of the list it was made of,
/// each once and in ascending order.
pub proof fn law_sorted_distinct(l: Seq<Seq<char>>)
    ensures
        ascending(sorted_distinct(l)),
        forall|t: Seq<char>| #[trigger] sorted_distinct(l).contains(t) <==> l.contains(t),
    decreases l.len(),
{
    if l.len() > 0 {
        let p = l.drop_last();
        law_sorted_distinct(p);
        lemma_sorted_with(sorted_distinct(p), l.last());
        assert forall|t: Seq<char>| #[trigger] sorted_distinct(l).contains(t) <==> l.contains(t) by {
            if l.contains(t) {
                let i = choose|i: int| 0 <= i < l.len() && l[i] == t;
                if i < p.len() {
                    assert(p[i] == t);
                    assert(p.contains(t));
                }
            }
            if p.contains(t) {
                let i = choose|i: int| 0 <= i < p.len() && p[i] == t;
                assert(l[i] == t);
            }
            assert(l[l.len() - 1] == l.last());
        }
    }
}

/// Puts `s` in its place in a sorted list, unless it is there already.
pub fn insert_sorted(l: &mut Vec<String>, s: String)
    ensures
        views(final(l)@) == sorted_with(views(old(l)@), s@),
{
    let n: usize = l.len();
    let mut k: usize = 0;
    while k < n && comes_before(l[k].as_str(), s.as_str())
        invariant
            l@ == old(l)@,
            n == l@.len(),
            k <= n,
            forall|i: int| 0 <= i < k ==> text_before(#[trigger] views(l@)[i], s@),
        decreases n - k,
    {
        k = k + 1;
    }
    proof {
        if k < n {
            assert(views(l@)[k as int] == l@[k as int]@);
        }
        lemma_rank_unique(views(l@), s@, k as int);
    }
    if k < n && same_text(l[k].as_str(), s.as_str()) {
        return;
    }
    l.insert(k, s);
    assert(views(l@) =~= sorted_with(views(old(l)@), s@));
}

/// The distinct texts of `l` in order.
pub fn sort_distinct(l: &Vec<String>) -> (r: Vec<String>)
    ensures
        views(r@) == sorted_distinct(views(l@)),
{
    let mut out: Vec<String> = Vec::new();
    let n: usize = l.len();
    assert(views(out@) =~= Seq::<Seq<char>>::empty());
    assert(views(l@).take(0) =~= Seq::<Seq<char>>::empty());
    for i in 0..n
        invariant
            n == l@.len(),
            views(out@) == sorted_distinct(views(l@).take(i as int)),
    {
        let s = copy_text(l[i].as_str());
        insert_sorted(&mut out, s);
        proof {
            let t = views(l@).take(i + 1);
            assert(t.drop_last() =~= views(l@).take(i as int));
            assert(t.last() == l@[i as int]@);
        }
    }
    assert(views(l@).take(n as int) =~= views(l@));
    out
}

/// Whether two texts agree up to a place where the first ends, or has the smaller character.
pub open spec fn decided_at(a: Seq<char>, b: Seq<char>, k: int) -> bool {
    &&& 0 <= k < b.len()
    &&& k <= a.len()
    &&& forall|i: int| 0 <= i < k ==> #[trigger] a[i] == b[i]
    &&& k == a.len() || a[k] < b[k]
}

/// A text comes before another exactly where they agree up to a place at which the first
/// ends, or has the smaller character.
pub proof fn law_the_first_difference_decides(a: Seq<char>, b: Seq<char>)
    ensures
        text_before(a, b) <==> exists|k: int| decided_at(a, b, k),
    decreases a.len(),
{
    if b.len() > 0 && a.len() > 0 && a[0] == b[0] {
        let x = a.skip(1);
        let y = b.skip(1);
        law_the_first_difference_decides(x, y);
        if text_before(a, b) {
            let k = choose|k: int| decided_at(x, y, k);
            assert forall|i: int| 0 <= i < k + 1 implies #[trigger] a[i] == b[i] by {
                if i > 0 {
                    assert(x[i - 1] == y[i - 1]);
                }
            }
            assert(k < x.len() ==> x[k] == a[k + 1] && y[k] == b[k + 1]);
            assert(decided_at(a, b, k + 1));
        }
        if exists|k: int| decided_at(a, b, k) {
            let k = choose|k: int| decided_at(a, b, k);
            assert(k > 0);
            assert forall|i: int| 0 <= i < k - 1 implies #[trigger] x[i] == y[i] by {
                assert(a[i + 1] == b[i + 1]);
            }
            assert(decided_at(x, y, k - 1));
        }
    } else if b.len() > 0 {
        if text_before(a, b) {
            assert(decided_at(a, b, 0));
        }
        if exists|k: int| decided_at(a, b, k) {
            let k = choose|k: int| decided_at(a, b, k);
            if k > 0 {
                assert(a[0] == b[0]);
            }
        }
    }
}

} // verus!
