//! Searching and replacing.
use crate::text::chars_of;
use vstd::prelude::*;

verus! {

/// Whether `needle` stands in `hay` at position `i`.
pub open spec fn stands_at(hay: Seq<char>, needle: Seq<char>, i: int) -> bool {
    0 <= i && i + needle.len() <= hay.len() && hay.subrange(i, i + needle.len()) == needle
}

/// Whether `needle` occurs in `hay`.
pub open spec fn occurs(hay: Seq<char>, needle: Seq<char>) -> bool {
    exists|i: int| stands_at(hay, needle, i)
}

/// The first position from `from` on at which `needle` stands in `hay`.
pub open spec fn first_from(hay: Seq<char>, needle: Seq<char>, from: int) -> Option<int>
    decreases hay.len() - from + 1,
{
    if from < 0 || from + needle.len() > hay.len() {
        None
    } else if stands_at(hay, needle, from) {
        Some(from)
    } else {
        first_from(hay, needle, from + 1)
    }
}

pub proof fn lemma_first_from(hay: Seq<char>, needle: Seq<char>, from: int)
    requires
        0 <= from,
    ensures
        match first_from(hay, needle, from) {
            Some(i) => from <= i && stands_at(hay, needle, i) && forall|j: int|
                from <= j < i ==> !stands_at(hay, needle, j),
            None => forall|j: int| from <= j ==> !stands_at(hay, needle, j),
        },
    decreases hay.len() - from + 1,
{
    if from + needle.len() > hay.len() {
    } else if stands_at(hay, needle, from) {
    } else {
        lemma_first_from(hay, needle, from + 1);
    }
}

/// Whether `needle` stands in `hay` at `at`.
pub fn stands_here(hay: &Vec<char>, needle: &Vec<char>, at: usize) -> (r: bool)
    requires
        at <= hay@.len(),
    ensures
        r == stands_at(hay@, needle@, at as int),
{
    let m: usize = needle.len();
    let n: usize = hay.len();
    if n - at < m {
        return false;
    }
    for j in 0..m
        invariant
            m == needle@.len(),
            n == hay@.len(),
            at + m <= n,
            forall|k: int| 0 <= k < j ==> hay@[at + k] == needle@[k],
    {
        if hay[at + j] != needle[j] {
            assert(hay@.subrange(at as int, at + m)[j as int] != needle@[j as int]);
            return false;
        }
    }
    assert(hay@.subrange(at as int, at + m) =~= needle@);
    true
}

/// The first position from `from` on at which `needle` stands in `hay`.
pub fn find_from(hay: &Vec<char>, needle: &Vec<char>, from: usize) -> (r: Option<usize>)
    requires
        from <= hay@.len(),
    ensures
        match r {
            Some(i) => first_from(hay@, needle@, from as int) == Some(i as int) && from <= i && i
                + needle@.len() <= hay@.len(),
            None => first_from(hay@, needle@, from as int) is None,
        },
{
    let n: usize = hay.len();
    let m: usize = needle.len();
    let mut i: usize = from;
    while i < n && n - i >= m
        invariant
            n == hay@.len(),
            m == needle@.len(),
            from <= i <= n,
            first_from(hay@, needle@, from as int) == first_from(hay@, needle@, i as int),
        decreases n - i,
    {
        if stands_here(hay, needle, i) {
            return Some(i);
        }
        i = i + 1;
    }
    if stands_here(hay, needle, i) {
        return Some(i);
    }
    proof {
        reveal_with_fuel(first_from, 2);
    }
    None
}

/// Whether `s` holds `needle`.
pub fn contains(s: &str, needle: &str) -> (r: bool)
    ensures
        r == occurs(s@, needle@),
{
    let h: Vec<char> = chars_of(s);
    let n: Vec<char> = chars_of(needle);
    let f = find_from(&h, &n, 0);
    proof {
        lemma_first_from(s@, needle@, 0);
        if f is None {
            assert forall|i: int| !stands_at(s@, needle@, i) by {}
        } else {
            assert(stands_at(s@, needle@, f->0 as int));
        }
    }
    f.is_some()
}

/// Whether `s` holds the character `c`.
pub fn contains_char(s: &str, c: char) -> (r: bool)
    ensures
        r == s@.contains(c),
{
    let v: Vec<char> = chars_of(s);
    let n: usize = v.len();
    for i in 0..n
        invariant
            n == v@.len(),
            v@ == s@,
            forall|j: int| 0 <= j < i ==> v@[j] != c,
    {
        if v[i] == c {
            assert(s@[i as int] == c);
            return true;
        }
    }
    false
}

/// Whether `s` begins with `p`.
pub fn starts_with(s: &str, p: &str) -> (r: bool)
    ensures
        r == p@.is_prefix_of(s@),
{
    let v: Vec<char> = chars_of(s);
    let w: Vec<char> = chars_of(p);
    let r = stands_here(&v, &w, 0);
    r
}

/// Whether `s` ends with `p`.
pub fn ends_with(s: &str, p: &str) -> (r: bool)
    ensures
        r == p@.is_suffix_of(s@),
{
    let v: Vec<char> = chars_of(s);
    let w: Vec<char> = chars_of(p);
    if v.len() < w.len() {
        return false;
    }
    let k: usize = v.len() - w.len();
    stands_here(&v, &w, k)
}

/// The text from `i` on with every occurrence of `from` replaced by `to`, left
/// to right and without overlap. An empty `from` is nowhere replaced.
pub open spec fn replaced_from(s: Seq<char>, from: Seq<char>, to: Seq<char>, i: int) -> Seq<char>
    decreases s.len() - i,
{
    if i < 0 || i >= s.len() {
        Seq::<char>::empty()
    } else if from.len() > 0 && stands_at(s, from, i) {
        to + replaced_from(s, from, to, i + from.len())
    } else {
        seq![s[i]] + replaced_from(s, from, to, i + 1)
    }
}

/// `s` with every occurrence of `from` replaced by `to`.
pub open spec fn replaced(s: Seq<char>, from: Seq<char>, to: Seq<char>) -> Seq<char> {
    replaced_from(s, from, to, 0)
}

/// `s` with every occurrence of `from` replaced by `to`; `from` is not empty.
pub fn replace(s: &str, from: &str, to: &str) -> (r: String)
    requires
        from@.len() > 0,
    ensures
        r@ == replaced(s@, from@, to@),
{
    let v: Vec<char> = chars_of(s);
    let f: Vec<char> = chars_of(from);
    let n: usize = v.len();
    let m: usize = f.len();
    let mut out: String = String::new();
    let mut i: usize = 0;
    assert(out@ + replaced_from(s@, from@, to@, 0) =~= replaced(s@, from@, to@));
    while i < n
        invariant
            n == v@.len(),
            m == f@.len() > 0,
            v@ == s@,
            f@ == from@,
            i <= n,
            out@ + replaced_from(s@, from@, to@, i as int) == replaced(s@, from@, to@),
        decreases n - i,
    {
        if stands_here(&v, &f, i) {
            proof {
                let rest = replaced_from(s@, from@, to@, i + m);
                assert(out@ + (to@ + rest) =~= (out@ + to@) + rest);
            }
            out.push_str(to);
            i = i + m;
        } else {
            proof {
                let rest = replaced_from(s@, from@, to@, i + 1);
                assert(out@ + (seq![s@[i as int]] + rest) =~= out@.push(s@[i as int]) + rest);
            }
            out.push(v[i]);
            i = i + 1;
        }
    }
    assert(out@ + replaced_from(s@, from@, to@, n as int) =~= out@);
    out
}

/// Replacing what does not occur changes nothing.
pub proof fn lemma_replaced_absent(s: Seq<char>, from: Seq<char>, to: Seq<char>, i: int)
    requires
        0 <= i <= s.len(),
        forall|j: int| i <= j < s.len() ==> !stands_at(s, from, j),
    ensures
        replaced_from(s, from, to, i) == s.skip(i),
    decreases s.len() - i,
{
    if i < s.len() {
        lemma_replaced_absent(s, from, to, i + 1);
        assert(seq![s[i]] + s.skip(i + 1) =~= s.skip(i));
    } else {
        assert(s.skip(i) =~= Seq::<char>::empty());
    }
}

proof fn lemma_replaced_shift(p: Seq<char>, s: Seq<char>, from: Seq<char>, to: Seq<char>, i: int)
    requires
        0 <= i <= s.len(),
    ensures
        replaced_from(p + s, from, to, p.len() + i) == replaced_from(s, from, to, i),
    decreases s.len() - i,
{
    let w = p + s;
    let k = p.len() + i;
    if i < s.len() {
        if i + from.len() <= s.len() {
            assert(w.subrange(k, k + from.len()) =~= s.subrange(i, i + from.len()));
        }
        assert(stands_at(w, from, k) == stands_at(s, from, i));
        if from.len() > 0 && stands_at(s, from, i) {
            lemma_replaced_shift(p, s, from, to, i + from.len());
        } else {
            lemma_replaced_shift(p, s, from, to, i + 1);
        }
    }
}

proof fn lemma_replaced_up_to(s: Seq<char>, from: Seq<char>, to: Seq<char>, i: int, k: int)
    requires
        0 <= i <= k <= s.len(),
        forall|j: int| i <= j < k ==> !#[trigger] stands_at(s, from, j),
    ensures
        replaced_from(s, from, to, i) == s.subrange(i, k) + replaced_from(s, from, to, k),
    decreases k - i,
{
    if i < k {
        assert(!stands_at(s, from, i));
        lemma_replaced_up_to(s, from, to, i + 1, k);
        assert(s.subrange(i, k) =~= seq![s[i]] + s.subrange(i + 1, k));
        assert(seq![s[i]] + (s.subrange(i + 1, k) + replaced_from(s, from, to, k)) =~= s.subrange(
            i,
            k,
        ) + replaced_from(s, from, to, k));
    } else {
        assert(s.subrange(i, k) + replaced_from(s, from, to, k) =~= replaced_from(s, from, to, k));
    }
}

/// Replacing puts the new text where the old one first stands, keeps what is before it, and
/// goes on behind it; a text in which the old one does not stand is kept.
pub proof fn law_occurrences_are_replaced(
    a: Seq<char>,
    from: Seq<char>,
    b: Seq<char>,
    to: Seq<char>,
)
    requires
        from.len() > 0,
        forall|j: int| 0 <= j < a.len() ==> !#[trigger] stands_at(a + from + b, from, j),
    ensures
        replaced(a + from + b, from, to) == a + to + replaced(b, from, to),
        !occurs(b, from) ==> replaced(b, from, to) == b,
{
    let s = a + from + b;
    let k = a.len() as int;
    lemma_replaced_up_to(s, from, to, 0, k);
    assert(s.subrange(0, k) =~= a);
    assert(s.subrange(k, k + from.len()) =~= from);
    assert(stands_at(s, from, k));
    lemma_replaced_shift(a + from, b, from, to, 0);
    assert(a + (to + replaced(b, from, to)) =~= a + to + replaced(b, from, to));
    if !occurs(b, from) {
        lemma_replaced_absent(b, from, to, 0);
        assert(b.skip(0) =~= b);
    }
}

} // verus!
