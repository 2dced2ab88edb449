//! Trimming, splitting and joining.
use crate::text::{chars_of, copy_text, is_whitespace, text_between, views};
use vstd::prelude::*;

verus! {

use crate::text::{lemma_views_push, lemma_views_take_succ, white_space};

/// `s` without the leading characters that satisfy `p`.
pub open spec fn strip_front(s: Seq<char>, p: spec_fn(char) -> bool) -> Seq<char>
    decreases s.len(),
{
    if s.len() > 0 && p(s[0]) {
        strip_front(s.skip(1), p)
    } else {
        s
    }
}

/// `s` without the trailing characters that satisfy `p`.
pub open spec fn strip_back(s: Seq<char>, p: spec_fn(char) -> bool) -> Seq<char>
    decreases s.len(),
{
    if s.len() > 0 && p(s.last()) {
        strip_back(s.drop_last(), p)
    } else {
        s
    }
}

/// White space as a predicate.
pub open spec fn blank() -> spec_fn(char) -> bool {
    |c: char| white_space(c)
}

/// The predicate that holds of `c` alone.
pub open spec fn exactly(c: char) -> spec_fn(char) -> bool {
    |d: char| d == c
}

/// `s` without leading white space.
pub open spec fn trimmed_start(s: Seq<char>) -> Seq<char> {
    strip_front(s, blank())
}

/// `s` without trailing white space.
pub open spec fn trimmed_end(s: Seq<char>) -> Seq<char> {
    strip_back(s, blank())
}

/// `s` without white space at either end.
pub open spec fn trimmed(s: Seq<char>) -> Seq<char> {
    trimmed_end(trimmed_start(s))
}

/// `s` without `c` at either end.
pub open spec fn trimmed_of(s: Seq<char>, c: char) -> Seq<char> {
    strip_back(strip_front(s, exactly(c)), exactly(c))
}

pub proof fn lemma_strip_front(s: Seq<char>, p: spec_fn(char) -> bool)
    ensures
        strip_front(s, p).len() <= s.len(),
        strip_front(s, p) == s.skip(s.len() - strip_front(s, p).len()),
        strip_front(s, p).len() > 0 ==> !p(strip_front(s, p)[0]),
        forall|i: int| 0 <= i < s.len() - strip_front(s, p).len() ==> p(#[trigger] s[i]),
    decreases s.len(),
{
    if s.len() > 0 && p(s[0]) {
        let t = s.skip(1);
        lemma_strip_front(t, p);
        let k = t.len() - strip_front(t, p).len();
        assert(t.skip(k) =~= s.skip(k + 1));
        assert forall|i: int| 0 <= i < k + 1 implies p(#[trigger] s[i]) by {
            if i > 0 {
                assert(t[i - 1] == s[i]);
            }
        }
    } else {
        assert(s.skip(0) =~= s);
    }
}

pub proof fn lemma_strip_back(s: Seq<char>, p: spec_fn(char) -> bool)
    ensures
        strip_back(s, p).len() <= s.len(),
        strip_back(s, p) == s.take(strip_back(s, p).len() as int),
        strip_back(s, p).len() > 0 ==> !p(strip_back(s, p).last()),
        forall|i: int| strip_back(s, p).len() <= i < s.len() ==> p(#[trigger] s[i]),
    decreases s.len(),
{
    if s.len() > 0 && p(s.last()) {
        let t = s.drop_last();
        lemma_strip_back(t, p);
        let k = strip_back(t, p).len() as int;
        assert(t.take(k) =~= s.take(k));
        assert forall|i: int| k <= i < s.len() implies p(#[trigger] s[i]) by {
            if i < s.len() - 1 {
                assert(t[i] == s[i]);
            }
        }
    } else {
        assert(s.take(s.len() as int) =~= s);
    }
}

/// Stripping finds the one suffix whose cut-off part satisfies `p` throughout
/// and which does not itself start with such a character.
pub proof fn lemma_strip_front_unique(s: Seq<char>, p: spec_fn(char) -> bool, k: int)
    requires
        0 <= k <= s.len(),
        forall|i: int| 0 <= i < k ==> p(#[trigger] s[i]),
        k < s.len() ==> !p(s[k]),
    ensures
        strip_front(s, p) == s.skip(k),
{
    lemma_strip_front(s, p);
    let m = s.len() - strip_front(s, p).len();
    if m < k {
        assert(strip_front(s, p)[0] == s[m]);
    }
    if k < m {
        assert(p(s[k]));
    }
}

pub proof fn lemma_strip_back_unique(s: Seq<char>, p: spec_fn(char) -> bool, k: int)
    requires
        0 <= k <= s.len(),
        forall|i: int| k <= i < s.len() ==> p(#[trigger] s[i]),
        k > 0 ==> !p(s[k - 1]),
    ensures
        strip_back(s, p) == s.take(k),
{
    lemma_strip_back(s, p);
    let m = strip_back(s, p).len() as int;
    if m < k {
        assert(p(s[k - 1]));
    }
    if k < m {
        assert(strip_back(s, p).last() == s[m - 1]);
        assert(p(s[m - 1]));
    }
}

/// `str::trim` on characters: the bounds of what is left.
fn trim_bounds(v: &Vec<char>) -> (r: (usize, usize))
    ensures
        r.0 <= r.1 <= v@.len(),
        trimmed(v@) == v@.subrange(r.0 as int, r.1 as int),
        trimmed_start(v@) == v@.skip(r.0 as int),
{
    let n: usize = v.len();
    let mut a: usize = 0;
    while a < n && is_whitespace(v[a])
        invariant
            n == v@.len(),
            a <= n,
            forall|i: int| 0 <= i < a ==> white_space(#[trigger] v@[i]),
        decreases n - a,
    {
        a = a + 1;
    }
    let mut b: usize = n;
    while b > a && is_whitespace(v[b - 1])
        invariant
            n == v@.len(),
            a <= b <= n,
            forall|i: int| b <= i < n ==> white_space(#[trigger] v@[i]),
        decreases b,
    {
        b = b - 1;
    }
    proof {
        lemma_strip_front_unique(v@, blank(), a as int);
        let s = v@.skip(a as int);
        assert forall|i: int| b - a <= i < s.len() implies blank()(#[trigger] s[i]) by {
            assert(s[i] == v@[i + a]);
        }
        if b > a {
            assert(s[b - a - 1] == v@[b - 1]);
        }
        lemma_strip_back_unique(s, blank(), b - a);
        assert(s.take(b - a) =~= v@.subrange(a as int, b as int));
    }
    (a, b)
}

/// `s` without white space at either end.
pub fn trim(s: &str) -> (r: String)
    ensures
        r@ == trimmed(s@),
{
    let v: Vec<char> = chars_of(s);
    let b = trim_bounds(&v);
    text_between(&v, b.0, b.1)
}

/// `s` without leading white space.
pub fn trim_start(s: &str) -> (r: String)
    ensures
        r@ == trimmed_start(s@),
{
    let v: Vec<char> = chars_of(s);
    let b = trim_bounds(&v);
    let n: usize = v.len();
    assert(v@.skip(b.0 as int) =~= v@.subrange(b.0 as int, n as int));
    text_between(&v, b.0, n)
}

/// `s` without `c` at its end.
pub fn trim_end_of(s: &str, c: char) -> (r: String)
    ensures
        r@ == strip_back(s@, exactly(c)),
{
    let v: Vec<char> = chars_of(s);
    let n: usize = v.len();
    let mut b: usize = n;
    while b > 0 && v[b - 1] == c
        invariant
            n == v@.len(),
            b <= n,
            forall|i: int| b <= i < n ==> #[trigger] v@[i] == c,
        decreases b,
    {
        b = b - 1;
    }
    proof {
        lemma_strip_back_unique(v@, exactly(c), b as int);
        assert(v@.take(b as int) =~= v@.subrange(0, b as int));
    }
    text_between(&v, 0, b)
}

/// `s` without `c` at its start.
pub fn trim_start_of(s: &str, c: char) -> (r: String)
    ensures
        r@ == strip_front(s@, exactly(c)),
{
    let v: Vec<char> = chars_of(s);
    let n: usize = v.len();
    let mut a: usize = 0;
    while a < n && v[a] == c
        invariant
            n == v@.len(),
            a <= n,
            forall|i: int| 0 <= i < a ==> #[trigger] v@[i] == c,
        decreases n - a,
    {
        a = a + 1;
    }
    proof {
        lemma_strip_front_unique(v@, exactly(c), a as int);
        assert(v@.skip(a as int) =~= v@.subrange(a as int, n as int));
    }
    text_between(&v, a, n)
}

/// `s` without `c` at either end.
pub fn trim_of(s: &str, c: char) -> (r: String)
    ensures
        r@ == trimmed_of(s@, c),
{
    let t = trim_start_of(s, c);
    trim_end_of(t.as_str(), c)
}

/// The pieces of `s` between the occurrences of `c`; always at least one.
pub open spec fn pieces(s: Seq<char>, c: char) -> Seq<Seq<char>>
    decreases s.len(),
{
    if s.len() == 0 {
        seq![Seq::<char>::empty()]
    } else {
        let before = pieces(s.drop_last(), c);
        if s.last() == c {
            before.push(Seq::<char>::empty())
        } else {
            before.drop_last().push(before.last().push(s.last()))
        }
    }
}

pub proof fn lemma_pieces_nonempty(s: Seq<char>, c: char)
    ensures
        pieces(s, c).len() >= 1,
    decreases s.len(),
{
    if s.len() > 0 {
        lemma_pieces_nonempty(s.drop_last(), c);
    }
}

/// `s` split at every occurrence of `c`.
pub fn split(s: &str, c: char) -> (r: Vec<String>)
    ensures
        views(r@) == pieces(s@, c),
{
    let v: Vec<char> = chars_of(s);
    let mut done: Vec<String> = Vec::new();
    let mut cur: String = String::new();
    let n: usize = v.len();
    assert(views(done@).push(cur@) =~= pieces(v@.take(0), c));
    for i in 0..n
        invariant
            n == v@.len(),
            views(done@).push(cur@) == pieces(v@.take(i as int), c),
    {
        let ghost next = v@.take(i + 1);
        assert(next.drop_last() =~= v@.take(i as int));
        assert(next.last() == v@[i as int]);
        if v[i] == c {
            proof {
                lemma_views_push(done@, cur);
            }
            done.push(cur);
            cur = String::new();
            assert(views(done@).push(cur@) =~= pieces(next, c));
        } else {
            cur.push(v[i]);
            assert(views(done@).push(cur@) =~= pieces(next, c));
        }
    }
    proof {
        assert(v@.take(n as int) =~= s@);
        lemma_views_push(done@, cur);
    }
    done.push(cur);
    done
}

/// The parts in order, with `sep` between each two.
pub open spec fn joined(parts: Seq<Seq<char>>, sep: Seq<char>) -> Seq<char>
    decreases parts.len(),
{
    if parts.len() == 0 {
        Seq::<char>::empty()
    } else if parts.len() == 1 {
        parts[0]
    } else {
        joined(parts.drop_last(), sep) + sep + parts.last()
    }
}

/// The parts in order, with `sep` between each two.
pub fn join(parts: &Vec<String>, sep: &str) -> (r: String)
    ensures
        r@ == joined(views(parts@), sep@),
{
    let n: usize = parts.len();
    if n == 0 {
        return String::new();
    }
    let mut out: String = copy_text(parts[0].as_str());
    assert(views(parts@).take(1).len() == 1);
    for i in 1..n
        invariant
            1 <= n == parts@.len(),
            out@ == joined(views(parts@).take(i as int), sep@),
    {
        proof {
            lemma_views_take_succ(parts@, i as int);
            assert(views(parts@).take(i + 1).drop_last() =~= views(parts@).take(i as int));
        }
        out.push_str(sep);
        out.push_str(parts[i].as_str());
    }
    assert(views(parts@).take(n as int) =~= views(parts@));
    out
}

/// Joining the pieces with the separator gives the text back.
pub proof fn law_join_undoes_split(s: Seq<char>, c: char)
    ensures
        joined(pieces(s, c), seq![c]) == s,
    decreases s.len(),
{
    if s.len() > 0 {
        let t = s.drop_last();
        law_join_undoes_split(t, c);
        lemma_pieces_nonempty(t, c);
        let before = pieces(t, c);
        if s.last() == c {
            assert(pieces(s, c).drop_last() =~= before);
            assert(joined(pieces(s, c), seq![c]) =~= t + seq![c] + Seq::<char>::empty());
            assert(s =~= t + seq![c] + Seq::<char>::empty());
        } else {
            let after = pieces(s, c);
            assert(after.drop_last() =~= before.drop_last());
            if before.len() == 1 {
                assert(s =~= before.last().push(s.last()));
            } else {
                assert(joined(after, seq![c]) =~= joined(before.drop_last(), seq![c]) + seq![c]
                    + before.last().push(s.last()));
                assert(s =~= t.push(s.last()));
                assert(joined(after, seq![c]) =~= s);
            }
        }
    }
}

/// No piece holds the separator.
pub proof fn lemma_pieces_without_separator(s: Seq<char>, c: char)
    ensures
        forall|i: int, j: int|
            0 <= i < pieces(s, c).len() && 0 <= j < pieces(s, c)[i].len() ==> #[trigger] pieces(
                s,
                c,
            )[i][j] != c,
    decreases s.len(),
{
    if s.len() > 0 {
        let t = s.drop_last();
        lemma_pieces_without_separator(t, c);
        lemma_pieces_nonempty(t, c);
        let before = pieces(t, c);
        let after = pieces(s, c);
        assert forall|i: int, j: int| 0 <= i < after.len() && 0 <= j < after[i].len() implies
            #[trigger] after[i][j] != c by {
            if i < before.len() - 1 {
                assert(after[i] == before[i]);
                assert(before[i][j] != c);
            } else if i == before.len() - 1 && s.last() != c {
                if j < before[i].len() {
                    assert(before[i][j] != c);
                }
            } else if i == before.len() - 1 {
                assert(after[i] == before[i]);
                assert(before[i][j] != c);
            }
        }
    }
}

/// Splitting a joined list gives the list back, where it has at least one part
/// and no part holds the separator.
pub proof fn law_split_undoes_join(parts: Seq<Seq<char>>, c: char)
    requires
        parts.len() >= 1,
        forall|i: int, j: int|
            0 <= i < parts.len() && 0 <= j < parts[i].len() ==> #[trigger] parts[i][j] != c,
    ensures
        pieces(joined(parts, seq![c]), c) == parts,
    decreases parts.len(),
{
    if parts.len() == 1 {
        lemma_pieces_of_plain(Seq::<char>::empty(), parts[0], c);
        assert(Seq::<char>::empty() + parts[0] =~= parts[0]);
        assert(pieces(parts[0], c) =~= parts);
    } else {
        let front = parts.drop_last();
        assert forall|i: int, j: int| 0 <= i < front.len() && 0 <= j < front[i].len() implies
            #[trigger] front[i][j] != c by {
            assert(front[i] == parts[i]);
            assert(parts[i][j] != c);
        }
        law_split_undoes_join(front, c);
        let head = joined(front, seq![c]) + seq![c];
        assert(head.drop_last() =~= joined(front, seq![c]));
        assert(pieces(head, c) =~= front.push(Seq::<char>::empty()));
        lemma_pieces_of_plain(head, parts.last(), c);
        assert(pieces(head, c).drop_last() =~= front);
        assert(Seq::<char>::empty() + parts.last() =~= parts.last());
        assert(front.push(parts.last()) =~= parts);
    }
}

/// Text without the separator extends the last piece.
pub proof fn lemma_pieces_of_plain(head: Seq<char>, s: Seq<char>, c: char)
    requires
        forall|j: int| 0 <= j < s.len() ==> s[j] != c,
    ensures
        pieces(head + s, c) == pieces(head, c).drop_last().push(pieces(head, c).last() + s),
    decreases s.len(),
{
    lemma_pieces_nonempty(head, c);
    if s.len() == 0 {
        assert(head + s =~= head);
        assert(pieces(head, c).last() + s =~= pieces(head, c).last());
        assert(pieces(head, c).drop_last().push(pieces(head, c).last()) =~= pieces(head, c));
    } else {
        let t = s.drop_last();
        lemma_pieces_of_plain(head, t, c);
        assert((head + s).drop_last() =~= head + t);
        assert((head + s).last() == s.last());
        assert(pieces(head + t, c).drop_last() =~= pieces(head, c).drop_last());
        assert((pieces(head, c).last() + t).push(s.last()) =~= pieces(head, c).last() + s);
    }
}

/// Trimming cuts a range out of the text that has no white space at its ends.
pub proof fn lemma_trimmed(s: Seq<char>)
    ensures
        exists|a: int, b: int|
            0 <= a <= b <= s.len() && #[trigger] s.subrange(a, b) == trimmed(s),
        trimmed(s).len() > 0 ==> !white_space(trimmed(s)[0]) && !white_space(trimmed(s).last()),
        trimmed(trimmed(s)) == trimmed(s),
        forall|i: int|
            0 <= i < trimmed(s).len() ==> s.contains(#[trigger] trimmed(s)[i]),
{
    lemma_strip_front(s, blank());
    let f = trimmed_start(s);
    let a = s.len() - f.len();
    lemma_strip_back(f, blank());
    let t = trimmed(s);
    assert(t =~= s.subrange(a, a + t.len()));
    if t.len() > 0 {
        assert(t[0] == f[0]);
    }
    lemma_strip_front_unique(t, blank(), 0);
    assert(t.skip(0) =~= t);
    lemma_strip_back_unique(t, blank(), t.len() as int);
    assert(t.take(t.len() as int) =~= t);
    assert forall|i: int| 0 <= i < t.len() implies s.contains(#[trigger] t[i]) by {
        assert(s[a + i] == t[i]);
    }
}

/// The parts that are not blank, trimmed.
pub open spec fn trimmed_parts(l: Seq<Seq<char>>) -> Seq<Seq<char>>
    decreases l.len(),
{
    if l.len() == 0 {
        Seq::empty()
    } else {
        let before = trimmed_parts(l.drop_last());
        let t = trimmed(l.last());
        if t.len() == 0 {
            before
        } else {
            before.push(t)
        }
    }
}

/// The parts that are not empty.
pub open spec fn filled_parts(l: Seq<Seq<char>>) -> Seq<Seq<char>> {
    l.filter(|s: Seq<char>| s.len() > 0)
}

/// The parts that are not blank, trimmed.
pub fn trim_parts(l: &Vec<String>) -> (r: Vec<String>)
    ensures
        views(r@) == trimmed_parts(views(l@)),
{
    let mut out: Vec<String> = Vec::new();
    let n: usize = l.len();
    assert(views(out@) =~= Seq::<Seq<char>>::empty());
    for i in 0..n
        invariant
            n == l@.len(),
            views(out@) == trimmed_parts(views(l@).take(i as int)),
    {
        proof {
            let t = views(l@).take(i + 1);
            assert(t.drop_last() =~= views(l@).take(i as int));
            assert(t.last() == l@[i as int]@);
        }
        let t = trim(l[i].as_str());
        if t.as_str().unicode_len() > 0 {
            proof {
                lemma_views_push(out@, t);
            }
            out.push(t);
        }
    }
    assert(views(l@).take(n as int) =~= views(l@));
    out
}

/// The parts that are not empty.
pub fn fill_parts(l: &Vec<String>) -> (r: Vec<String>)
    ensures
        views(r@) == filled_parts(views(l@)),
{
    let mut out: Vec<String> = Vec::new();
    let n: usize = l.len();
    let ghost p = |s: Seq<char>| s.len() > 0;
    assert(views(out@) =~= views(l@).take(0).filter(p)) by {
        reveal(Seq::filter);
    }
    for i in 0..n
        invariant
            n == l@.len(),
            p == (|s: Seq<char>| s.len() > 0),
            views(out@) == views(l@).take(i as int).filter(p),
    {
        proof {
            reveal(Seq::filter);
            let t = views(l@).take(i + 1);
            assert(t.drop_last() =~= views(l@).take(i as int));
            assert(t.last() == l@[i as int]@);
        }
        if l[i].as_str().unicode_len() > 0 {
            let s = copy_text(l[i].as_str());
            proof {
                lemma_views_push(out@, s);
            }
            out.push(s);
        }
    }
    assert(views(l@).take(n as int) =~= views(l@));
    out
}

/// Whether a text has nothing but white space.
pub fn is_blank(s: &str) -> (r: bool)
    ensures
        r == (trimmed(s@).len() == 0),
{
    let t = trim(s);
    t.as_str().unicode_len() == 0
}

/// Each part is trimmed and not empty, and made of characters of the list.
pub proof fn lemma_trimmed_parts(l: Seq<Seq<char>>)
    ensures
        trimmed_parts(l).len() <= l.len(),
        forall|i: int|
            0 <= i < trimmed_parts(l).len() ==> (#[trigger] trimmed_parts(l)[i]).len() > 0
                && trimmed(trimmed_parts(l)[i]) == trimmed_parts(l)[i] && exists|k: int|
                0 <= k < l.len() && trimmed(#[trigger] l[k]) == trimmed_parts(l)[i],
    decreases l.len(),
{
    if l.len() > 0 {
        let p = l.drop_last();
        lemma_trimmed_parts(p);
        lemma_trimmed(l.last());
        let b = trimmed_parts(p);
        let r = trimmed_parts(l);
        assert forall|i: int| 0 <= i < r.len() implies (#[trigger] r[i]).len() > 0 && trimmed(r[i])
            == r[i] && exists|k: int| 0 <= k < l.len() && trimmed(#[trigger] l[k]) == r[i] by {
            if i < b.len() {
                assert(r[i] == b[i]);
                let k = choose|k: int| 0 <= k < p.len() && trimmed(#[trigger] p[k]) == b[i];
                assert(l[k] == p[k]);
            } else {
                assert(trimmed(l[l.len() - 1]) == r[i]);
            }
        }
    }
}

/// Nothing is left of an empty text, nor of a list that holds one alone.
pub proof fn lemma_empty_part()
    ensures
        trimmed(Seq::<char>::empty()) == Seq::<char>::empty(),
        trimmed_parts(seq![Seq::<char>::empty()]) == Seq::<Seq<char>>::empty(),
{
    let e = Seq::<char>::empty();
    assert(trimmed_start(e) == e);
    assert(trimmed(e) == e);
    let one = seq![e];
    assert(one.drop_last() =~= Seq::<Seq<char>>::empty());
    assert(one.last() == e);
    assert(trimmed_parts(one.drop_last()) == Seq::<Seq<char>>::empty());
}

/// Parts that are trimmed and not empty are kept as they are.
pub proof fn lemma_trimmed_parts_keep(l: Seq<Seq<char>>)
    requires
        forall|i: int| 0 <= i < l.len() ==> (#[trigger] l[i]).len() > 0 && trimmed(l[i]) == l[i],
    ensures
        trimmed_parts(l) == l,
    decreases l.len(),
{
    if l.len() > 0 {
        let p = l.drop_last();
        assert forall|i: int| 0 <= i < p.len() implies (#[trigger] p[i]).len() > 0 && trimmed(p[i])
            == p[i] by {
            assert(p[i] == l[i]);
        }
        lemma_trimmed_parts_keep(p);
        assert(l[l.len() - 1] == l.last());
        assert(p.push(l.last()) =~= l);
    } else {
        assert(trimmed_parts(l) =~= l);
    }
}

/// The words of a text: its runs of characters that are not white space.
pub open spec fn words(s: Seq<char>) -> Seq<Seq<char>>
    decreases s.len(),
{
    if s.len() == 0 {
        Seq::empty()
    } else {
        let t = s.drop_last();
        let before = words(t);
        if white_space(s.last()) {
            before
        } else if t.len() == 0 || white_space(t.last()) {
            before.push(seq![s.last()])
        } else {
            before.drop_last().push(before.last().push(s.last()))
        }
    }
}

proof fn lemma_words_last(s: Seq<char>)
    ensures
        s.len() > 0 && !white_space(s.last()) ==> words(s).len() > 0,
{
}

/// The words of a text: its runs of characters that are not white space.
pub fn split_words(s: &str) -> (r: Vec<String>)
    ensures
        views(r@) == words(s@),
{
    let v: Vec<char> = chars_of(s);
    let n: usize = v.len();
    let mut out: Vec<String> = Vec::new();
    let mut word: String = String::new();
    let mut inside = false;
    assert(views(out@) =~= Seq::<Seq<char>>::empty());
    for i in 0..n
        invariant
            n == v@.len(),
            inside == (i > 0 && !white_space(v@[i - 1])),
            if inside {
                &&& words(v@.take(i as int)).len() > 0
                &&& views(out@) == words(v@.take(i as int)).drop_last()
                &&& word@ == words(v@.take(i as int)).last()
            } else {
                views(out@) == words(v@.take(i as int))
            },
    {
        proof {
            let t = v@.take(i + 1);
            assert(t.drop_last() =~= v@.take(i as int));
            assert(t.last() == v@[i as int]);
            lemma_words_last(t);
            if i > 0 {
                assert(v@.take(i as int).last() == v@[i - 1]);
            }
        }
        let c = v[i];
        if is_whitespace(c) {
            if inside {
                let ghost before = out@;
                let w = word;
                out.push(w);
                assert(views(out@) =~= views(before).push(w@));
                assert(views(out@) =~= words(v@.take(i as int)));
                word = String::new();
                inside = false;
            }
        } else if inside {
            let ghost old_word = word@;
            word.push(c);
            assert(word@ =~= old_word.push(c));
            assert(words(v@.take(i + 1)).drop_last() =~= words(v@.take(i as int)).drop_last());
        } else {
            word = String::new();
            word.push(c);
            assert(word@ =~= seq![c]);
            assert(words(v@.take(i + 1)).drop_last() =~= words(v@.take(i as int)));
            inside = true;
        }
    }
    assert(v@.take(n as int) =~= s@);
    if inside {
        let ghost before = out@;
        let ghost w = word@;
        out.push(word);
        assert(views(out@) =~= views(before).push(w));
        assert(views(out@) =~= words(s@));
    }
    out
}

/// Whether every character of a text is a blank.
pub open spec fn all_blank(s: Seq<char>) -> bool {
    forall|i: int| 0 <= i < s.len() ==> white_space(#[trigger] s[i])
}

/// Trimming leaves what stands between the outer blanks of a text, whatever it holds itself.
pub proof fn law_outer_blanks_are_trimmed(a: Seq<char>, s: Seq<char>, b: Seq<char>)
    requires
        all_blank(a),
        all_blank(b),
        s.len() > 0 ==> !white_space(s[0]) && !white_space(s.last()),
    ensures
        trimmed(a + s + b) == s,
{
    let w = a + s + b;
    if s.len() == 0 {
        assert forall|i: int| 0 <= i < w.len() implies blank()(#[trigger] w[i]) by {
            if i < a.len() {
                assert(w[i] == a[i]);
            } else {
                assert(w[i] == b[i - a.len()]);
            }
        }
        lemma_strip_front_unique(w, blank(), w.len() as int);
        assert(w.skip(w.len() as int) =~= s);
    } else {
        let t = s + b;
        assert forall|i: int| 0 <= i < a.len() implies blank()(#[trigger] w[i]) by {
            assert(w[i] == a[i]);
        }
        assert(w[a.len() as int] == s[0]);
        lemma_strip_front_unique(w, blank(), a.len() as int);
        assert(w.skip(a.len() as int) =~= t);
        assert forall|i: int| s.len() <= i < t.len() implies blank()(#[trigger] t[i]) by {
            assert(t[i] == b[i - s.len()]);
        }
        assert(t[s.len() - 1] == s.last());
        lemma_strip_back_unique(t, blank(), s.len() as int);
        assert(t.take(s.len() as int) =~= s);
    }
}

/// Nothing is left of a text exactly where all of it is blank.
pub proof fn law_blank_texts(s: Seq<char>)
    ensures
        trimmed(s).len() == 0 <==> all_blank(s),
{
    let e = Seq::<char>::empty();
    if all_blank(s) {
        law_outer_blanks_are_trimmed(s, e, e);
        assert(s + e + e =~= s);
    }
    if trimmed(s).len() == 0 {
        let t = trimmed_start(s);
        lemma_strip_front(s, blank());
        lemma_strip_back(t, blank());
        if t.len() > 0 {
            assert(blank()(t[0]));
        }
        assert forall|i: int| 0 <= i < s.len() implies white_space(#[trigger] s[i]) by {
            assert(blank()(s[i]));
        }
    }
}

/// A blank parts two runs of words.
pub proof fn law_blanks_part_words(a: Seq<char>, c: char, b: Seq<char>)
    requires
        white_space(c),
    ensures
        words(a + seq![c] + b) == words(a) + words(b),
    decreases b.len(),
{
    let w = a + seq![c] + b;
    if b.len() == 0 {
        assert(w.drop_last() =~= a);
        assert(w.last() == c);
        assert(words(a) + words(b) =~= words(a));
    } else {
        let t = b.drop_last();
        law_blanks_part_words(a, c, t);
        assert(w.drop_last() =~= a + seq![c] + t);
        assert(w.last() == b.last());
        let before = words(a) + words(t);
        if white_space(b.last()) {
        } else if t.len() == 0 {
            assert(w.drop_last().last() == c);
            assert(before.push(seq![b.last()]) =~= words(a) + words(b));
        } else {
            assert(w.drop_last().last() == t.last());
            if white_space(t.last()) {
                assert(before.push(seq![b.last()]) =~= words(a) + words(b));
            } else {
                lemma_words_last(t);
                assert(before.drop_last() =~= words(a) + words(t).drop_last());
                assert(before.drop_last().push(before.last().push(b.last())) =~= words(a) + words(
                    b,
                ));
            }
        }
    }
}

/// A text without blanks is one word.
pub proof fn law_unbroken_text_is_a_word(s: Seq<char>)
    requires
        s.len() > 0,
        forall|i: int| 0 <= i < s.len() ==> !white_space(#[trigger] s[i]),
    ensures
        words(s) == seq![s],
    decreases s.len(),
{
    let t = s.drop_last();
    assert(!white_space(s[s.len() - 1]));
    if t.len() == 0 {
        assert(seq![s.last()] =~= s);
        assert(words(t) =~= Seq::<Seq<char>>::empty());
        assert(words(t).push(s) =~= seq![s]);
    } else {
        assert forall|i: int| 0 <= i < t.len() implies !white_space(#[trigger] t[i]) by {
            assert(t[i] == s[i]);
        }
        assert(!white_space(t[t.len() - 1]));
        law_unbroken_text_is_a_word(t);
        assert(t.push(s.last()) =~= s);
        assert(seq![t].drop_last().push(s) =~= seq![s]);
    }
}

pub proof fn lemma_trimmed_parts_concat(a: Seq<Seq<char>>, b: Seq<Seq<char>>)
    ensures
        trimmed_parts(a + b) == trimmed_parts(a) + trimmed_parts(b),
    decreases b.len(),
{
    if b.len() == 0 {
        assert(a + b =~= a);
        assert(trimmed_parts(a) + trimmed_parts(b) =~= trimmed_parts(a));
    } else {
        lemma_trimmed_parts_concat(a, b.drop_last());
        assert((a + b).drop_last() =~= a + b.drop_last());
        assert(trimmed_parts(a + b) =~= trimmed_parts(a) + trimmed_parts(b));
    }
}

} // verus!
