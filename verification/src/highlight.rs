//! Search-match highlighting.
use crate::find::find_from;
use crate::html::escape_html;
use crate::text::{char_to_lowercase, chars_of, str_to_lowercase, text_between};
use crate::trim::{is_blank, trim};
use vstd::prelude::*;

verus! {

use crate::find::{first_from, lemma_first_from, replaced, replaced_from, stands_at};
use crate::html::{
    escaped,
    law_escape_distributes,
    law_escaped_text_holds_no_markup,
    markup_char,
};
use crate::text::{lowercase_char, lowercase_text};
use crate::trim::trimmed;

/// What opens a highlighted match.
pub const MATCH_OPEN: &'static str = "<strong class=\"search-match\">";

/// What closes a highlighted match.
pub const MATCH_CLOSE: &'static str = "</strong>";

/// `t` with each character in lower case.
pub open spec fn lowered(t: Seq<char>) -> Seq<char>
    decreases t.len(),
{
    if t.len() == 0 {
        Seq::<char>::empty()
    } else {
        lowered(t.drop_last()) + lowercase_char(t.last())
    }
}

/// For each character of `lowered(t)`, the position in `t` that it comes from.
pub open spec fn origins(t: Seq<char>) -> Seq<int>
    decreases t.len(),
{
    if t.len() == 0 {
        Seq::<int>::empty()
    } else {
        origins(t.drop_last()) + Seq::new(lowercase_char(t.last()).len(), |k: int| t.len() - 1)
    }
}

proof fn lemma_origins(t: Seq<char>)
    ensures
        origins(t).len() == lowered(t).len(),
        forall|k: int| 0 <= k < origins(t).len() ==> 0 <= #[trigger] origins(t)[k] < t.len(),
    decreases t.len(),
{
    if t.len() > 0 {
        let p = t.drop_last();
        lemma_origins(p);
        assert forall|k: int| 0 <= k < origins(t).len() implies 0 <= #[trigger] origins(t)[k]
            < t.len() by {
            if k < origins(p).len() {
                assert(origins(t)[k] == origins(p)[k]);
            }
        }
    }
}

/// The text from `plain` on, cut into pieces that match and pieces that do not.
/// The search goes on at `search` in the lower-case form `low`; `org` leads back
/// to positions in `text`.
pub open spec fn segments_from(
    text: Seq<char>,
    low: Seq<char>,
    org: Seq<int>,
    needle: Seq<char>,
    search: int,
    plain: int,
) -> Seq<(bool, Seq<char>)>
    decreases low.len() - search,
{
    if needle.len() == 0 || search < 0 {
        seq![(false, text.skip(plain))]
    } else {
        proof {
            lemma_first_from(low, needle, search);
        }
        match first_from(low, needle, search) {
            None => seq![(false, text.skip(plain))],
            Some(s) => {
                let e = s + needle.len();
                let (a, b) = (org[s], org[e]);
                if b > a && a >= plain {
                    seq![(false, text.subrange(plain, a)), (true, text.subrange(a, b))]
                        + segments_from(text, low, org, needle, e, b)
                } else {
                    segments_from(text, low, org, needle, e, plain)
                }
            },
        }
    }
}

/// What the query `q` is searched as; empty where it is blank.
pub open spec fn needle_of(q: Seq<char>) -> Seq<char> {
    if trimmed(q).len() == 0 {
        Seq::<char>::empty()
    } else {
        lowercase_text(trimmed(q))
    }
}

/// `text` cut into pieces that match the query `q`, ignoring case, and pieces
/// that do not. A blank query matches nothing.
pub open spec fn segments(text: Seq<char>, q: Seq<char>) -> Seq<(bool, Seq<char>)> {
    segments_from(text, lowered(text), origins(text).push(text.len() as int), needle_of(q), 0, 0)
}

/// A piece as HTML: escaped, and marked where it matches.
pub open spec fn segment_html(seg: (bool, Seq<char>)) -> Seq<char> {
    if seg.0 {
        MATCH_OPEN@ + escaped(seg.1) + MATCH_CLOSE@
    } else {
        escaped(seg.1)
    }
}

/// Pieces as HTML, one after the other.
pub open spec fn segments_html(segs: Seq<(bool, Seq<char>)>) -> Seq<char>
    decreases segs.len(),
{
    if segs.len() == 0 {
        Seq::<char>::empty()
    } else {
        segment_html(segs[0]) + segments_html(segs.skip(1))
    }
}

/// `text` as HTML with the matches of `q` marked.
pub open spec fn highlighted(text: Seq<char>, q: Seq<char>) -> Seq<char> {
    segments_html(segments(text, q))
}

proof fn lemma_segments_html_two(
    x: (bool, Seq<char>),
    y: (bool, Seq<char>),
    rest: Seq<(bool, Seq<char>)>,
)
    ensures
        segments_html(seq![x, y] + rest) == segment_html(x) + (segment_html(y) + segments_html(
            rest,
        )),
{
    let all = seq![x, y] + rest;
    assert(all.skip(1) =~= seq![y] + rest);
    assert(all.skip(1).skip(1) =~= rest);
    assert(segments_html(all.skip(1)) == segment_html(y) + segments_html(rest));
}

proof fn lemma_segments_html_one(x: (bool, Seq<char>))
    ensures
        segments_html(seq![x]) == segment_html(x),
{
    assert(seq![x].skip(1) =~= Seq::<(bool, Seq<char>)>::empty());
    assert(segments_html(Seq::<(bool, Seq<char>)>::empty()) =~= Seq::<char>::empty());
    assert(segments_html(seq![x]) =~= segment_html(x));
}

/// The characters of `text` in lower case, each with the position it comes from.
fn lower_map(text: &Vec<char>) -> (r: (Vec<char>, Vec<usize>))
    ensures
        r.0@ == lowered(text@),
        r.1@.len() == origins(text@).len(),
        forall|k: int| 0 <= k < r.1@.len() ==> #[trigger] r.1@[k] == origins(text@)[k],
{
    let n: usize = text.len();
    let mut lower: Vec<char> = Vec::new();
    let mut map: Vec<usize> = Vec::new();
    for i in 0..n
        invariant
            n == text@.len(),
            lower@ == lowered(text@.take(i as int)),
            map@.len() == origins(text@.take(i as int)).len(),
            forall|k: int|
                0 <= k < map@.len() ==> #[trigger] map@[k] == origins(text@.take(i as int))[k],
    {
        let ghost prev = text@.take(i as int);
        let ghost next = text@.take(i + 1);
        assert(next.drop_last() =~= prev);
        assert(next.last() == text@[i as int]);
        let mut lc: Vec<char> = char_to_lowercase(text[i]);
        let m: usize = lc.len();
        let ghost before = map@;
        for j in 0..m
            invariant
                map@.len() == before.len() + j,
                forall|k: int| 0 <= k < before.len() ==> #[trigger] map@[k] == before[k],
                forall|k: int| before.len() <= k < map@.len() ==> #[trigger] map@[k] == i,
        {
            map.push(i);
        }
        lower.append(&mut lc);
        assert forall|k: int| 0 <= k < map@.len() implies #[trigger] map@[k] == origins(next)[k] by {
            if k < before.len() {
                assert(map@[k] == before[k]);
                assert(before[k] == origins(prev)[k]);
            }
        }
    }
    assert(text@.take(n as int) =~= text@);
    (lower, map)
}

/// The positions that a list of indices names.
pub open spec fn positions(o: Seq<usize>) -> Seq<int> {
    Seq::new(o.len(), |k: int| o[k] as int)
}

/// Escapes `text` and marks what matches: where `needle` stands in `low`, the text from which
/// that part of `low` comes. `origin` gives the position in `text` of each character of
/// `low`, and of its end.
pub fn mark_matches(
    text: &str,
    low: &Vec<char>,
    origin: &Vec<usize>,
    needle: &Vec<char>,
) -> (r: String)
    requires
        origin@.len() == low@.len() + 1,
        forall|k: int| 0 <= k < origin@.len() ==> #[trigger] origin@[k] <= text@.len(),
    ensures
        r@ == segments_html(segments_from(text@, low@, positions(origin@), needle@, 0, 0)),
{
    let m: usize = needle.len();
    if m == 0 {
        proof {
            assert(text@.skip(0) =~= text@);
            lemma_segments_html_one((false, text@.skip(0)));
        }
        return escape_html(text);
    }
    let v: Vec<char> = chars_of(text);
    let n: usize = v.len();
    let ln: usize = low.len();
    let ghost org = positions(origin@);
    let ghost whole = segments_html(segments_from(text@, low@, org, needle@, 0, 0));
    let mut out: String = String::new();
    let mut plain: usize = 0;
    let mut search: usize = 0;
    let mut more: bool = true;
    assert(out@ + whole =~= whole);
    while more
        invariant
            v@ == text@,
            n == v@.len(),
            ln == low@.len(),
            org == positions(origin@),
            origin@.len() == ln + 1,
            forall|k: int| 0 <= k < origin@.len() ==> #[trigger] origin@[k] <= n,
            m == needle@.len() > 0,
            plain <= n,
            search <= ln,
            more ==> out@ + segments_html(
                segments_from(text@, low@, org, needle@, search as int, plain as int),
            ) == whole,
            !more ==> out@ + escaped(text@.skip(plain as int)) == whole,
        decreases if more { 1int } else { 0int }, ln - search,
    {
        proof {
            lemma_first_from(low@, needle@, search as int);
        }
        match find_from(low, needle, search) {
            None => {
                proof {
                    lemma_segments_html_one((false, text@.skip(plain as int)));
                }
                more = false;
            },
            Some(s) => {
                let e: usize = s + m;
                let a: usize = origin[s];
                let b: usize = origin[e];
                if b > a && a >= plain {
                    let t1 = text_between(&v, plain, a);
                    let e1 = escape_html(t1.as_str());
                    let t2 = text_between(&v, a, b);
                    let e2 = escape_html(t2.as_str());
                    proof {
                        let rest = segments_from(text@, low@, org, needle@, e as int, b as int);
                        lemma_segments_html_two((false, t1@), (true, t2@), rest);
                        let r = segments_html(rest);
                        assert(out@ + (e1@ + (MATCH_OPEN@ + e2@ + MATCH_CLOSE@ + r)) =~= (out@ + e1@
                            + MATCH_OPEN@ + e2@ + MATCH_CLOSE@) + r);
                    }
                    out.push_str(e1.as_str());
                    out.push_str(MATCH_OPEN);
                    out.push_str(e2.as_str());
                    out.push_str(MATCH_CLOSE);
                    plain = b;
                }
                search = e;
            },
        }
    }
    let tail = text_between(&v, plain, n);
    assert(v@.subrange(plain as int, n as int) =~= text@.skip(plain as int));
    let et = escape_html(tail.as_str());
    out.push_str(et.as_str());
    out
}

/// Escapes `text` and marks the occurrences of `q` in it, ignoring case. Each
/// piece is escaped before markup is added, so neither the text nor the query
/// can bring markup in. A blank query marks nothing.
pub fn highlight_matches(text: &str, q: &str) -> (r: String)
    ensures
        r@ == highlighted(text@, q@),
        trimmed(q@).len() == 0 ==> r@ == escaped(text@),
{
    proof {
        if trimmed(q@).len() == 0 {
            law_blank_query_only_escapes(text@, q@);
        }
    }
    if is_blank(q) {
        return escape_html(text);
    }
    let tq = trim(q);
    let nd = str_to_lowercase(tq.as_str());
    let needle: Vec<char> = chars_of(nd.as_str());
    let v: Vec<char> = chars_of(text);
    let n: usize = v.len();
    let (low, mut origin) = lower_map(&v);
    proof {
        lemma_origins(text@);
    }
    origin.push(n);
    assert(positions(origin@) =~= origins(text@).push(text@.len() as int));
    assert forall|k: int| 0 <= k < origin@.len() implies #[trigger] origin@[k] <= text@.len() by {
        assert(positions(origin@)[k] == origin@[k]);
    }
    mark_matches(text, &low, &origin, &needle)
}

/// The pieces of a segmented text, put together again.
pub open spec fn segments_text(segs: Seq<(bool, Seq<char>)>) -> Seq<char>
    decreases segs.len(),
{
    if segs.len() == 0 {
        Seq::<char>::empty()
    } else {
        segs[0].1 + segments_text(segs.skip(1))
    }
}

/// Highlighting neither adds, drops nor reorders text: the pieces make up the
/// text, with its own casing.
pub proof fn law_highlight_keeps_the_text(text: Seq<char>, q: Seq<char>)
    ensures
        segments_text(segments(text, q)) == text,
{
    lemma_origins(text);
    let org = origins(text).push(text.len() as int);
    assert forall|k: int| 0 <= k < org.len() implies 0 <= #[trigger] org[k] <= text.len() by {}
    lemma_segments_text(text, lowered(text), org, needle_of(q), 0, 0);
    assert(text.skip(0) =~= text);
}

proof fn lemma_segments_text(
    text: Seq<char>,
    low: Seq<char>,
    org: Seq<int>,
    needle: Seq<char>,
    search: int,
    plain: int,
)
    requires
        0 <= plain <= text.len(),
        org.len() == low.len() + 1,
        forall|k: int| 0 <= k < org.len() ==> 0 <= #[trigger] org[k] <= text.len(),
    ensures
        segments_text(segments_from(text, low, org, needle, search, plain)) == text.skip(plain),
    decreases low.len() - search,
{
    let one = seq![(false, text.skip(plain))];
    assert(segments_text(one) =~= text.skip(plain)) by {
        assert(one.skip(1) =~= Seq::<(bool, Seq<char>)>::empty());
        assert(segments_text(Seq::<(bool, Seq<char>)>::empty()) =~= Seq::<char>::empty());
    }
    if needle.len() == 0 || search < 0 {
    } else {
        lemma_first_from(low, needle, search);
        if let Some(s) = first_from(low, needle, search) {
            let e = s + needle.len();
            let (a, b) = (org[s], org[e]);
            if b > a && a >= plain {
                lemma_segments_text(text, low, org, needle, e, b);
                let rest = segments_from(text, low, org, needle, e, b);
                let x = (false, text.subrange(plain, a));
                let y = (true, text.subrange(a, b));
                let all = seq![x, y] + rest;
                assert(all.skip(1) =~= seq![y] + rest);
                assert(all.skip(1).skip(1) =~= rest);
                assert(segments_text(all.skip(1)) == y.1 + segments_text(rest));
                assert(text.subrange(plain, a) + (text.subrange(a, b) + text.skip(b))
                    =~= text.skip(plain));
            } else {
                lemma_segments_text(text, low, org, needle, e, plain);
            }
        }
    }
}

/// A blank query marks nothing: the text is only escaped.
pub proof fn law_blank_query_only_escapes(text: Seq<char>, q: Seq<char>)
    requires
        trimmed(q).len() == 0,
    ensures
        highlighted(text, q) == escaped(text),
{
    assert(text.skip(0) =~= text);
    lemma_segments_html_one((false, text));
}

/// Replacing goes on after a prefix as it does without it.
proof fn lemma_replaced_after(p: Seq<char>, s: Seq<char>, from: Seq<char>, to: Seq<char>, i: int)
    requires
        0 <= i <= s.len(),
    ensures
        replaced_from(p + s, from, to, p.len() + i) == replaced_from(s, from, to, i),
    decreases s.len() - i,
{
    let w = p + s;
    let k = p.len() + i;
    if i < s.len() {
        if i + from.len() <= s.len() {
            assert(w.subrange(k, k + from.len()) =~= s.subrange(i, i + from.len()));
        }
        assert(stands_at(w, from, k) == stands_at(s, from, i));
        if from.len() > 0 && stands_at(s, from, i) {
            lemma_replaced_after(p, s, from, to, i + from.len());
        } else {
            lemma_replaced_after(p, s, from, to, i + 1);
        }
    }
}

/// A mark that starts nowhere in `x` is removed from what follows `x` alone.
proof fn lemma_removed_after_plain(x: Seq<char>, s: Seq<char>, mark: Seq<char>, i: int)
    requires
        0 <= i <= x.len(),
        forall|j: int| 0 <= j < x.len() ==> !#[trigger] stands_at(x + s, mark, j),
    ensures
        replaced_from(x + s, mark, Seq::empty(), i) == x.skip(i) + replaced(
            s,
            mark,
            Seq::empty(),
        ),
    decreases x.len() - i,
{
    let rest = replaced(s, mark, Seq::empty());
    if i < x.len() {
        lemma_removed_after_plain(x, s, mark, i + 1);
        assert(!stands_at(x + s, mark, i));
        assert((x + s)[i] == x[i]);
        assert(seq![x[i]] + (x.skip(i + 1) + rest) =~= x.skip(i) + rest);
    } else {
        lemma_replaced_after(x, s, mark, Seq::empty(), 0);
        assert(x.skip(i) + rest =~= rest);
    }
}

/// A mark at the front is removed.
proof fn lemma_removed_in_front(s: Seq<char>, mark: Seq<char>)
    requires
        mark.len() > 0,
    ensures
        replaced(mark + s, mark, Seq::empty()) == replaced(s, mark, Seq::empty()),
{
    assert((mark + s).subrange(0, mark.len() as int) =~= mark);
    lemma_replaced_after(mark, s, mark, Seq::empty(), 0);
    let rest = replaced(s, mark, Seq::empty());
    assert(Seq::<char>::empty() + rest =~= rest);
}

/// Removing a mark leaves escaped text alone.
proof fn lemma_removed_after_escaped(t: Seq<char>, s: Seq<char>, mark: Seq<char>)
    requires
        mark.len() > 0,
        mark[0] == '<',
    ensures
        replaced(escaped(t) + s, mark, Seq::empty()) == escaped(t) + replaced(
            s,
            mark,
            Seq::empty(),
        ),
{
    let x = escaped(t);
    law_escaped_text_holds_no_markup(t);
    assert forall|j: int| 0 <= j < x.len() implies !#[trigger] stands_at(x + s, mark, j) by {
        if stands_at(x + s, mark, j) {
            assert((x + s).subrange(j, j + mark.len())[0] == mark[0]);
            assert(markup_char(x[j]));
        }
    }
    lemma_removed_after_plain(x, s, mark, 0);
    assert(x.skip(0) =~= x);
}

/// Pieces as HTML, with the closing marks alone.
spec fn closed_html(segs: Seq<(bool, Seq<char>)>) -> Seq<char>
    decreases segs.len(),
{
    if segs.len() == 0 {
        Seq::<char>::empty()
    } else if segs[0].0 {
        escaped(segs[0].1) + (MATCH_CLOSE@ + closed_html(segs.skip(1)))
    } else {
        escaped(segs[0].1) + closed_html(segs.skip(1))
    }
}

proof fn lemma_opening_marks_removed(segs: Seq<(bool, Seq<char>)>)
    ensures
        replaced(segments_html(segs), MATCH_OPEN@, Seq::empty()) == closed_html(segs),
    decreases segs.len(),
{
    reveal_strlit("<strong class=\"search-match\">");
    reveal_strlit("</strong>");
    if segs.len() > 0 {
        let rest = segments_html(segs.skip(1));
        lemma_opening_marks_removed(segs.skip(1));
        let e = escaped(segs[0].1);
        if segs[0].0 {
            let c = MATCH_CLOSE@;
            assert(segments_html(segs) =~= MATCH_OPEN@ + (e + (c + rest)));
            lemma_removed_in_front(e + (c + rest), MATCH_OPEN@);
            lemma_removed_after_escaped(segs[0].1, c + rest, MATCH_OPEN@);
            assert forall|j: int| 0 <= j < c.len() implies !#[trigger] stands_at(
                c + rest,
                MATCH_OPEN@,
                j,
            ) by {
                if stands_at(c + rest, MATCH_OPEN@, j) {
                    let w = (c + rest).subrange(j, j + MATCH_OPEN@.len());
                    assert(w[0] == '<');
                    assert(w[1] == 's');
                    assert(c[j] == '<');
                    assert((c + rest)[j + 1] == 's');
                }
            }
            lemma_removed_after_plain(c, rest, MATCH_OPEN@, 0);
            assert(c.skip(0) =~= c);
        } else {
            lemma_removed_after_escaped(segs[0].1, rest, MATCH_OPEN@);
        }
    }
}

proof fn lemma_closing_marks_removed(segs: Seq<(bool, Seq<char>)>)
    ensures
        replaced(closed_html(segs), MATCH_CLOSE@, Seq::empty()) == escaped(segments_text(segs)),
    decreases segs.len(),
{
    reveal_strlit("</strong>");
    if segs.len() > 0 {
        let rest = closed_html(segs.skip(1));
        lemma_closing_marks_removed(segs.skip(1));
        if segs[0].0 {
            lemma_removed_after_escaped(segs[0].1, MATCH_CLOSE@ + rest, MATCH_CLOSE@);
            lemma_removed_in_front(rest, MATCH_CLOSE@);
        } else {
            lemma_removed_after_escaped(segs[0].1, rest, MATCH_CLOSE@);
        }
        law_escape_distributes(segs[0].1, segments_text(segs.skip(1)));
    }
}

/// Highlighting adds the marks and nothing else: with every mark removed, the HTML is the
/// escaped text.
pub proof fn law_highlight_adds_marks_only(text: Seq<char>, q: Seq<char>)
    ensures
        replaced(
            replaced(highlighted(text, q), MATCH_OPEN@, Seq::empty()),
            MATCH_CLOSE@,
            Seq::empty(),
        ) == escaped(text),
{
    lemma_opening_marks_removed(segments(text, q));
    lemma_closing_marks_removed(segments(text, q));
    law_highlight_keeps_the_text(text, q);
}

/// Whether every character of a text has a lower-case form of one character.
pub open spec fn lowers_one_by_one(t: Seq<char>) -> bool {
    forall|i: int| 0 <= i < t.len() ==> lowercase_char(#[trigger] t[i]).len() == 1
}

proof fn lemma_one_by_one(t: Seq<char>)
    requires
        lowers_one_by_one(t),
    ensures
        lowered(t).len() == t.len(),
        origins(t) == Seq::new(t.len(), |i: int| i),
        forall|i: int| 0 <= i < t.len() ==> #[trigger] lowered(t)[i] == lowercase_char(t[i])[0],
    decreases t.len(),
{
    if t.len() > 0 {
        let p = t.drop_last();
        assert forall|i: int| 0 <= i < p.len() implies lowercase_char(#[trigger] p[i]).len()
            == 1 by {
            assert(p[i] == t[i]);
        }
        lemma_one_by_one(p);
        assert(lowercase_char(t[t.len() - 1]).len() == 1);
        assert(origins(t) =~= Seq::new(t.len(), |i: int| i));
        assert forall|i: int| 0 <= i < t.len() implies #[trigger] lowered(t)[i] == lowercase_char(
            t[i],
        )[0] by {
            if i < p.len() {
                assert(lowered(t)[i] == lowered(p)[i]);
                assert(p[i] == t[i]);
            }
        }
    } else {
        assert(origins(t) =~= Seq::new(t.len(), |i: int| i));
    }
}

proof fn lemma_first_shift(p: Seq<char>, b: Seq<char>, needle: Seq<char>, s: int)
    requires
        0 <= s,
    ensures
        first_from(p + b, needle, p.len() + s) == (match first_from(b, needle, s) {
            Some(i) => Some(p.len() + i),
            None => None,
        }),
    decreases b.len() - s + 1,
{
    let w = p + b;
    let j = p.len() + s;
    if s + needle.len() <= b.len() {
        assert(w.subrange(j, j + needle.len()) =~= b.subrange(s, s + needle.len()));
        lemma_first_shift(p, b, needle, s + 1);
    }
}

proof fn lemma_segments_shift(
    p: Seq<char>,
    b: Seq<char>,
    low_p: Seq<char>,
    low_b: Seq<char>,
    needle: Seq<char>,
    s: int,
    plain: int,
)
    requires
        needle.len() > 0,
        low_p.len() == p.len(),
        low_b.len() == b.len(),
        0 <= plain <= s <= b.len(),
    ensures
        segments_from(
            p + b,
            low_p + low_b,
            Seq::new((p.len() + b.len() + 1) as nat, |i: int| i),
            needle,
            p.len() + s,
            p.len() + plain,
        ) == segments_from(
            b,
            low_b,
            Seq::new((b.len() + 1) as nat, |i: int| i),
            needle,
            s,
            plain,
        ),
    decreases b.len() - s,
{
    let n = p.len() as int;
    let w = p + b;
    let low = low_p + low_b;
    let org = Seq::new((p.len() + b.len() + 1) as nat, |i: int| i);
    let org_b = Seq::new((b.len() + 1) as nat, |i: int| i);
    lemma_first_shift(low_p, low_b, needle, s);
    lemma_first_from(low_b, needle, s);
    lemma_first_from(low, needle, n + s);
    assert(w.skip(n + plain) =~= b.skip(plain));
    if let Some(i) = first_from(low_b, needle, s) {
        let e = i + needle.len();
        assert(org[n + i] == n + i && org[n + e] == n + e);
        assert(org_b[i] == i && org_b[e] == e);
        assert(w.subrange(n + plain, n + i) =~= b.subrange(plain, i));
        assert(w.subrange(n + i, n + e) =~= b.subrange(i, e));
        lemma_segments_shift(p, b, low_p, low_b, needle, e, e);
    }
}

/// What is looked for is marked where it stands, ignoring case: the first occurrence is put
/// between the marks, and the rest of the text is gone through likewise.
pub proof fn law_matches_are_marked(a: Seq<char>, m: Seq<char>, b: Seq<char>, q: Seq<char>)
    requires
        trimmed(q).len() > 0,
        lowers_one_by_one(a + m + b),
        m.len() > 0,
        m.len() == lowercase_text(trimmed(q)).len(),
        forall|i: int|
            0 <= i < m.len() ==> lowercase_char(#[trigger] m[i])[0] == lowercase_text(
                trimmed(q),
            )[i],
        forall|j: int|
            0 <= j < a.len() ==> !#[trigger] stands_at(
                lowered(a + m + b),
                lowercase_text(trimmed(q)),
                j,
            ),
    ensures
        highlighted(a + m + b, q) == escaped(a) + "<strong class=\"search-match\">"@ + escaped(m)
            + "</strong>"@ + highlighted(b, q),
{
    let text = a + m + b;
    let p = a + m;
    let needle = lowercase_text(trimmed(q));
    let low = lowered(text);
    let n = a.len() as int;
    let e = n + m.len();
    let org = Seq::new((text.len() + 1) as nat, |i: int| i);
    lemma_one_by_one(text);
    assert forall|i: int| 0 <= i < b.len() implies lowercase_char(#[trigger] b[i]).len() == 1 by {
        assert(text[e + i] == b[i]);
    }
    lemma_one_by_one(b);
    assert(origins(text).push(text.len() as int) =~= org);
    assert(origins(b).push(b.len() as int) =~= Seq::new((b.len() + 1) as nat, |i: int| i));
    assert(low.subrange(n, e) =~= needle) by {
        assert forall|i: int| 0 <= i < m.len() implies low.subrange(n, e)[i] == needle[i] by {
            assert(low[n + i] == lowercase_char(text[n + i])[0]);
            assert(text[n + i] == m[i]);
        }
    }
    assert(stands_at(low, needle, n));
    lemma_first_from(low, needle, 0);
    assert(first_from(low, needle, 0) == Some(n));
    assert(org[n] == n && org[e] == e);
    let low_p = low.take(e);
    let low_b = lowered(b);
    assert(low =~= low_p + low_b) by {
        assert forall|i: int| 0 <= i < b.len() implies low[e + i] == low_b[i] by {
            assert(low[e + i] == lowercase_char(text[e + i])[0]);
            assert(text[e + i] == b[i]);
        }
    }
    assert(text =~= p + b);
    lemma_segments_shift(p, b, low_p, low_b, needle, 0, 0);
    assert(text.subrange(0, n) =~= a);
    assert(text.subrange(n, e) =~= m);
    let rest = segments(b, q);
    assert(segments(text, q) =~= seq![(false, a), (true, m)] + rest);
    lemma_segments_html_two((false, a), (true, m), rest);
    assert(highlighted(text, q) =~= escaped(a) + MATCH_OPEN@ + escaped(m) + MATCH_CLOSE@
        + highlighted(b, q));
}

/// A text in which what is looked for does not stand is shown without a mark.
pub proof fn law_without_a_match_nothing_is_marked(text: Seq<char>, q: Seq<char>)
    requires
        forall|j: int| !stands_at(lowered(text), lowercase_text(trimmed(q)), j),
    ensures
        highlighted(text, q) == escaped(text),
{
    let low = lowered(text);
    if trimmed(q).len() > 0 {
        lemma_first_from(low, lowercase_text(trimmed(q)), 0);
    }
    assert(text.skip(0) =~= text);
    lemma_segments_html_one((false, text));
}

} // verus!
