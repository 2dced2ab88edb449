//! Folder paths such as `Billing/Refunds`.
use crate::text::{append_texts, chars_of, is_control};
use crate::trim::{fill_parts, join, split, trim, trim_of, trim_parts};
use crate::validate::FOLDER_MAX_CHARS;
use vstd::prelude::*;

verus! {

use crate::text::{control_code, lemma_views_push, views, white_space};
use crate::trim::{
    blank,
    exactly,
    filled_parts,
    joined,
    law_split_undoes_join,
    lemma_pieces_nonempty,
    lemma_pieces_of_plain,
    lemma_pieces_without_separator,
    lemma_strip_back,
    lemma_strip_back_unique,
    lemma_strip_front,
    lemma_strip_front_unique,
    lemma_trimmed,
    lemma_trimmed_parts,
    lemma_trimmed_parts_concat,
    lemma_trimmed_parts_keep,
    pieces,
    strip_front,
    trimmed,
    trimmed_of,
    trimmed_parts,
};

/// The slash between two segments.
pub open spec fn slash() -> Seq<char> {
    seq!['/']
}

/// The segments of a path, trimmed, without the empty ones.
pub open spec fn segments(p: Seq<char>) -> Seq<Seq<char>> {
    trimmed_parts(pieces(p, '/'))
}

/// A path with its segments trimmed and single slashes between them.
pub open spec fn normalized(p: Seq<char>) -> Seq<char> {
    joined(segments(p), slash())
}

/// `"  Billing // Refunds / "` becomes `"Billing/Refunds"`.
pub fn normalize_path(p: &str) -> (r: String)
    ensures
        r@ == normalized(p@),
{
    let all: Vec<String> = split(p, '/');
    let parts: Vec<String> = trim_parts(&all);
    proof {
        reveal_strlit("/");
        assert("/"@ =~= slash());
    }
    join(&parts, "/")
}

/// What a stored folder is normalized to; none where nothing is left of it.
pub open spec fn normalized_folder(p: Option<Seq<char>>) -> Option<Seq<char>> {
    match p {
        Some(raw) => if normalized(raw).len() == 0 {
            None
        } else {
            Some(normalized(raw))
        },
        None => None,
    }
}

/// Normalizes an optional folder; blank paths count as none.
pub fn normalize_folder(p: Option<&str>) -> (r: Option<String>)
    ensures
        crate::text::opt_view(r) == normalized_folder(crate::text::opt_str_view(p)),
{
    match p {
        Some(raw) => {
            let n = normalize_path(raw);
            if n.as_str().unicode_len() == 0 {
                None
            } else {
                Some(n)
            }
        },
        None => None,
    }
}

/// The path made of the first `i` segments, for each `i` from one up.
pub open spec fn prefixes(parts: Seq<Seq<char>>) -> Seq<Seq<char>> {
    Seq::new(parts.len(), |i: int| joined(parts.take(i + 1), slash()))
}

/// A path's ancestors, outermost first, and the path itself.
pub open spec fn ancestors(p: Seq<char>) -> Seq<Seq<char>> {
    prefixes(filled_parts(pieces(p, '/')))
}

/// `"Billing/Refunds"` gives `["Billing", "Billing/Refunds"]`.
pub fn path_ancestors(p: &str) -> (r: Vec<String>)
    ensures
        views(r@) == ancestors(p@),
{
    let all: Vec<String> = split(p, '/');
    let parts: Vec<String> = fill_parts(&all);
    let n: usize = parts.len();
    let mut out: Vec<String> = Vec::new();
    let mut cursor: String = String::new();
    let ghost ps = views(parts@);
    assert(ps.take(0) =~= Seq::<Seq<char>>::empty());
    for i in 0..n
        invariant
            n == parts@.len(),
            ps == views(parts@),
            cursor@ == joined(ps.take(i as int), slash()),
            views(out@) =~= prefixes(ps).take(i as int),
    {
        proof {
            let t = ps.take(i + 1);
            assert(t.drop_last() =~= ps.take(i as int));
            assert(t.last() == parts@[i as int]@);
            if i == 0 {
                assert(cursor@ + parts@[0]@ =~= parts@[0]@);
            } else {
                assert(cursor@.push('/') =~= cursor@ + slash());
            }
        }
        if i > 0 {
            cursor.push('/');
        }
        cursor.push_str(parts[i].as_str());
        let c = crate::text::copy_text(cursor.as_str());
        proof {
            lemma_views_push(out@, c);
            assert(prefixes(ps).take(i + 1) =~= prefixes(ps).take(i as int).push(
                prefixes(ps)[i as int],
            ));
        }
        out.push(c);
    }
    assert(prefixes(ps).take(n as int) =~= prefixes(ps));
    out
}

/// Segments are neither empty nor blank at an end, and hold no slash.
pub proof fn lemma_segments(p: Seq<char>)
    ensures
        forall|i: int|
            0 <= i < segments(p).len() ==> (#[trigger] segments(p)[i]).len() > 0 && trimmed(
                segments(p)[i],
            ) == segments(p)[i] && !segments(p)[i].contains('/'),
{
    let l = pieces(p, '/');
    lemma_trimmed_parts(l);
    lemma_pieces_without_separator(p, '/');
    assert forall|i: int| 0 <= i < segments(p).len() implies !(#[trigger] segments(p)[i]).contains(
        '/',
    ) by {
        let s = segments(p)[i];
        let k = choose|k: int| 0 <= k < l.len() && trimmed(#[trigger] l[k]) == s;
        lemma_trimmed(l[k]);
        if s.contains('/') {
            let j = choose|j: int| 0 <= j < s.len() && s[j] == '/';
            assert(l[k].contains(trimmed(l[k])[j]));
            let m = choose|m: int| 0 <= m < l[k].len() && l[k][m] == '/';
            assert(l[k][m] != '/');
        }
    }
}

/// A normalized path has the segments that it was made of.
pub proof fn lemma_normalized_segments(p: Seq<char>)
    requires
        segments(p).len() > 0,
    ensures
        pieces(normalized(p), '/') == segments(p),
        segments(normalized(p)) == segments(p),
{
    lemma_segments(p);
    let s = segments(p);
    assert forall|i: int, j: int| 0 <= i < s.len() && 0 <= j < s[i].len() implies #[trigger] s[i][j]
        != '/' by {
        if s[i][j] == '/' {
            assert(s[i].contains('/'));
        }
    }
    law_split_undoes_join(s, '/');
    lemma_trimmed_parts_keep(s);
}

/// Normalizing a normalized path changes nothing.
pub proof fn law_normalize_idempotent(p: Seq<char>)
    ensures
        normalized(normalized(p)) == normalized(p),
{
    if segments(p).len() > 0 {
        lemma_normalized_segments(p);
    } else {
        let e = Seq::<char>::empty();
        assert(normalized(p) =~= e);
        assert(pieces(e, '/') =~= seq![e]);
        crate::trim::lemma_empty_part();
    }
}

/// The last of a normalized path's ancestors is the path itself, and there is
/// one for each segment.
pub proof fn law_ancestors_end_in_the_path(p: Seq<char>)
    requires
        segments(p).len() > 0,
    ensures
        ancestors(normalized(p)).len() == segments(p).len(),
        ancestors(normalized(p)).last() == normalized(p),
{
    lemma_segments(p);
    lemma_normalized_segments(p);
    let s = segments(p);
    lemma_filled_keep(s);
    assert(s.take(s.len() as int) =~= s);
}

/// Every ancestor of a path is a path prefix: the next one continues it with a
/// slash and one more segment.
pub proof fn law_ancestors_nest(p: Seq<char>, i: int)
    requires
        0 <= i,
        i + 1 < ancestors(p).len(),
    ensures
        ancestors(p)[i + 1] == ancestors(p)[i] + slash() + filled_parts(pieces(p, '/'))[i + 1],
        (ancestors(p)[i] + slash()).is_prefix_of(ancestors(p)[i + 1]),
{
    let s = filled_parts(pieces(p, '/'));
    let t = s.take(i + 2);
    assert(t.drop_last() =~= s.take(i + 1));
    assert(t.last() == s[i + 1]);
}

proof fn lemma_filled_keep(l: Seq<Seq<char>>)
    requires
        forall|i: int| 0 <= i < l.len() ==> (#[trigger] l[i]).len() > 0,
    ensures
        filled_parts(l) == l,
    decreases l.len(),
{
    reveal(Seq::filter);
    if l.len() > 0 {
        let p = l.drop_last();
        assert forall|i: int| 0 <= i < p.len() implies (#[trigger] p[i]).len() > 0 by {
            assert(p[i] == l[i]);
        }
        lemma_filled_keep(p);
        assert(l[l.len() - 1] == l.last());
        assert(p.push(l.last()) =~= l);
    } else {
        assert(filled_parts(l) =~= l);
    }
}

/// The ancestors of all paths, one after the other.
pub open spec fn all_ancestors(paths: Seq<Seq<char>>) -> Seq<Seq<char>>
    decreases paths.len(),
{
    if paths.len() == 0 {
        Seq::empty()
    } else {
        all_ancestors(paths.drop_last()) + ancestors(paths.last())
    }
}

/// The ancestors of all paths, one after the other.
pub fn ancestors_of_all(paths: &Vec<String>) -> (r: Vec<String>)
    ensures
        views(r@) == all_ancestors(views(paths@)),
{
    let n: usize = paths.len();
    let mut all: Vec<String> = Vec::new();
    assert(views(all@) =~= Seq::<Seq<char>>::empty());
    assert(views(paths@).take(0) =~= Seq::<Seq<char>>::empty());
    for i in 0..n
        invariant
            n == paths@.len(),
            views(all@) == all_ancestors(views(paths@).take(i as int)),
    {
        let t: Vec<String> = path_ancestors(paths[i].as_str());
        append_texts(&mut all, &t);
        proof {
            let next = views(paths@).take(i + 1);
            assert(next.drop_last() =~= views(paths@).take(i as int));
            assert(next.last() == paths@[i as int]@);
        }
    }
    assert(views(paths@).take(n as int) =~= views(paths@));
    all
}

/// The ancestors of one of several paths are among those of all.
pub proof fn lemma_ancestor_listed(paths: Seq<Seq<char>>, p: Seq<char>, i: int)
    requires
        paths.contains(p),
        0 <= i < ancestors(p).len(),
    ensures
        all_ancestors(paths).contains(ancestors(p)[i]),
    decreases paths.len(),
{
    let k = choose|k: int| 0 <= k < paths.len() && paths[k] == p;
    let front = all_ancestors(paths.drop_last());
    let whole = all_ancestors(paths);
    if k == paths.len() - 1 {
        assert(whole[front.len() + i] == ancestors(p)[i]);
    } else {
        assert(paths.drop_last()[k] == p);
        assert(paths.drop_last().contains(p));
        lemma_ancestor_listed(paths.drop_last(), p, i);
        let j = choose|j: int| 0 <= j < front.len() && front[j] == ancestors(p)[i];
        assert(whole[j] == ancestors(p)[i]);
    }
}

/// The pieces of two texts with a separator between them.
pub proof fn lemma_pieces_concat(a: Seq<char>, b: Seq<char>, c: char)
    ensures
        pieces(a + seq![c] + b, c) == pieces(a, c) + pieces(b, c),
    decreases b.len(),
{
    let s = a + seq![c] + b;
    lemma_pieces_nonempty(b, c);
    if b.len() == 0 {
        assert(s.drop_last() =~= a);
        assert(s.last() == c);
        assert(pieces(s, c) =~= pieces(a, c) + pieces(b, c));
    } else {
        let t = b.drop_last();
        lemma_pieces_concat(a, t, c);
        lemma_pieces_nonempty(t, c);
        assert(s.drop_last() =~= a + seq![c] + t);
        assert(s.last() == b.last());
        assert(pieces(s, c) =~= pieces(a, c) + pieces(b, c));
    }
}

/// Joining two lists that both hold something.
pub proof fn lemma_joined_concat(a: Seq<Seq<char>>, b: Seq<Seq<char>>, sep: Seq<char>)
    requires
        a.len() > 0,
        b.len() > 0,
    ensures
        joined(a + b, sep) == joined(a, sep) + sep + joined(b, sep),
    decreases b.len(),
{
    let s = a + b;
    assert(s.drop_last() =~= a + b.drop_last());
    assert(s.last() == b.last());
    if b.len() == 1 {
        assert(a + b.drop_last() =~= a);
    } else {
        lemma_joined_concat(a, b.drop_last(), sep);
        assert(joined(s, sep) =~= joined(a, sep) + sep + joined(b, sep));
    }
}

/// The part of a path's ancestors that lies below `base`, where the path
/// continues `base` with a slash and `rest`.
pub open spec fn ancestors_below(base: Seq<char>, rest: Seq<char>) -> Seq<Seq<char>> {
    let parts = filled_parts(pieces(rest, '/'));
    Seq::new(parts.len(), |j: int| base + slash() + joined(parts.take(j + 1), slash()))
}

/// The ancestors of a path below a normalized folder are those of the folder and
/// the paths that continue it.
pub proof fn lemma_ancestors_below(base: Seq<char>, rest: Seq<char>)
    requires
        base.len() > 0,
        normalized(base) == base,
    ensures
        ancestors(base + slash() + rest) == ancestors(base) + ancestors_below(base, rest),
{
    let p = base + slash() + rest;
    let a = filled_parts(pieces(base, '/'));
    let b = filled_parts(pieces(rest, '/'));
    lemma_pieces_concat(base, rest, '/');
    Seq::filter_distributes_over_add(
        pieces(base, '/'),
        pieces(rest, '/'),
        |s: Seq<char>| s.len() > 0,
    );
    if segments(base).len() == 0 {
        assert(normalized(base).len() == 0);
    }
    lemma_normalized_segments(base);
    lemma_segments(base);
    lemma_filled_keep(segments(base));
    assert(a == segments(base));
    assert(joined(a, slash()) == base);
    assert forall|i: int| 0 <= i < (a + b).len() implies #[trigger] prefixes(a + b)[i] == (prefixes(
        a,
    ) + ancestors_below(base, rest))[i] by {
        if i < a.len() {
            assert((a + b).take(i + 1) =~= a.take(i + 1));
        } else {
            let j = i - a.len();
            assert((a + b).take(i + 1) =~= a + b.take(j + 1));
            lemma_joined_concat(a, b.take(j + 1), slash());
        }
    }
    assert(prefixes(a + b) =~= prefixes(a) + ancestors_below(base, rest));
}

/// What the folder form accepts, or the reason why it does not.
pub open spec fn checked_folder_path(input: Seq<char>) -> Result<Seq<char>, Seq<char>> {
    let t = trimmed_of(trimmed(input), '/');
    if t.len() == 0 {
        Err("path required"@)
    } else if exists|i: int| 0 <= i < t.len() && control_code(#[trigger] t[i]) {
        Err("path contains invalid characters"@)
    } else if t.len() > FOLDER_MAX_CHARS {
        Err("path is too long"@)
    } else if segments(t).len() < filled_parts(pieces(t, '/')).len() {
        Err("path contains an empty segment (double slash?)"@)
    } else {
        Ok(normalized(t))
    }
}

/// Normalizes a folder path from a form: white space and outer slashes are trimmed and
/// duplicate slashes collapsed; control characters, overlong paths and segments that
/// are blank are refused.
pub fn normalize_folder_path(input: &str) -> (r: Result<String, &'static str>)
    ensures
        match r {
            Ok(p) => checked_folder_path(input@) == Ok::<Seq<char>, Seq<char>>(p@),
            Err(e) => checked_folder_path(input@) == Err::<Seq<char>, Seq<char>>(e@),
        },
{
    let inner = trim(input);
    let t = trim_of(inner.as_str(), '/');
    let v: Vec<char> = chars_of(t.as_str());
    let n: usize = v.len();
    if n == 0 {
        return Err("path required");
    }
    for i in 0..n
        invariant
            n == v@.len(),
            n > 0,
            v@ == t@,
            t@ == trimmed_of(trimmed(input@), '/'),
            forall|j: int| 0 <= j < i ==> !control_code(#[trigger] v@[j]),
    {
        if is_control(v[i]) {
            assert(control_code(t@[i as int]));
            return Err("path contains invalid characters");
        }
    }
    if n > FOLDER_MAX_CHARS {
        return Err("path is too long");
    }
    let all: Vec<String> = split(t.as_str(), '/');
    let filled: Vec<String> = fill_parts(&all);
    let parts: Vec<String> = trim_parts(&all);
    assert(views(parts@).len() == parts@.len());
    assert(views(filled@).len() == filled@.len());
    if parts.len() < filled.len() {
        return Err("path contains an empty segment (double slash?)");
    }
    proof {
        reveal_strlit("/");
        assert("/"@ =~= slash());
    }
    Ok(join(&parts, "/"))
}

/// Trimming the parts of a path makes it no longer, and adds no character to it but
/// slashes.
proof fn lemma_trimmed_join(l: Seq<Seq<char>>)
    ensures
        joined(trimmed_parts(l), slash()).len() <= joined(l, slash()).len(),
        forall|i: int|
            0 <= i < joined(trimmed_parts(l), slash()).len() ==> #[trigger] joined(
                trimmed_parts(l),
                slash(),
            )[i] == '/' || joined(l, slash()).contains(joined(trimmed_parts(l), slash())[i]),
    decreases l.len(),
{
    if l.len() > 0 {
        let p = l.drop_last();
        let x = l.last();
        let t = trimmed(x);
        lemma_trimmed_join(p);
        lemma_trimmed(x);
        let before = joined(trimmed_parts(p), slash());
        let from = joined(p, slash());
        let now = joined(trimmed_parts(l), slash());
        let whole = joined(l, slash());
        if l.len() > 1 {
            assert(whole == from + slash() + x);
        } else {
            assert(whole == x);
        }
        assert forall|i: int| 0 <= i < now.len() implies #[trigger] now[i] == '/'
            || whole.contains(now[i]) by {
            if t.len() == 0 {
                if now[i] != '/' {
                    let k = choose|k: int| 0 <= k < from.len() && from[k] == before[i];
                    assert(whole[k] == now[i]);
                }
            } else if trimmed_parts(p).len() == 0 {
                assert(trimmed_parts(l) =~= seq![t]);
                let k = choose|k: int| 0 <= k < x.len() && x[k] == t[i];
                assert(whole[whole.len() - x.len() + k] == now[i]);
            } else {
                assert(trimmed_parts(l).drop_last() =~= trimmed_parts(p));
                assert(now == before + slash() + t);
                if i < before.len() {
                    if now[i] != '/' {
                        let k = choose|k: int| 0 <= k < from.len() && from[k] == before[i];
                        assert(whole[k] == now[i]);
                    }
                } else if i > before.len() {
                    let k = choose|k: int| 0 <= k < x.len() && x[k] == t[i - before.len() - 1];
                    assert(whole[whole.len() - x.len() + k] == now[i]);
                }
            }
        }
        if t.len() > 0 && trimmed_parts(p).len() > 0 {
            lemma_trimmed_parts(p);
            assert(trimmed_parts(l).drop_last() =~= trimmed_parts(p));
            assert(l.len() > 1);
        }
        if t.len() > 0 && trimmed_parts(p).len() == 0 {
            assert(trimmed_parts(l) =~= seq![t]);
        }
    }
}

/// A folder path that was accepted is accepted again as it is. It is neither empty nor
/// too long, holds no control code, and each of its segments is filled and trimmed.
pub proof fn law_checked_path_is_kept(input: Seq<char>, p: Seq<char>)
    requires
        checked_folder_path(input) == Ok::<Seq<char>, Seq<char>>(p),
    ensures
        checked_folder_path(p) == Ok::<Seq<char>, Seq<char>>(p),
        0 < p.len() <= FOLDER_MAX_CHARS,
        forall|i: int| 0 <= i < p.len() ==> !control_code(#[trigger] p[i]),
        forall|i: int|
            0 <= i < pieces(p, '/').len() ==> (#[trigger] pieces(p, '/')[i]).len() > 0 && trimmed(
                pieces(p, '/')[i],
            ) == pieces(p, '/')[i],
{
    let t = trimmed_of(trimmed(input), '/');
    lemma_bare_path_has_segments(input);
    lemma_normalized_segments(t);
    lemma_segments(t);
    lemma_filled_keep(segments(t));
    lemma_normalized_is_bare(t);
    lemma_normalized_stays_plain(t);
}

/// A path that is not empty without its outer slashes has a segment, unless one of its
/// pieces is blank.
proof fn lemma_bare_path_has_segments(input: Seq<char>)
    ensures
        ({
            let t = trimmed_of(trimmed(input), '/');
            t.len() > 0 && segments(t).len() >= filled_parts(pieces(t, '/')).len()
                ==> segments(t).len() > 0
        }),
{
    let u = trimmed(input);
    let w = strip_front(u, exactly('/'));
    let t = trimmed_of(u, '/');
    lemma_strip_front(u, exactly('/'));
    lemma_strip_back(w, exactly('/'));
    if t.len() > 0 {
        assert(t[0] == w[0]);
        lemma_some_piece_is_filled(t);
    }
}

/// A normalized path has neither white space nor slashes around it.
proof fn lemma_normalized_is_bare(t: Seq<char>)
    requires
        segments(t).len() > 0,
    ensures
        normalized(t).len() > 0,
        trimmed_of(trimmed(normalized(t)), '/') == normalized(t),
{
    let l = segments(t);
    let p = normalized(t);
    lemma_segments(t);
    let first = l[0];
    let last = l[l.len() - 1];
    assert(first.len() > 0 && last.len() > 0);
    assert(l.last() == last);
    lemma_joined_ends(l);
    lemma_trimmed(first);
    lemma_trimmed(last);
    assert(first.contains(first[0]));
    assert(last.contains(last.last()));
    assert(!white_space(p[0]) && p[0] != '/');
    assert(!white_space(p.last()) && p.last() != '/');
    lemma_strip_front_unique(p, blank(), 0);
    assert(p.skip(0) =~= p);
    lemma_strip_back_unique(p, blank(), p.len() as int);
    assert(p.take(p.len() as int) =~= p);
    lemma_strip_front_unique(p, exactly('/'), 0);
    lemma_strip_back_unique(p, exactly('/'), p.len() as int);
}

/// Normalizing makes a path no longer, and brings no control code into it.
proof fn lemma_normalized_stays_plain(t: Seq<char>)
    requires
        forall|i: int| 0 <= i < t.len() ==> !control_code(#[trigger] t[i]),
    ensures
        normalized(t).len() <= t.len(),
        forall|i: int| 0 <= i < normalized(t).len() ==> !control_code(#[trigger] normalized(t)[i]),
{
    let p = normalized(t);
    crate::trim::law_join_undoes_split(t, '/');
    lemma_trimmed_join(pieces(t, '/'));
    assert forall|i: int| 0 <= i < p.len() implies !control_code(#[trigger] p[i]) by {
        if p[i] != '/' {
            let k = choose|k: int| 0 <= k < t.len() && t[k] == p[i];
            assert(!control_code(t[k]));
        }
    }
}

/// A joined list begins as its first part does, and ends as its last one does.
proof fn lemma_joined_ends(l: Seq<Seq<char>>)
    requires
        l.len() > 0,
        l[0].len() > 0,
        l.last().len() > 0,
    ensures
        joined(l, slash()).len() > 0,
        joined(l, slash())[0] == l[0][0],
        joined(l, slash()).last() == l.last().last(),
    decreases l.len(),
{
    if l.len() > 1 {
        lemma_joined_starts(l);
    }
}

proof fn lemma_joined_starts(l: Seq<Seq<char>>)
    requires
        l.len() > 0,
        l[0].len() > 0,
    ensures
        joined(l, slash()).len() > 0,
        joined(l, slash())[0] == l[0][0],
    decreases l.len(),
{
    if l.len() > 1 {
        lemma_joined_starts(l.drop_last());
    }
}

/// A text that neither is empty nor begins with a slash has a piece that is filled.
proof fn lemma_some_piece_is_filled(t: Seq<char>)
    requires
        t.len() > 0,
        t[0] != '/',
    ensures
        filled_parts(pieces(t, '/')).len() > 0,
{
    let l = pieces(t, '/');
    lemma_first_piece(t);
    lemma_pieces_nonempty(t, '/');
    assert(l.contains(l[0]));
    let f = |s: Seq<char>| s.len() > 0;
    l.filter_lemma(f);
    assert(l.filter(f).contains(l[0]));
}

proof fn lemma_first_piece(t: Seq<char>)
    requires
        t.len() > 0,
        t[0] != '/',
    ensures
        pieces(t, '/')[0].len() > 0,
    decreases t.len(),
{
    let p = t.drop_last();
    lemma_pieces_nonempty(p, '/');
    if p.len() > 0 {
        lemma_first_piece(p);
    }
}

/// A slash parts a path: its segments are those before it and those behind it.
pub proof fn law_slashes_part_segments(a: Seq<char>, b: Seq<char>)
    ensures
        segments(a + seq!['/'] + b) == segments(a) + segments(b),
{
    lemma_pieces_concat(a, b, '/');
    lemma_trimmed_parts_concat(pieces(a, '/'), pieces(b, '/'));
}

/// A name without slashes is one segment, without its outer blanks; a blank one is none.
pub proof fn law_a_name_is_a_segment(p: Seq<char>)
    requires
        !p.contains('/'),
    ensures
        trimmed(p).len() > 0 ==> segments(p) == seq![trimmed(p)] && normalized(p) == trimmed(p),
        trimmed(p).len() == 0 ==> segments(p).len() == 0 && normalized(p).len() == 0,
{
    let e = Seq::<char>::empty();
    assert forall|j: int| 0 <= j < p.len() implies p[j] != '/' by {
        if p[j] == '/' {
            assert(p.contains('/'));
        }
    }
    lemma_pieces_of_plain(e, p, '/');
    assert(e + p =~= p);
    assert(pieces(e, '/') =~= seq![e]);
    assert(pieces(p, '/') =~= seq![p]);
    assert(seq![p].drop_last() =~= Seq::<Seq<char>>::empty());
    assert(trimmed_parts(seq![p].drop_last()) =~= Seq::<Seq<char>>::empty());
    if trimmed(p).len() > 0 {
        assert(segments(p) =~= seq![trimmed(p)]);
    }
}

/// A path of names is taken as it stands: names that are not empty, have no outer blanks,
/// no slashes and no control characters, with one slash between each, three hundred
/// characters at most.
pub proof fn law_clean_paths_are_accepted(names: Seq<Seq<char>>)
    requires
        names.len() > 0,
        forall|i: int|
            0 <= i < names.len() ==> (#[trigger] names[i]).len() > 0 && trimmed(names[i])
                == names[i] && !names[i].contains('/'),
        joined(names, seq!['/']).len() <= 300,
        forall|i: int|
            0 <= i < joined(names, seq!['/']).len() ==> !control_code(
                #[trigger] joined(names, seq!['/'])[i],
            ),
    ensures
        checked_folder_path(joined(names, seq!['/'])) == Ok::<Seq<char>, Seq<char>>(
            joined(names, seq!['/']),
        ),
        segments(joined(names, seq!['/'])) == names,
{
    let p = joined(names, seq!['/']);
    assert forall|i: int, j: int|
        0 <= i < names.len() && 0 <= j < names[i].len() implies #[trigger] names[i][j] != '/' by {
        if names[i][j] == '/' {
            assert(names[i].contains('/'));
        }
    }
    law_split_undoes_join(names, '/');
    lemma_trimmed_parts_keep(names);
    assert(normalized(p) == p);
    lemma_normalized_is_bare(p);
    lemma_filled_keep(names);
}

} // verus!
