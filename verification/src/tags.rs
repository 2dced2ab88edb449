//! Tags as they are stored: `,tag1,tag2,`.
use crate::text::str_to_lowercase;
use crate::trim::{join, split, trim, trim_parts};
use vstd::prelude::*;

verus! {

use crate::find::{occurs, stands_at};
use crate::paths::lemma_pieces_concat;
use crate::text::{lowercase_text, views};
use crate::trim::{
    joined,
    lemma_empty_part,
    lemma_pieces_of_plain,
    lemma_trimmed_parts_keep,
    pieces,
    trimmed,
    trimmed_parts,
};

/// How one tag is stored.
pub open spec fn stored_tag(t: Seq<char>) -> Seq<char> {
    lowercase_text(trimmed(t))
}

/// The stored tags that are not empty, each with a comma after it.
pub open spec fn stored_run(tags: Seq<Seq<char>>) -> Seq<char>
    decreases tags.len(),
{
    if tags.len() == 0 {
        Seq::empty()
    } else {
        let before = stored_run(tags.drop_last());
        let t = stored_tag(tags.last());
        if t.len() == 0 {
            before
        } else {
            before + t + seq![',']
        }
    }
}

/// Tags as they are stored: between commas, so that `,tag,` finds a tag.
pub open spec fn encoded_tags(tags: Seq<Seq<char>>) -> Seq<char> {
    if tags.len() == 0 {
        Seq::empty()
    } else {
        seq![','] + stored_run(tags)
    }
}

/// The tags of a stored list.
pub open spec fn decoded_tags(stored: Seq<char>) -> Seq<Seq<char>> {
    trimmed_parts(pieces(stored, ','))
}

/// Encodes tags for storage: trimmed, in lower case, between commas.
pub fn encode_tags(tags: &Vec<String>) -> (r: String)
    ensures
        r@ == encoded_tags(views(tags@)),
{
    let n: usize = tags.len();
    if n == 0 {
        assert(encoded_tags(views(tags@)) =~= Seq::<char>::empty());
        return String::new();
    }
    let mut s: String = ",".to_owned();
    proof {
        reveal_strlit(",");
        assert(","@ =~= seq![',']);
        assert(seq![','] + stored_run(views(tags@).take(0)) =~= seq![',']);
    }
    for i in 0..n
        invariant
            n == tags@.len(),
            s@ == seq![','] + stored_run(views(tags@).take(i as int)),
    {
        let t = trim(tags[i].as_str());
        let l = str_to_lowercase(t.as_str());
        let ghost before = stored_run(views(tags@).take(i as int));
        proof {
            let next = views(tags@).take(i + 1);
            assert(next.drop_last() =~= views(tags@).take(i as int));
            assert(next.last() == tags@[i as int]@);
            assert((seq![','] + before + l@).push(',') =~= seq![','] + (before + l@ + seq![',']));
        }
        if l.as_str().unicode_len() > 0 {
            s.push_str(l.as_str());
            s.push(',');
        }
    }
    assert(views(tags@).take(n as int) =~= views(tags@));
    s
}

/// The tags of a stored list.
pub fn decode_tags(stored: &str) -> (r: Vec<String>)
    ensures
        views(r@) == decoded_tags(stored@),
{
    let all: Vec<String> = split(stored, ',');
    trim_parts(&all)
}

/// The stored tags that are not blank, as they stand, for a form field.
pub open spec fn form_tags(stored: Seq<char>) -> Seq<char> {
    joined(pieces(stored, ',').filter(|t: Seq<char>| trimmed(t).len() > 0), ", "@)
}

/// `,billing,refund,` becomes `billing, refund`.
pub fn decode_tags_for_form(stored: &str) -> (r: String)
    ensures
        r@ == form_tags(stored@),
{
    let all: Vec<String> = split(stored, ',');
    let n: usize = all.len();
    let ghost p = |t: Seq<char>| trimmed(t).len() > 0;
    let mut keep: Vec<String> = Vec::new();
    assert(views(keep@) =~= views(all@).take(0).filter(p)) by {
        reveal(Seq::filter);
    }
    for i in 0..n
        invariant
            n == all@.len(),
            p == (|t: Seq<char>| trimmed(t).len() > 0),
            views(keep@) == views(all@).take(i as int).filter(p),
    {
        proof {
            reveal(Seq::filter);
            let t = views(all@).take(i + 1);
            assert(t.drop_last() =~= views(all@).take(i as int));
            assert(t.last() == all@[i as int]@);
        }
        if !crate::trim::is_blank(all[i].as_str()) {
            let s = crate::text::copy_text(all[i].as_str());
            proof {
                crate::text::lemma_views_push(keep@, s);
            }
            keep.push(s);
        }
    }
    assert(views(all@).take(n as int) =~= views(all@));
    join(&keep, ", ")
}

/// The tags of a list that are stored, as they are stored.
pub open spec fn stored_tags(tags: Seq<Seq<char>>) -> Seq<Seq<char>>
    decreases tags.len(),
{
    if tags.len() == 0 {
        Seq::empty()
    } else {
        let before = stored_tags(tags.drop_last());
        let t = stored_tag(tags.last());
        if t.len() == 0 {
            before
        } else {
            before.push(t)
        }
    }
}

/// Reading stored tags gives back what was stored: each tag trimmed and in lower
/// case, the empty ones left out. A tag whose lower-case form holds a comma, or
/// has white space at an end, is left out of the statement.
pub proof fn law_tags_read_back(tags: Seq<Seq<char>>)
    requires
        forall|i: int|
            0 <= i < tags.len() ==> !stored_tag(#[trigger] tags[i]).contains(',') && trimmed(
                stored_tag(tags[i]),
            ) == stored_tag(tags[i]),
    ensures
        decoded_tags(encoded_tags(tags)) == stored_tags(tags),
{
    let e = Seq::<char>::empty();
    lemma_empty_part();
    if tags.len() == 0 {
        assert(encoded_tags(tags) =~= e);
        assert(pieces(e, ',') =~= seq![e]);
        assert(stored_tags(tags) =~= Seq::<Seq<char>>::empty());
    } else {
        lemma_stored_pieces(tags);
        let l = seq![e] + stored_tags(tags) + seq![e];
        lemma_stored_tags(tags);
        lemma_trimmed_parts_keep(stored_tags(tags));
        let m = seq![e] + stored_tags(tags);
        assert(l.drop_last() =~= m);
        lemma_leading_empty(stored_tags(tags));
        assert(trimmed_parts(l) =~= stored_tags(tags));
    }
}

proof fn lemma_leading_empty(l: Seq<Seq<char>>)
    ensures
        trimmed_parts(seq![Seq::<char>::empty()] + l) == trimmed_parts(l),
    decreases l.len(),
{
    let e = Seq::<char>::empty();
    lemma_empty_part();
    let m = seq![e] + l;
    if l.len() == 0 {
        assert(m =~= seq![e]);
        assert(trimmed_parts(l) == Seq::<Seq<char>>::empty());
    } else {
        lemma_leading_empty(l.drop_last());
        assert(m.drop_last() =~= seq![e] + l.drop_last());
    }
}

proof fn lemma_stored_tags(tags: Seq<Seq<char>>)
    requires
        forall|i: int| 0 <= i < tags.len() ==> trimmed(stored_tag(#[trigger] tags[i])) == stored_tag(tags[i]),
    ensures
        forall|i: int|
            0 <= i < stored_tags(tags).len() ==> (#[trigger] stored_tags(tags)[i]).len() > 0
                && trimmed(stored_tags(tags)[i]) == stored_tags(tags)[i],
    decreases tags.len(),
{
    if tags.len() > 0 {
        let p = tags.drop_last();
        assert forall|i: int| 0 <= i < p.len() implies trimmed(stored_tag(#[trigger] p[i]))
            == stored_tag(p[i]) by {
            assert(p[i] == tags[i]);
        }
        lemma_stored_tags(p);
        assert(tags[tags.len() - 1] == tags.last());
        let b = stored_tags(p);
        let r = stored_tags(tags);
        assert forall|i: int| 0 <= i < r.len() implies (#[trigger] r[i]).len() > 0 && trimmed(r[i])
            == r[i] by {
            if i < b.len() {
                assert(r[i] == b[i]);
            }
        }
    }
}

proof fn lemma_stored_pieces(tags: Seq<Seq<char>>)
    requires
        forall|i: int| 0 <= i < tags.len() ==> !stored_tag(#[trigger] tags[i]).contains(','),
    ensures
        pieces(seq![','] + stored_run(tags), ',') == seq![Seq::<char>::empty()] + stored_tags(tags)
            + seq![Seq::<char>::empty()],
    decreases tags.len(),
{
    let e = Seq::<char>::empty();
    if tags.len() == 0 {
        let c = seq![','];
        assert(c + stored_run(tags) =~= c);
        assert(c.drop_last() =~= e);
        assert(pieces(e, ',') =~= seq![e]);
        assert(pieces(c, ',') =~= seq![e] + stored_tags(tags) + seq![e]);
    } else {
        let p = tags.drop_last();
        assert forall|i: int| 0 <= i < p.len() implies !stored_tag(#[trigger] p[i]).contains(',') by {
            assert(p[i] == tags[i]);
        }
        lemma_stored_pieces(p);
        let t = stored_tag(tags.last());
        assert(tags[tags.len() - 1] == tags.last());
        if t.len() > 0 {
            let head = seq![','] + stored_run(p);
            assert forall|j: int| 0 <= j < t.len() implies t[j] != ',' by {
                if t[j] == ',' {
                    assert(t.contains(','));
                }
            }
            lemma_pieces_of_plain(head, t, ',');
            let ht = head + t;
            let full = seq![','] + stored_run(tags);
            assert(full =~= ht + seq![',']);
            assert(full.drop_last() =~= ht);
            assert(pieces(head, ',').last() =~= e);
            assert(e + t =~= t);
            assert(pieces(full, ',') =~= pieces(ht, ',').push(e));
            assert(pieces(head, ',').drop_last() =~= seq![e] + stored_tags(p));
            assert(pieces(full, ',') =~= seq![e] + stored_tags(tags) + seq![e]);
        }
    }
}

/// A tag between the commas that it is looked for with.
pub open spec fn between_commas(t: Seq<char>) -> Seq<char> {
    seq![','] + t + seq![',']
}

/// Every tag that is stored stands between commas, so that `,tag,` finds it.
pub proof fn law_stored_tags_stand_between_commas(tags: Seq<Seq<char>>, i: int)
    requires
        0 <= i < tags.len(),
        stored_tag(tags[i]).len() > 0,
    ensures
        occurs(encoded_tags(tags), between_commas(stored_tag(tags[i]))),
    decreases tags.len(),
{
    let whole = encoded_tags(tags);
    let front = tags.drop_last();
    let head = seq![','] + stored_run(front);
    let needle = between_commas(stored_tag(tags[i]));
    let last = stored_tag(tags.last());
    if i == front.len() {
        lemma_run_ends_in_a_comma(front);
        let k = head.len() - 1;
        assert(whole =~= head + last + seq![',']);
        assert(whole.subrange(k, k + needle.len()) =~= needle);
        assert(stands_at(whole, needle, k));
    } else {
        law_stored_tags_stand_between_commas(front, i);
        assert(front[i] == tags[i]);
        let k = choose|k: int| stands_at(encoded_tags(front), needle, k);
        assert(encoded_tags(front) == head);
        if last.len() > 0 {
            assert(whole =~= head + last + seq![',']);
        }
        assert(whole.subrange(k, k + needle.len()) =~= head.subrange(k, k + needle.len()));
        assert(stands_at(whole, needle, k));
    }
}

proof fn lemma_run_ends_in_a_comma(tags: Seq<Seq<char>>)
    ensures
        (seq![','] + stored_run(tags)).last() == ',',
    decreases tags.len(),
{
    if tags.len() > 0 {
        lemma_run_ends_in_a_comma(tags.drop_last());
    }
}

/// What `,tag,` finds is a tag that is stored, whole. A tag whose lower-case form holds a
/// comma is left out of the statement.
pub proof fn law_tag_search_finds_whole_tags(tags: Seq<Seq<char>>, t: Seq<char>)
    requires
        forall|i: int| 0 <= i < tags.len() ==> !stored_tag(#[trigger] tags[i]).contains(','),
        t.len() > 0,
        !t.contains(','),
        occurs(encoded_tags(tags), between_commas(t)),
    ensures
        stored_tags(tags).contains(t),
{
    let e = Seq::<char>::empty();
    let whole = encoded_tags(tags);
    let needle = between_commas(t);
    let k = choose|k: int| stands_at(whole, needle, k);
    assert(tags.len() > 0);
    let a = whole.take(k);
    let b = whole.skip(k + needle.len());
    assert(whole =~= a + seq![','] + (t + seq![','] + b)) by {
        assert forall|j: int| 0 <= j < whole.len() implies whole[j] == (a + seq![','] + (t + seq![
            ',',
        ] + b))[j] by {
            if k <= j && j < k + needle.len() {
                assert(whole.subrange(k, k + needle.len())[j - k] == needle[j - k]);
            }
        }
    }
    lemma_pieces_concat(a, t + seq![','] + b, ',');
    lemma_pieces_concat(t, b, ',');
    assert forall|j: int| 0 <= j < t.len() implies t[j] != ',' by {
        if t[j] == ',' {
            assert(t.contains(','));
        }
    }
    lemma_pieces_of_plain(e, t, ',');
    assert(e + t =~= t);
    assert(pieces(e, ',') =~= seq![e]);
    assert(pieces(t, ',') =~= seq![t]);
    let all = pieces(whole, ',');
    let n = pieces(a, ',').len() as int;
    assert(all[n] == t);
    lemma_stored_pieces(tags);
    let l = seq![e] + stored_tags(tags) + seq![e];
    assert(l[n] == t);
    assert(0 < n && n < l.len() - 1);
    assert(stored_tags(tags)[n - 1] == t);
}

/// A form shows stored tags with a comma and a space between each. A tag whose lower-case form
/// holds a comma or is blank is left out of the statement.
pub proof fn law_forms_show_the_tags(tags: Seq<Seq<char>>)
    requires
        tags.len() > 0,
        forall|i: int|
            0 <= i < tags.len() ==> !stored_tag(#[trigger] tags[i]).contains(',') && trimmed(
                stored_tag(tags[i]),
            ).len() > 0,
    ensures
        form_tags(encoded_tags(tags)) == joined(
            Seq::new(tags.len(), |i: int| lowercase_text(trimmed(tags[i]))),
            ", "@,
        ),
{
    let e = Seq::<char>::empty();
    let p = |t: Seq<char>| trimmed(t).len() > 0;
    lemma_stored_pieces(tags);
    lemma_all_stored(tags);
    lemma_empty_part();
    let s = stored_tags(tags);
    assert(seq![e] + s + seq![e] =~= seq![e] + (s + seq![e]));
    Seq::filter_distributes_over_add(seq![e] + s, seq![e], p);
    Seq::filter_distributes_over_add(seq![e], s, p);
    reveal(Seq::filter);
    assert(seq![e].drop_last() =~= Seq::<Seq<char>>::empty());
    let none = Seq::<Seq<char>>::empty();
    assert(none.filter(p) =~= none);
    assert(!p(seq![e].last()));
    assert(seq![e].filter(p) =~= none);
    lemma_filter_keeps(s, p);
    assert((seq![e] + s + seq![e]).filter(p) =~= s);
}

proof fn lemma_all_stored(tags: Seq<Seq<char>>)
    requires
        forall|i: int| 0 <= i < tags.len() ==> trimmed(stored_tag(#[trigger] tags[i])).len() > 0,
    ensures
        stored_tags(tags) == Seq::new(tags.len(), |i: int| lowercase_text(trimmed(tags[i]))),
        forall|i: int|
            0 <= i < stored_tags(tags).len() ==> trimmed(#[trigger] stored_tags(tags)[i]).len() > 0,
    decreases tags.len(),
{
    lemma_empty_part();
    if tags.len() > 0 {
        let t = tags.drop_last();
        assert forall|i: int| 0 <= i < t.len() implies trimmed(stored_tag(#[trigger] t[i])).len()
            > 0 by {
            assert(t[i] == tags[i]);
        }
        lemma_all_stored(t);
        let x = tags[tags.len() - 1];
        if stored_tag(x).len() == 0 {
            assert(stored_tag(x) =~= Seq::<char>::empty());
        }
        assert(stored_tags(tags) =~= Seq::new(
            tags.len(),
            |i: int| lowercase_text(trimmed(tags[i])),
        ));
        assert forall|i: int| 0 <= i < stored_tags(tags).len() implies trimmed(
            #[trigger] stored_tags(tags)[i],
        ).len() > 0 by {
            assert(trimmed(stored_tag(tags[i])).len() > 0);
        }
    } else {
        assert(stored_tags(tags) =~= Seq::new(
            tags.len(),
            |i: int| lowercase_text(trimmed(tags[i])),
        ));
    }
}

proof fn lemma_filter_keeps(s: Seq<Seq<char>>, p: spec_fn(Seq<char>) -> bool)
    requires
        forall|i: int| 0 <= i < s.len() ==> p(#[trigger] s[i]),
    ensures
        s.filter(p) == s,
    decreases s.len(),
{
    reveal(Seq::filter);
    if s.len() > 0 {
        let t = s.drop_last();
        assert forall|i: int| 0 <= i < t.len() implies p(#[trigger] t[i]) by {
            assert(t[i] == s[i]);
        }
        lemma_filter_keeps(t, p);
        assert(p(s[s.len() - 1]));
        assert(t.push(s.last()) =~= s);
    } else {
        assert(s.filter(p) =~= s);
    }
}

} // verus!
