//! The keys of a JSON object as they stand in its text, each as often as it stands there.
use crate::json::{parse_json, Json};
use crate::text::{chars_of, push_text, same_text, text_between};
use vstd::prelude::*;

verus! {

use crate::find::stands_at;
use crate::json::{json_of_text, JsonView};
use crate::text::{opt_view, views};

/// Where a reader of a JSON text stands: how deep, whether in a string and behind a
/// backslash there, whether the next string is a key of the outermost object, and where the
/// last string began.
pub struct Place {
    pub depth: nat,
    pub quoted: bool,
    pub escaped: bool,
    pub at_key: bool,
    pub from: int,
}

/// The start of a text.
pub open spec fn at_start() -> Place {
    Place { depth: 0, quoted: false, escaped: false, at_key: false, from: 0 }
}

/// Where the reader stands after the character `c` at position `i`.
pub open spec fn after(p: Place, c: char, i: int) -> Place {
    if p.quoted {
        if p.escaped {
            Place { escaped: false, ..p }
        } else if c == '\\' {
            Place { escaped: true, ..p }
        } else if c == '"' {
            Place { quoted: false, at_key: false, ..p }
        } else {
            p
        }
    } else if c == '"' {
        Place { quoted: true, from: i, ..p }
    } else if c == '{' || c == '[' {
        Place { depth: p.depth + 1, at_key: c == '{' && p.depth == 0, ..p }
    } else if c == '}' || c == ']' {
        Place { depth: if p.depth == 0 { 0 } else { (p.depth - 1) as nat }, at_key: false, ..p }
    } else if c == ',' {
        Place { at_key: p.depth == 1, ..p }
    } else {
        p
    }
}

/// Whether `c` closes a key.
pub open spec fn closes_key(p: Place, c: char) -> bool {
    p.quoted && !p.escaped && p.at_key && c == '"'
}

/// The keys from `i` on, each with its quotes.
pub open spec fn keys_from(text: Seq<char>, i: int, p: Place) -> Seq<Seq<char>>
    decreases text.len() - i,
{
    if i < 0 || i >= text.len() {
        Seq::empty()
    } else {
        let rest = keys_from(text, i + 1, after(p, text[i], i));
        if closes_key(p, text[i]) {
            seq![text.subrange(p.from, i + 1)] + rest
        } else {
            rest
        }
    }
}

/// The keys of the object that a JSON text is, each with its quotes.
pub open spec fn key_texts(text: Seq<char>) -> Seq<Seq<char>> {
    keys_from(text, 0, at_start())
}

/// The keys of the object that a JSON text is, each with its quotes.
pub fn keys_of(text: &str) -> (r: Vec<String>)
    ensures
        views(r@) == key_texts(text@),
{
    let v: Vec<char> = chars_of(text);
    let n: usize = v.len();
    let mut out: Vec<String> = Vec::new();
    let mut depth: usize = 0;
    let mut quoted: bool = false;
    let mut escaped: bool = false;
    let mut at_key: bool = false;
    let mut from: usize = 0;
    let ghost mut p = at_start();
    assert(views(out@) + key_texts(text@) =~= key_texts(text@));
    for i in 0..n
        invariant
            n == v@.len(),
            v@ == text@,
            depth <= i,
            from <= i,
            p == (Place { depth: depth as nat, quoted, escaped, at_key, from: from as int }),
            views(out@) + keys_from(text@, i as int, p) == key_texts(text@),
    {
        let c = v[i];
        let ghost before = views(out@);
        let ghost rest = keys_from(text@, i + 1, after(p, c, i as int));
        proof {
            p = after(p, c, i as int);
        }
        if quoted {
            if escaped {
                escaped = false;
            } else if c == '\\' {
                escaped = true;
            } else if c == '"' {
                if at_key {
                    push_text(&mut out, text_between(&v, from, i + 1));
                    assert(before + (seq![text@.subrange(from as int, i + 1)] + rest) =~= views(
                        out@,
                    ) + rest);
                }
                quoted = false;
                at_key = false;
            }
        } else if c == '"' {
            quoted = true;
            from = i;
        } else if c == '{' || c == '[' {
            at_key = c == '{' && depth == 0;
            depth = depth + 1;
        } else if c == '}' || c == ']' {
            if depth > 0 {
                depth = depth - 1;
            }
            at_key = false;
        } else if c == ',' {
            at_key = depth == 1;
        }
    }
    assert(views(out@) + keys_from(text@, n as int, p) =~= views(out@));
    out
}

/// The name that a key stands for, as the JSON library reads it.
pub open spec fn key_name(key: Seq<char>) -> Option<Seq<char>> {
    match json_of_text(key) {
        Some(JsonView::Text(t)) => Some(t),
        _ => None,
    }
}

/// How many of these names are `name`.
pub open spec fn name_count(names: Seq<Option<Seq<char>>>, name: Seq<char>) -> nat
    decreases names.len(),
{
    if names.len() == 0 {
        0
    } else {
        name_count(names.drop_last(), name) + (if names.last() == Some(name) {
            1nat
        } else {
            0nat
        })
    }
}

/// The names of the members of the object that a JSON text is, as often as they stand there.
pub open spec fn member_names(text: Seq<char>) -> Seq<Option<Seq<char>>> {
    Seq::new(key_texts(text).len(), |i: int| key_name(key_texts(text)[i]))
}

/// How often the object that a JSON text is has a member with this name.
pub open spec fn times(text: Seq<char>, name: Seq<char>) -> nat {
    name_count(member_names(text), name)
}

/// What optional names hold.
pub open spec fn opt_views(l: Seq<Option<String>>) -> Seq<Option<Seq<char>>> {
    Seq::new(l.len(), |i: int| opt_view(l[i]))
}

/// The names of the members of the object that a JSON text is, as often as they stand there.
pub fn names_of(text: &str) -> (r: Vec<Option<String>>)
    ensures
        opt_views(r@) == member_names(text@),
{
    let keys: Vec<String> = keys_of(text);
    let n: usize = keys.len();
    let mut out: Vec<Option<String>> = Vec::new();
    assert(views(keys@).len() == n);
    for i in 0..n
        invariant
            n == keys@.len(),
            views(keys@) == key_texts(text@),
            opt_views(out@) =~= member_names(text@).take(i as int),
    {
        assert(views(keys@)[i as int] == keys@[i as int]@);
        let name: Option<String> = match parse_json(keys[i].as_str()) {
            Some(j) => match j {
                Json::Text(t) => Some(t),
                _ => None,
            },
            None => None,
        };
        let ghost before = out@;
        out.push(name);
        assert(opt_views(out@) =~= opt_views(before).push(opt_view(name)));
        assert(member_names(text@).take(i + 1) =~= member_names(text@).take(i as int).push(
            member_names(text@)[i as int],
        ));
    }
    assert(member_names(text@).take(n as int) =~= member_names(text@));
    out
}

/// How many of these names are `name`.
pub fn count_name(names: &Vec<Option<String>>, name: &str) -> (r: usize)
    ensures
        r == name_count(opt_views(names@), name@),
        r <= names@.len(),
{
    let n: usize = names.len();
    let mut count: usize = 0;
    let ghost all = opt_views(names@);
    for i in 0..n
        invariant
            n == names@.len(),
            all == opt_views(names@),
            count <= i,
            count == name_count(all.take(i as int), name@),
    {
        proof {
            let t = all.take(i + 1);
            assert(t.drop_last() =~= all.take(i as int));
            assert(t.last() == opt_view(names@[i as int]));
        }
        if let Some(s) = &names[i] {
            if same_text(s.as_str(), name) {
                count = count + 1;
            }
        }
    }
    assert(all.take(n as int) =~= all);
    count
}

/// A document as it is written, without blanks. Numbers, truth values and nulls are words; the
/// characters of texts and keys stand as they do between their quotes.
pub enum Doc {
    Word(Seq<char>),
    Text(Seq<char>),
    List(Seq<Doc>),
    Members(Seq<(Seq<char>, Doc)>),
}

/// Whether a text can stand between quotes: a quote in it follows a backslash, and a backslash
/// has a character behind it.
pub open spec fn quotable(s: Seq<char>) -> bool
    decreases s.len(),
{
    if s.len() == 0 {
        true
    } else if s[0] == '\\' {
        s.len() >= 2 && quotable(s.skip(2))
    } else {
        s[0] != '"' && quotable(s.skip(1))
    }
}

/// Whether a text holds no sign of the grammar but the colon.
pub open spec fn plain_word(s: Seq<char>) -> bool {
    forall|i: int|
        0 <= i < s.len() ==> {
            let c = #[trigger] s[i];
            c != '"' && c != '{' && c != '}' && c != '[' && c != ']' && c != ','
        }
}

/// Whether a document can be written.
pub open spec fn writable(d: Doc) -> bool
    decreases d,
{
    match d {
        Doc::Word(s) => plain_word(s),
        Doc::Text(s) => quotable(s),
        Doc::List(l) => all_writable(l),
        Doc::Members(l) => members_writable(l),
    }
}

/// Whether the documents of a list can be written.
pub open spec fn all_writable(l: Seq<Doc>) -> bool
    decreases l,
{
    l.len() == 0 || (all_writable(l.drop_last()) && writable(l.last()))
}

/// Whether the members of an object can be written.
pub open spec fn members_writable(l: Seq<(Seq<char>, Doc)>) -> bool
    decreases l,
{
    l.len() == 0 || (members_writable(l.drop_last()) && quotable(l.last().0) && writable(
        l.last().1,
    ))
}

/// A text between quotes.
pub open spec fn in_quotes(s: Seq<char>) -> Seq<char> {
    seq!['"'] + s + seq!['"']
}

/// A document in writing.
pub open spec fn doc_text(d: Doc) -> Seq<char>
    decreases d,
{
    match d {
        Doc::Word(s) => s,
        Doc::Text(s) => in_quotes(s),
        Doc::List(l) => seq!['['] + list_text(l) + seq![']'],
        Doc::Members(l) => seq!['{'] + members_text(l) + seq!['}'],
    }
}

/// The documents of a list in writing, with commas between them.
pub open spec fn list_text(l: Seq<Doc>) -> Seq<char>
    decreases l,
{
    if l.len() == 0 {
        Seq::empty()
    } else if l.len() == 1 {
        doc_text(l.last())
    } else {
        list_text(l.drop_last()) + seq![','] + doc_text(l.last())
    }
}

/// The members of an object in writing, with commas between them.
pub open spec fn members_text(l: Seq<(Seq<char>, Doc)>) -> Seq<char>
    decreases l,
{
    if l.len() == 0 {
        Seq::empty()
    } else {
        let m = in_quotes(l.last().0) + seq![':'] + doc_text(l.last().1);
        if l.len() == 1 {
            m
        } else {
            members_text(l.drop_last()) + seq![','] + m
        }
    }
}

/// Outside of quotes it does not matter where the last ones began.
proof fn lemma_from_is_free(text: Seq<char>, i: int, p: Place, f: int)
    requires
        0 <= i,
        !p.quoted,
    ensures
        keys_from(text, i, p) == keys_from(text, i, Place { from: f, ..p }),
    decreases text.len() - i,
{
    if i < text.len() && text[i] != '"' {
        let q = after(p, text[i], i);
        assert(after(Place { from: f, ..p }, text[i], i) == Place { from: f, ..q });
        lemma_from_is_free(text, i + 1, q, f);
    }
}

proof fn lemma_split(text: Seq<char>, a: Seq<char>, b: Seq<char>, i: int)
    requires
        stands_at(text, a + b, i),
    ensures
        stands_at(text, a, i),
        stands_at(text, b, i + a.len()),
{
    let w = a + b;
    let u = text.subrange(i, i + w.len());
    assert(text.subrange(i, i + a.len()) =~= a) by {
        assert forall|j: int| 0 <= j < a.len() implies text[i + j] == a[j] by {
            assert(u[j] == w[j]);
        }
    }
    let k = i + a.len();
    assert(text.subrange(k, k + b.len()) =~= b) by {
        assert forall|j: int| 0 <= j < b.len() implies text[k + j] == b[j] by {
            assert(u[a.len() + j] == w[a.len() + j]);
        }
    }
}

proof fn lemma_char_at(text: Seq<char>, c: char, i: int)
    requires
        stands_at(text, seq![c], i),
    ensures
        0 <= i < text.len(),
        text[i] == c,
{
    assert(text.subrange(i, i + 1)[0] == c);
}

/// Between quotes nothing ends a key.
proof fn lemma_within_quotes(text: Seq<char>, s: Seq<char>, i: int, p: Place)
    requires
        quotable(s),
        stands_at(text, s, i),
        p.quoted,
        !p.escaped,
    ensures
        keys_from(text, i, p) == keys_from(text, i + s.len(), p),
    decreases s.len(),
{
    if s.len() > 0 {
        let u = text.subrange(i, i + s.len());
        assert(u[0] == text[i]);
        if s[0] == '\\' {
            assert(u[1] == text[i + 1]);
            assert(s =~= s.take(2) + s.skip(2));
            lemma_split(text, s.take(2), s.skip(2), i);
            let e = Place { escaped: true, ..p };
            assert(after(p, text[i], i) == e);
            assert(after(e, text[i + 1], i + 1) == p);
            lemma_within_quotes(text, s.skip(2), i + 2, p);
            assert(keys_from(text, i + 1, e) == keys_from(text, i + 2, p));
        } else {
            assert(s =~= s.take(1) + s.skip(1));
            lemma_split(text, s.take(1), s.skip(1), i);
            assert(after(p, text[i], i) == p);
            lemma_within_quotes(text, s.skip(1), i + 1, p);
        }
    }
}

/// A text between quotes is a key where one is due.
proof fn lemma_quoted(text: Seq<char>, s: Seq<char>, i: int, p: Place)
    requires
        quotable(s),
        stands_at(text, in_quotes(s), i),
        !p.quoted,
        !p.escaped,
    ensures
        keys_from(text, i, p) == (if p.at_key {
            seq![in_quotes(s)]
        } else {
            Seq::empty()
        }) + keys_from(text, i + s.len() + 2, Place { at_key: false, ..p }),
{
    let n = s.len() as int;
    lemma_split(text, seq!['"'] + s, seq!['"'], i);
    lemma_split(text, seq!['"'], s, i);
    lemma_char_at(text, '"', i);
    lemma_char_at(text, '"', i + n + 1);
    let q = Place { quoted: true, from: i, ..p };
    assert(after(p, text[i], i) == q);
    lemma_within_quotes(text, s, i + 1, q);
    let e = Place { quoted: false, at_key: false, from: i, ..p };
    assert(after(q, text[i + n + 1], i + n + 1) == e);
    lemma_from_is_free(text, i + n + 2, e, p.from);
    assert(Place { from: p.from, ..e } == Place { at_key: false, ..p });
    let rest = keys_from(text, i + n + 2, e);
    assert(text.subrange(i, i + n + 2) =~= in_quotes(s));
    assert(keys_from(text, i, p) == keys_from(text, i + 1, q));
    if p.at_key {
        assert(keys_from(text, i + n + 1, q) == seq![text.subrange(i, i + n + 1 + 1)] + rest);
    } else {
        assert(keys_from(text, i + n + 1, q) == rest);
        assert(Seq::<Seq<char>>::empty() + rest =~= rest);
    }
}

proof fn lemma_word(text: Seq<char>, s: Seq<char>, i: int, p: Place)
    requires
        plain_word(s),
        stands_at(text, s, i),
        !p.quoted,
    ensures
        keys_from(text, i, p) == keys_from(text, i + s.len(), p),
    decreases s.len(),
{
    if s.len() > 0 {
        assert(text.subrange(i, i + s.len())[0] == text[i]);
        assert(s[0] == text[i]);
        assert(after(p, text[i], i) == p);
        assert(s =~= s.take(1) + s.skip(1));
        lemma_split(text, s.take(1), s.skip(1), i);
        assert forall|j: int| 0 <= j < s.skip(1).len() implies {
            let c = #[trigger] s.skip(1)[j];
            c != '"' && c != '{' && c != '}' && c != '[' && c != ']' && c != ','
        } by {
            assert(s.skip(1)[j] == s[j + 1]);
        }
        lemma_word(text, s.skip(1), i + 1, p);
    }
}

/// The keys within a value are not among those of the object.
proof fn lemma_value(text: Seq<char>, d: Doc, i: int, p: Place)
    requires
        writable(d),
        stands_at(text, doc_text(d), i),
        !p.quoted,
        !p.escaped,
        !p.at_key,
        p.depth >= 1,
    ensures
        keys_from(text, i, p) == keys_from(text, i + doc_text(d).len(), p),
    decreases d,
{
    let n = doc_text(d).len() as int;
    let inner = Place { depth: p.depth + 1, ..p };
    match d {
        Doc::Word(s) => {
            lemma_word(text, s, i, p);
        },
        Doc::Text(s) => {
            lemma_quoted(text, s, i, p);
            let rest = keys_from(text, i + n, p);
            assert(Place { at_key: false, ..p } == p);
            assert(Seq::<Seq<char>>::empty() + rest =~= rest);
        },
        Doc::List(l) => {
            lemma_split(text, seq!['['] + list_text(l), seq![']'], i);
            lemma_split(text, seq!['['], list_text(l), i);
            lemma_char_at(text, '[', i);
            lemma_char_at(text, ']', i + n - 1);
            assert(after(p, text[i], i) == inner);
            lemma_list(text, l, i + 1, inner);
            assert(after(inner, text[i + n - 1], i + n - 1) == p);
        },
        Doc::Members(l) => {
            lemma_split(text, seq!['{'] + members_text(l), seq!['}'], i);
            lemma_split(text, seq!['{'], members_text(l), i);
            lemma_char_at(text, '{', i);
            lemma_char_at(text, '}', i + n - 1);
            assert(after(p, text[i], i) == inner);
            lemma_inner_members(text, l, i + 1, inner);
            assert(after(inner, text[i + n - 1], i + n - 1) == p);
        },
    }
}

proof fn lemma_list(text: Seq<char>, l: Seq<Doc>, i: int, p: Place)
    requires
        all_writable(l),
        stands_at(text, list_text(l), i),
        !p.quoted,
        !p.escaped,
        !p.at_key,
        p.depth >= 2,
    ensures
        keys_from(text, i, p) == keys_from(text, i + list_text(l).len(), p),
    decreases l,
{
    if l.len() == 1 {
        lemma_value(text, l.last(), i, p);
    } else if l.len() > 1 {
        let a = list_text(l.drop_last());
        let b = doc_text(l.last());
        lemma_split(text, a + seq![','], b, i);
        lemma_split(text, a, seq![','], i);
        let k = i + a.len();
        lemma_char_at(text, ',', k);
        lemma_list(text, l.drop_last(), i, p);
        assert(after(p, text[k], k) == p);
        lemma_value(text, l.last(), k + 1, p);
    }
}

proof fn lemma_inner_members(text: Seq<char>, l: Seq<(Seq<char>, Doc)>, i: int, p: Place)
    requires
        members_writable(l),
        stands_at(text, members_text(l), i),
        !p.quoted,
        !p.escaped,
        !p.at_key,
        p.depth >= 2,
    ensures
        keys_from(text, i, p) == keys_from(text, i + members_text(l).len(), p),
    decreases l,
{
    if l.len() > 0 {
        let key = l.last().0;
        let q = in_quotes(key);
        let v = doc_text(l.last().1);
        let m = q + seq![':'] + v;
        let a = members_text(l.drop_last());
        let k = if l.len() == 1 {
            i
        } else {
            i + a.len() + 1
        };
        if l.len() > 1 {
            lemma_split(text, a + seq![','], m, i);
            lemma_split(text, a, seq![','], i);
            lemma_char_at(text, ',', i + a.len());
            lemma_inner_members(text, l.drop_last(), i, p);
            assert(after(p, text[i + a.len()], i + a.len()) == p);
        }
        lemma_split(text, q + seq![':'], v, k);
        lemma_split(text, q, seq![':'], k);
        lemma_quoted(text, key, k, p);
        assert(Place { at_key: false, ..p } == p);
        let c = k + q.len();
        lemma_char_at(text, ':', c);
        assert(after(p, text[c], c) == p);
        lemma_value(text, l.last().1, c + 1, p);
        let rest = keys_from(text, c, p);
        assert(Seq::<Seq<char>>::empty() + rest =~= rest);
    }
}

/// The keys of members, between their quotes.
pub open spec fn keys_written(l: Seq<(Seq<char>, Doc)>) -> Seq<Seq<char>> {
    Seq::new(l.len(), |i: int| in_quotes(l[i].0))
}

proof fn lemma_members(text: Seq<char>, l: Seq<(Seq<char>, Doc)>, i: int, p: Place)
    requires
        members_writable(l),
        stands_at(text, members_text(l), i),
        !p.quoted,
        !p.escaped,
        p.at_key,
        p.depth == 1,
    ensures
        l.len() > 0 ==> keys_from(text, i, p) == keys_written(l) + keys_from(
            text,
            i + members_text(l).len(),
            Place { at_key: false, ..p },
        ),
    decreases l,
{
    if l.len() > 0 {
        let key = l.last().0;
        let q = in_quotes(key);
        let v = doc_text(l.last().1);
        let m = q + seq![':'] + v;
        let a = members_text(l.drop_last());
        let done = Place { at_key: false, ..p };
        let k = if l.len() == 1 {
            i
        } else {
            i + a.len() + 1
        };
        if l.len() > 1 {
            lemma_split(text, a + seq![','], m, i);
            lemma_split(text, a, seq![','], i);
            lemma_char_at(text, ',', i + a.len());
            lemma_members(text, l.drop_last(), i, p);
            assert(after(done, text[i + a.len()], i + a.len()) == p);
            assert(keys_from(text, i + a.len(), done) == keys_from(text, k, p));
        }
        lemma_split(text, q + seq![':'], v, k);
        lemma_split(text, q, seq![':'], k);
        lemma_quoted(text, key, k, p);
        let c = k + q.len();
        lemma_char_at(text, ':', c);
        assert(after(done, text[c], c) == done);
        lemma_value(text, l.last().1, c + 1, done);
        let end = i + members_text(l).len();
        let rest = keys_from(text, end, done);
        assert(c + 1 + v.len() == end);
        assert(keys_from(text, k, p) == seq![q] + rest);
        if l.len() == 1 {
            assert(keys_written(l) =~= seq![q]);
        } else {
            assert(keys_written(l) =~= keys_written(l.drop_last()) + seq![q]);
            assert(keys_written(l.drop_last()) + (seq![q] + rest) =~= keys_written(l) + rest);
        }
    }
}

/// The keys of an object are those of its members, in order, and none of those within them,
/// whatever stands in its texts.
pub proof fn law_keys_are_those_of_the_members(l: Seq<(Seq<char>, Doc)>)
    requires
        members_writable(l),
    ensures
        key_texts(doc_text(Doc::Members(l))) == keys_written(l),
{
    let text = doc_text(Doc::Members(l));
    let n = text.len() as int;
    let m = members_text(l);
    assert(text.subrange(0, n) =~= text);
    lemma_split(text, seq!['{'] + m, seq!['}'], 0);
    lemma_split(text, seq!['{'], m, 0);
    lemma_char_at(text, '{', 0);
    lemma_char_at(text, '}', n - 1);
    let p = Place { depth: 1, at_key: true, ..at_start() };
    assert(after(at_start(), text[0], 0) == p);
    assert(key_texts(text) == keys_from(text, 1, p));
    let done = Place { at_key: false, ..p };
    assert(keys_from(text, n, after(done, text[n - 1], n - 1)) =~= Seq::empty());
    assert(keys_from(text, n - 1, done) =~= Seq::empty());
    if l.len() > 0 {
        lemma_members(text, l, 1, p);
        assert(keys_written(l) + keys_from(text, n - 1, done) =~= keys_written(l));
    } else {
        assert(keys_from(text, n, after(p, text[n - 1], n - 1)) =~= Seq::empty());
        assert(keys_from(text, 1, p) =~= Seq::empty());
        assert(keys_written(l) =~= Seq::empty());
    }
}

/// A name is counted once for each time that it is there.
pub proof fn law_names_are_counted(names: Seq<Option<Seq<char>>>, last: Option<Seq<char>>, name: Seq<char>)
    ensures
        name_count(Seq::empty(), name) == 0,
        last == Some(name) ==> name_count(names.push(last), name) == name_count(names, name) + 1,
        last != Some(name) ==> name_count(names.push(last), name) == name_count(names, name),
{
    assert(names.push(last).drop_last() =~= names);
}

} // verus!
