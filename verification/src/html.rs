//! HTML escaping and the page templates' placeholders.
use crate::find::{find_from, stands_here};
use crate::text::{chars_of, text_between};
use vstd::prelude::*;

verus! {

use crate::find::{first_from, lemma_first_from, stands_at};

/// How one character is written in HTML text or a quoted attribute.
pub open spec fn escaped_char(c: char) -> Seq<char> {
    if c == '&' {
        "&amp;"@
    } else if c == '<' {
        "&lt;"@
    } else if c == '>' {
        "&gt;"@
    } else if c == '"' {
        "&quot;"@
    } else if c == '\'' {
        "&#39;"@
    } else {
        seq![c]
    }
}

/// `s` with the characters that mean something to HTML written as entities.
pub open spec fn escaped(s: Seq<char>) -> Seq<char>
    decreases s.len(),
{
    if s.len() == 0 {
        Seq::<char>::empty()
    } else {
        escaped(s.drop_last()) + escaped_char(s.last())
    }
}

/// Escapes user-controlled text for an HTML body or a quoted attribute.
pub fn escape_html(s: &str) -> (r: String)
    ensures
        r@ == escaped(s@),
{
    let v: Vec<char> = chars_of(s);
    let n: usize = v.len();
    let mut out: String = String::new();
    for i in 0..n
        invariant
            n == v@.len(),
            out@ == escaped(v@.take(i as int)),
    {
        let c = v[i];
        proof {
            let next = v@.take(i + 1);
            assert(next.drop_last() =~= v@.take(i as int));
            assert(next.last() == c);
        }
        if c == '&' {
            out.push_str("&amp;");
        } else if c == '<' {
            out.push_str("&lt;");
        } else if c == '>' {
            out.push_str("&gt;");
        } else if c == '"' {
            out.push_str("&quot;");
        } else if c == '\'' {
            out.push_str("&#39;");
        } else {
            out.push(c);
            assert(escaped(v@.take(i as int)).push(c) =~= escaped(v@.take(i as int)) + seq![c]);
        }
    }
    assert(v@.take(n as int) =~= s@);
    out
}

/// Whether `c` could open markup or end a quoted attribute.
pub open spec fn markup_char(c: char) -> bool {
    c == '<' || c == '>' || c == '"' || c == '\''
}

/// Escaped text holds no character that could open markup or end a quoted
/// attribute.
pub proof fn law_escaped_text_holds_no_markup(s: Seq<char>)
    ensures
        forall|i: int| 0 <= i < escaped(s).len() ==> !markup_char(#[trigger] escaped(s)[i]),
    decreases s.len(),
{
    reveal_strlit("&amp;");
    reveal_strlit("&lt;");
    reveal_strlit("&gt;");
    reveal_strlit("&quot;");
    reveal_strlit("&#39;");
    if s.len() > 0 {
        law_escaped_text_holds_no_markup(s.drop_last());
        let head = escaped(s.drop_last());
        let tail = escaped_char(s.last());
        assert forall|j: int| 0 <= j < tail.len() implies !markup_char(#[trigger] tail[j]) by {}
        assert forall|i: int| 0 <= i < escaped(s).len() implies !markup_char(
            #[trigger] escaped(s)[i],
        ) by {
            if i < head.len() {
                assert(escaped(s)[i] == head[i]);
            } else {
                assert(escaped(s)[i] == tail[i - head.len()]);
            }
        }
    }
}

/// Text without special characters is its own escaped form.
pub proof fn law_plain_text_is_kept(s: Seq<char>)
    requires
        forall|i: int| 0 <= i < s.len() ==> !markup_char(#[trigger] s[i]) && s[i] != '&',
    ensures
        escaped(s) == s,
    decreases s.len(),
{
    if s.len() > 0 {
        law_plain_text_is_kept(s.drop_last());
        assert(s.drop_last() + seq![s.last()] =~= s);
    } else {
        assert(escaped(s) =~= s);
    }
}

/// Escaping works piece by piece.
pub proof fn law_escape_distributes(a: Seq<char>, b: Seq<char>)
    ensures
        escaped(a + b) == escaped(a) + escaped(b),
    decreases b.len(),
{
    if b.len() == 0 {
        assert(a + b =~= a);
        assert(escaped(a) + escaped(b) =~= escaped(a));
    } else {
        law_escape_distributes(a, b.drop_last());
        assert((a + b).drop_last() =~= a + b.drop_last());
        assert(escaped(a + b) =~= escaped(a) + escaped(b));
    }
}

/// Two different texts never have the same escaped form.
pub proof fn law_escape_injective(a: Seq<char>, b: Seq<char>)
    requires
        escaped(a) == escaped(b),
    ensures
        a == b,
    decreases a.len(),
{
    reveal_strlit("&amp;");
    reveal_strlit("&lt;");
    reveal_strlit("&gt;");
    reveal_strlit("&quot;");
    reveal_strlit("&#39;");
    if a.len() == 0 || b.len() == 0 {
        lemma_escaped_len(a);
        lemma_escaped_len(b);
        assert(a =~= b);
    } else {
        let x = escaped_char(a.first());
        let y = escaped_char(b.first());
        let ar = a.skip(1);
        let br = b.skip(1);
        assert(a =~= seq![a.first()] + ar);
        assert(b =~= seq![b.first()] + br);
        law_escape_distributes(seq![a.first()], ar);
        law_escape_distributes(seq![b.first()], br);
        lemma_escaped_one(a.first());
        lemma_escaped_one(b.first());
        let w = escaped(a);
        assert(w =~= x + escaped(ar));
        assert(w =~= y + escaped(br));
        assert forall|i: int| 0 <= i < x.len() implies w[i] == x[i] by {}
        assert forall|i: int| 0 <= i < y.len() implies w[i] == y[i] by {}
        assert(a.first() == b.first()) by {
            assert(x[0] == y[0]);
            if x[0] == '&' {
                assert(x[1] == y[1]);
                assert(x[2] == y[2]);
                assert(x[3] == y[3]);
            }
        }
        assert(escaped(ar) =~= w.skip(x.len() as int));
        assert(escaped(br) =~= w.skip(x.len() as int));
        law_escape_injective(ar, br);
    }
}

pub proof fn lemma_escaped_len(s: Seq<char>)
    ensures
        escaped(s).len() >= s.len(),
    decreases s.len(),
{
    reveal_strlit("&amp;");
    reveal_strlit("&lt;");
    reveal_strlit("&gt;");
    reveal_strlit("&quot;");
    reveal_strlit("&#39;");
    if s.len() > 0 {
        lemma_escaped_len(s.drop_last());
        assert(escaped_char(s.last()).len() >= 1);
    }
}

proof fn lemma_escaped_one(c: char)
    ensures
        escaped(seq![c]) == escaped_char(c),
{
    let s = seq![c];
    assert(s.drop_last() =~= Seq::<char>::empty());
    assert(escaped(Seq::<char>::empty()) =~= Seq::<char>::empty());
    assert(escaped(s) =~= escaped_char(c));
}

/// What opens a placeholder.
pub open spec fn slot_open() -> Seq<char> {
    seq!['{', '{']
}

/// What closes a placeholder.
pub open spec fn slot_close() -> Seq<char> {
    seq!['}', '}']
}

/// The placeholder for `key`.
pub open spec fn slot(key: Seq<char>) -> Seq<char> {
    slot_open() + key + slot_close()
}

/// The first entry from `k` on whose placeholder stands in `tpl` at `i`.
pub open spec fn slot_at(
    tpl: Seq<char>,
    vars: Seq<(Seq<char>, Seq<char>)>,
    i: int,
    k: int,
) -> Option<int>
    decreases vars.len() - k,
{
    if k < 0 || k >= vars.len() {
        None
    } else if stands_at(tpl, slot(vars[k].0), i) {
        Some(k)
    } else {
        slot_at(tpl, vars, i, k + 1)
    }
}

pub proof fn lemma_slot_at(tpl: Seq<char>, vars: Seq<(Seq<char>, Seq<char>)>, i: int, k: int)
    ensures
        slot_at(tpl, vars, i, k) matches Some(j) ==> 0 <= j < vars.len() && stands_at(
            tpl,
            slot(vars[j].0),
            i,
        ) && slot(vars[j].0).len() >= 4,
    decreases vars.len() - k,
{
    if k < 0 || k >= vars.len() {
    } else if stands_at(tpl, slot(vars[k].0), i) {
    } else {
        lemma_slot_at(tpl, vars, i, k + 1);
    }
}

/// The template from `i` on with its placeholders replaced by their values.
/// Values are copied as they are: no part of a value is looked at again.
pub open spec fn filled_from(tpl: Seq<char>, vars: Seq<(Seq<char>, Seq<char>)>, i: int) -> Seq<char>
    decreases tpl.len() - i,
{
    if i < 0 || i >= tpl.len() {
        Seq::<char>::empty()
    } else {
        proof {
            lemma_slot_at(tpl, vars, i, 0);
        }
        match slot_at(tpl, vars, i, 0) {
            Some(k) => vars[k].1 + filled_from(tpl, vars, i + slot(vars[k].0).len()),
            None => seq![tpl[i]] + filled_from(tpl, vars, i + 1),
        }
    }
}

/// `s` from `i` on without its placeholders. One that is opened and never
/// closed stays, with all that follows it.
pub open spec fn without_slots_from(s: Seq<char>, i: int) -> Seq<char>
    decreases s.len() - i,
    when 0 <= i <= s.len()
    via without_slots_from_decreases
{
    match first_from(s, slot_open(), i) {
        None => s.skip(i),
        Some(a) => match first_from(s, slot_close(), a) {
            None => s.skip(i),
            Some(b) => s.subrange(i, a) + without_slots_from(s, b + 2),
        },
    }
}

#[via_fn]
proof fn without_slots_from_decreases(s: Seq<char>, i: int) {
    lemma_first_from(s, slot_open(), i);
    if let Some(a) = first_from(s, slot_open(), i) {
        lemma_first_from(s, slot_close(), a);
    }
}

/// A filled-in template: every placeholder with a value is replaced by it, and
/// what is left of `{{...}}` is dropped.
pub open spec fn rendered(tpl: Seq<char>, vars: Seq<(Seq<char>, Seq<char>)>) -> Seq<char> {
    without_slots_from(filled_from(tpl, vars, 0), 0)
}

/// The keys and values of a template call.
pub open spec fn entries(vars: Seq<(&str, &str)>) -> Seq<(Seq<char>, Seq<char>)> {
    Seq::new(vars.len(), |i: int| (vars[i].0@, vars[i].1@))
}

fn slot_chars(key: &str) -> (r: Vec<char>)
    ensures
        r@ == slot(key@),
{
    let mut out: Vec<char> = Vec::new();
    out.push('{');
    out.push('{');
    let mut k: Vec<char> = chars_of(key);
    out.append(&mut k);
    out.push('}');
    out.push('}');
    assert(out@ =~= slot(key@));
    out
}

fn fill(tpl: &Vec<char>, vars: &[(&str, &str)]) -> (r: String)
    ensures
        r@ == filled_from(tpl@, entries(vars@), 0),
{
    let n: usize = tpl.len();
    let m: usize = vars.len();
    let ghost es = entries(vars@);
    let mut out: String = String::new();
    let mut i: usize = 0;
    assert(out@ + filled_from(tpl@, es, 0) =~= filled_from(tpl@, es, 0));
    while i < n
        invariant
            n == tpl@.len(),
            m == vars@.len(),
            es == entries(vars@),
            i <= n,
            out@ + filled_from(tpl@, es, i as int) == filled_from(tpl@, es, 0),
        decreases n - i,
    {
        let mut k: usize = 0;
        let mut hit: bool = false;
        let mut len: usize = 0;
        while k < m && !hit
            invariant
                n == tpl@.len(),
                m == vars@.len(),
                es == entries(vars@),
                i < n,
                k <= m,
                hit ==> k < m && slot_at(tpl@, es, i as int, 0) == Some(k as int) && len == slot(
                    es[k as int].0,
                ).len() && i + len <= n && len >= 4,
                !hit ==> slot_at(tpl@, es, i as int, 0) == slot_at(tpl@, es, i as int, k as int),
            decreases m - k, if hit { 0int } else { 1int },
        {
            let s: Vec<char> = slot_chars(vars[k].0);
            assert(es[k as int].0 == vars@[k as int].0@);
            if stands_here(tpl, &s, i) {
                len = s.len();
                hit = true;
            } else {
                k = k + 1;
            }
        }
        if hit {
            proof {
                let rest = filled_from(tpl@, es, i + len);
                let val = es[k as int].1;
                assert(val == vars@[k as int].1@);
                assert(out@ + (val + rest) =~= (out@ + val) + rest);
            }
            out.push_str(vars[k].1);
            i = i + len;
        } else {
            proof {
                let rest = filled_from(tpl@, es, i + 1);
                assert(out@ + (seq![tpl@[i as int]] + rest) =~= out@.push(tpl@[i as int]) + rest);
            }
            out.push(tpl[i]);
            i = i + 1;
        }
    }
    assert(out@ + filled_from(tpl@, es, n as int) =~= out@);
    out
}

fn drop_slots(v: &Vec<char>) -> (r: String)
    ensures
        r@ == without_slots_from(v@, 0),
{
    let n: usize = v.len();
    let mut open: Vec<char> = Vec::new();
    open.push('{');
    open.push('{');
    assert(open@ =~= slot_open());
    let mut close: Vec<char> = Vec::new();
    close.push('}');
    close.push('}');
    assert(close@ =~= slot_close());
    let mut out: String = String::new();
    let mut i: usize = 0;
    let mut more: bool = true;
    assert(out@ + without_slots_from(v@, 0) =~= without_slots_from(v@, 0));
    while more
        invariant
            n == v@.len(),
            open@ == slot_open(),
            close@ == slot_close(),
            i <= n,
            more ==> out@ + without_slots_from(v@, i as int) == without_slots_from(v@, 0),
            !more ==> out@ + v@.skip(i as int) == without_slots_from(v@, 0),
        decreases if more { 1int } else { 0int }, n - i,
    {
        proof {
            lemma_first_from(v@, slot_open(), i as int);
        }
        match find_from(v, &open, i) {
            None => {
                more = false;
            },
            Some(a) => {
                proof {
                    lemma_first_from(v@, slot_close(), a as int);
                }
                match find_from(v, &close, a) {
                    None => {
                        more = false;
                    },
                    Some(b) => {
                        let piece = text_between(v, i, a);
                        proof {
                            let rest = without_slots_from(v@, b + 2);
                            assert(out@ + (piece@ + rest) =~= (out@ + piece@) + rest);
                        }
                        out.push_str(piece.as_str());
                        i = b + 2;
                    },
                }
            },
        }
    }
    let tail = text_between(v, i, n);
    assert(v@.subrange(i as int, n as int) =~= v@.skip(i as int));
    out.push_str(tail.as_str());
    out
}

/// Fills a template: every `{{KEY}}` of `tpl` becomes its value, and the
/// placeholders that are left are dropped so that unused slots do not leak.
pub fn render(tpl: &str, vars: &[(&str, &str)]) -> (r: String)
    ensures
        r@ == rendered(tpl@, entries(vars@)),
{
    let t: Vec<char> = chars_of(tpl);
    let full = fill(&t, vars);
    let v: Vec<char> = chars_of(full.as_str());
    drop_slots(&v)
}

/// A template without placeholders is rendered as it is, whatever the values.
pub proof fn law_render_keeps_plain_text(tpl: Seq<char>, vars: Seq<(Seq<char>, Seq<char>)>)
    requires
        forall|i: int| !stands_at(tpl, slot_open(), i),
    ensures
        rendered(tpl, vars) == tpl,
{
    lemma_filled_plain(tpl, vars, 0);
    assert(tpl.skip(0) =~= tpl);
    lemma_first_from(tpl, slot_open(), 0);
}

proof fn lemma_filled_plain(tpl: Seq<char>, vars: Seq<(Seq<char>, Seq<char>)>, i: int)
    requires
        0 <= i <= tpl.len(),
        forall|j: int| !stands_at(tpl, slot_open(), j),
    ensures
        filled_from(tpl, vars, i) == tpl.skip(i),
    decreases tpl.len() - i,
{
    if i < tpl.len() {
        lemma_no_slot(tpl, vars, i, 0);
        lemma_filled_plain(tpl, vars, i + 1);
        assert(seq![tpl[i]] + tpl.skip(i + 1) =~= tpl.skip(i));
    } else {
        assert(tpl.skip(i) =~= Seq::<char>::empty());
    }
}

proof fn lemma_no_slot(tpl: Seq<char>, vars: Seq<(Seq<char>, Seq<char>)>, i: int, k: int)
    requires
        0 <= k <= vars.len(),
        !stands_at(tpl, slot_open(), i),
    ensures
        slot_at(tpl, vars, i, k) is None,
    decreases vars.len() - k,
{
    if k < vars.len() {
        let s = slot(vars[k].0);
        if stands_at(tpl, s, i) {
            assert(tpl.subrange(i, i + 2) =~= slot_open()) by {
                assert(tpl.subrange(i, i + s.len())[0] == s[0]);
                assert(tpl.subrange(i, i + s.len())[1] == s[1]);
            }
        }
        lemma_no_slot(tpl, vars, i, k + 1);
    }
}

proof fn lemma_slot_at_shift(
    p: Seq<char>,
    b: Seq<char>,
    vars: Seq<(Seq<char>, Seq<char>)>,
    i: int,
    k: int,
)
    requires
        0 <= i,
    ensures
        slot_at(p + b, vars, p.len() + i, k) == slot_at(b, vars, i, k),
    decreases vars.len() - k,
{
    if 0 <= k < vars.len() {
        let s = slot(vars[k].0);
        let w = p + b;
        let j = p.len() + i;
        if i + s.len() <= b.len() {
            assert(w.subrange(j, j + s.len()) =~= b.subrange(i, i + s.len()));
        }
        assert(stands_at(w, s, j) == stands_at(b, s, i));
        lemma_slot_at_shift(p, b, vars, i, k + 1);
    }
}

proof fn lemma_filled_shift(
    p: Seq<char>,
    b: Seq<char>,
    vars: Seq<(Seq<char>, Seq<char>)>,
    i: int,
)
    requires
        0 <= i <= b.len(),
    ensures
        filled_from(p + b, vars, p.len() + i) == filled_from(b, vars, i),
    decreases b.len() - i,
{
    if i < b.len() {
        lemma_slot_at_shift(p, b, vars, i, 0);
        lemma_slot_at(b, vars, i, 0);
        match slot_at(b, vars, i, 0) {
            Some(k) => {
                lemma_filled_shift(p, b, vars, i + slot(vars[k].0).len());
            },
            None => {
                lemma_filled_shift(p, b, vars, i + 1);
            },
        }
    }
}

proof fn lemma_filled_up_to(
    tpl: Seq<char>,
    vars: Seq<(Seq<char>, Seq<char>)>,
    i: int,
    k: int,
)
    requires
        0 <= i <= k <= tpl.len(),
        forall|j: int| i <= j < k ==> !#[trigger] stands_at(tpl, slot_open(), j),
    ensures
        filled_from(tpl, vars, i) == tpl.subrange(i, k) + filled_from(tpl, vars, k),
    decreases k - i,
{
    if i < k {
        assert(!stands_at(tpl, slot_open(), i));
        lemma_no_slot(tpl, vars, i, 0);
        lemma_filled_up_to(tpl, vars, i + 1, k);
        assert(seq![tpl[i]] + (tpl.subrange(i + 1, k) + filled_from(tpl, vars, k))
            =~= tpl.subrange(i, k) + filled_from(tpl, vars, k));
    } else {
        assert(tpl.subrange(i, k) + filled_from(tpl, vars, k) =~= filled_from(tpl, vars, k));
    }
}

/// Two keys without braces whose placeholders stand at one place are one.
proof fn lemma_same_slot(tpl: Seq<char>, i: int, a: Seq<char>, b: Seq<char>)
    requires
        stands_at(tpl, slot(a), i),
        stands_at(tpl, slot(b), i),
        !a.contains('}'),
        !b.contains('}'),
    ensures
        a == b,
{
    let x = slot(a);
    let y = slot(b);
    assert forall|j: int| 0 <= j < x.len() implies x[j] == tpl[i + j] by {
        assert(tpl.subrange(i, i + x.len())[j] == x[j]);
    }
    assert forall|j: int| 0 <= j < y.len() implies y[j] == tpl[i + j] by {
        assert(tpl.subrange(i, i + y.len())[j] == y[j]);
    }
    if a.len() < b.len() {
        assert(x[2 + a.len() as int] == '}');
        assert(y[2 + a.len() as int] == b[a.len() as int]);
        assert(b.contains(b[a.len() as int]));
    }
    if b.len() < a.len() {
        assert(y[2 + b.len() as int] == '}');
        assert(x[2 + b.len() as int] == a[b.len() as int]);
        assert(a.contains(a[b.len() as int]));
    }
    assert(a =~= b) by {
        assert forall|j: int| 0 <= j < a.len() implies a[j] == b[j] by {
            assert(x[2 + j] == a[j]);
            assert(y[2 + j] == b[j]);
        }
    }
}

proof fn lemma_slot_found(
    tpl: Seq<char>,
    vars: Seq<(Seq<char>, Seq<char>)>,
    i: int,
    from: int,
    k: int,
)
    requires
        0 <= from <= k < vars.len(),
        stands_at(tpl, slot(vars[k].0), i),
        forall|j: int| 0 <= j < vars.len() ==> !(#[trigger] vars[j]).0.contains('}'),
        forall|j: int| 0 <= j < k ==> (#[trigger] vars[j]).0 != vars[k].0,
    ensures
        slot_at(tpl, vars, i, from) == Some(k),
    decreases k - from,
{
    if from < k {
        if stands_at(tpl, slot(vars[from].0), i) {
            lemma_same_slot(tpl, i, vars[from].0, vars[k].0);
        }
        lemma_slot_found(tpl, vars, i, from + 1, k);
    }
}

/// A placeholder is filled with the value of its key, and what stands before and behind it is
/// kept.
pub proof fn law_placeholders_are_filled(
    a: Seq<char>,
    b: Seq<char>,
    vars: Seq<(Seq<char>, Seq<char>)>,
    k: int,
)
    requires
        0 <= k < vars.len(),
        forall|j: int| 0 <= j < vars.len() ==> !(#[trigger] vars[j]).0.contains('}'),
        forall|j: int| 0 <= j < k ==> (#[trigger] vars[j]).0 != vars[k].0,
        !a.contains('{'),
        !b.contains('{'),
        !vars[k].1.contains('{'),
    ensures
        rendered(a + seq!['{', '{'] + vars[k].0 + seq!['}', '}'] + b, vars) == a + vars[k].1 + b,
{
    let key = vars[k].0;
    let tpl = a + seq!['{', '{'] + key + seq!['}', '}'] + b;
    let n = a.len() as int;
    let p = a + slot(key);
    assert(tpl =~= p + b);
    assert forall|j: int| 0 <= j < n implies !#[trigger] stands_at(tpl, slot_open(), j) by {
        if stands_at(tpl, slot_open(), j) {
            assert(tpl.subrange(j, j + 2)[0] == tpl[j]);
            assert(tpl[j] == a[j]);
            assert(a.contains(a[j]));
        }
    }
    lemma_filled_up_to(tpl, vars, 0, n);
    assert(tpl.subrange(0, n) =~= a);
    assert(tpl.subrange(n, n + slot(key).len()) =~= slot(key));
    lemma_slot_found(tpl, vars, n, 0, k);
    lemma_filled_shift(p, b, vars, 0);
    assert forall|j: int| !stands_at(b, slot_open(), j) by {
        if stands_at(b, slot_open(), j) {
            assert(b.subrange(j, j + 2)[0] == b[j]);
            assert(b.contains(b[j]));
        }
    }
    lemma_filled_plain(b, vars, 0);
    assert(b.skip(0) =~= b);
    let v = vars[k].1;
    let out = a + v + b;
    assert(filled_from(tpl, vars, n) == v + filled_from(tpl, vars, n + slot(key).len()));
    assert(filled_from(tpl, vars, 0) =~= out);
    assert forall|j: int| !stands_at(out, slot_open(), j) by {
        if stands_at(out, slot_open(), j) {
            assert(out.subrange(j, j + 2)[0] == out[j]);
            if j < n {
                assert(a.contains(a[j]));
            } else if j < n + v.len() {
                assert(v.contains(v[j - n]));
            } else {
                assert(b.contains(b[j - n - v.len()]));
            }
        }
    }
    lemma_first_from(out, slot_open(), 0);
    assert(out.skip(0) =~= out);
}

/// A placeholder without a value is dropped.
pub proof fn law_other_placeholders_are_dropped(a: Seq<char>, key: Seq<char>, b: Seq<char>)
    requires
        !a.contains('{'),
        !key.contains('{'),
        !key.contains('}'),
        !b.contains('{'),
    ensures
        rendered(a + seq!['{', '{'] + key + seq!['}', '}'] + b, Seq::empty()) == a + b,
{
    let none = Seq::<(Seq<char>, Seq<char>)>::empty();
    let s = a + seq!['{', '{'] + key + seq!['}', '}'] + b;
    let n = a.len() as int;
    let e = n + 2 + key.len();
    lemma_nothing_filled(s, 0);
    assert(s.skip(0) =~= s);
    assert(s.subrange(n, n + 2) =~= slot_open());
    assert(stands_at(s, slot_open(), n));
    lemma_first_from(s, slot_open(), 0);
    let x = first_from(s, slot_open(), 0)->0;
    if x < n {
        assert(s.subrange(x, x + 2)[0] == s[x]);
        assert(s[x] == a[x]);
        assert(a.contains(a[x]));
    }
    assert(x == n);
    assert(s.subrange(e, e + 2) =~= slot_close());
    assert(stands_at(s, slot_close(), e));
    lemma_first_from(s, slot_close(), n);
    let y = first_from(s, slot_close(), n)->0;
    if y < e {
        assert(s.subrange(y, y + 2)[0] == s[y]);
        if y < n + 2 {
            assert(s[y] == '{');
        } else {
            assert(s[y] == key[y - n - 2]);
            assert(key.contains(key[y - n - 2]));
        }
    }
    assert(y == e);
    lemma_first_from(s, slot_open(), e + 2);
    if let Some(z) = first_from(s, slot_open(), e + 2) {
        assert(s.subrange(z, z + 2)[0] == s[z]);
        assert(s[z] == b[z - e - 2]);
        assert(b.contains(b[z - e - 2]));
    }
    assert(without_slots_from(s, e + 2) == s.skip(e + 2));
    assert(s.subrange(0, n) + s.skip(e + 2) =~= a + b);
}

proof fn lemma_nothing_filled(tpl: Seq<char>, i: int)
    requires
        0 <= i <= tpl.len(),
    ensures
        filled_from(tpl, Seq::empty(), i) == tpl.skip(i),
    decreases tpl.len() - i,
{
    if i < tpl.len() {
        lemma_nothing_filled(tpl, i + 1);
        assert(seq![tpl[i]] + tpl.skip(i + 1) =~= tpl.skip(i));
    } else {
        assert(tpl.skip(i) =~= Seq::<char>::empty());
    }
}

} // verus!
