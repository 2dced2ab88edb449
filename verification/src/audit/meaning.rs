//! What a filter of the log selects.
use vstd::prelude::*;

verus! {

use crate::audit::{
    bindings,
    conditions,
    filled,
    hidden_actions,
    hidden_filter,
    hidden_list,
    like_escaped,
    search_pattern,
    sql_literal,
    sql_literals,
    where_clause,
    AuditFilter,
    AuditRow,
    BindView,
    SEARCH_CONDITION,
    VERB_CONDITION,
};
use crate::find::{
    first_from,
    lemma_first_from,
    lemma_replaced_absent,
    replaced,
    replaced_from,
    stands_at,
};
use crate::sql::{
    expr_marks,
    expr_text,
    folded,
    folded_char,
    lemma_like_anywhere,
    like,
    rtrimmed,
    selects,
    test_marks,
    test_text,
    value,
    Expr,
    Test,
    Datum,
};
use crate::text::opt_view;
use crate::trim::{joined, trimmed};

/// A text column that may be `NULL`.
pub open spec fn text_value(s: Option<Seq<char>>) -> Datum {
    match s {
        Some(t) => Datum::Text(t),
        None => Datum::Null,
    }
}

/// The columns of an entry, by name.
pub open spec fn columns(e: AuditRow) -> spec_fn(Seq<char>) -> Datum {
    |name: Seq<char>|
        if name == "id"@ {
            Datum::Int(e.id as int)
        } else if name == "at"@ {
            Datum::Int(e.at as int)
        } else if name == "actor_id"@ {
            text_value(opt_view(e.actor_id))
        } else if name == "actor_email"@ {
            Datum::Text(e.actor_email@)
        } else if name == "action"@ {
            Datum::Text(e.action@)
        } else if name == "target_kind"@ {
            text_value(opt_view(e.target_kind))
        } else if name == "target_id"@ {
            text_value(opt_view(e.target_id))
        } else if name == "details"@ {
            text_value(opt_view(e.details))
        } else {
            Datum::Null
        }
}

/// What bound values are to the database.
pub open spec fn bound(l: Seq<BindView>) -> Seq<Datum> {
    Seq::new(
        l.len(),
        |i: int|
            match l[i] {
                BindView::Text(s) => Datum::Text(s),
                BindView::Int(n) => Datum::Int(n as int),
            },
    )
}

/// Whether `q` stands in `s`, but for the case of ASCII letters.
pub open spec fn holds_folded(s: Seq<char>, q: Seq<char>) -> bool {
    exists|k: int|
        0 <= k && k + q.len() <= s.len() && #[trigger] folded(s.subrange(k, k + q.len())) == folded(q)
}

/// Whether the last segment of an action code that has a dot is `verb`, but for the case of
/// ASCII letters.
pub open spec fn ends_in_verb(action: Seq<char>, verb: Seq<char>) -> bool {
    exists|i: int|
        0 <= i < action.len() && #[trigger] action[i] == '.' && !action.skip(i + 1).contains('.')
            && folded(action.skip(i + 1)) == folded(verb)
}

/// What a part of a filter asks for: its text without outer blanks, and nothing where that
/// is empty.
pub open spec fn wanted(s: Option<Seq<char>>) -> Option<Seq<char>> {
    match s {
        Some(t) if trimmed(t).len() > 0 => Some(trimmed(t)),
        _ => None,
    }
}

/// Whether an entry is one that a filter asks for. Reorderings are never shown. A searched
/// text stands in the email of the actor, the action, the target or the details; the verb is
/// the last segment of the action; the actor is the one given; and the entry is not older
/// than asked for. Parts that are absent or blank ask for nothing.
pub open spec fn asked_for(f: AuditFilter, e: AuditRow) -> bool {
    &&& e.action@ != "library.folder.reorder"@
    &&& wanted(opt_view(f.q)) matches Some(q) ==> {
        ||| holds_folded(e.actor_email@, q)
        ||| holds_folded(e.action@, q)
        ||| e.target_id matches Some(t) && holds_folded(t@, q)
        ||| e.details matches Some(d) && holds_folded(d@, q)
    }
    &&& wanted(opt_view(f.action_verb)) matches Some(v) ==> ends_in_verb(e.action@, v)
    &&& wanted(opt_view(f.actor_id)) matches Some(a) ==> opt_view(e.actor_id) == Some(a)
    &&& f.since_ts matches Some(ts) ==> e.at >= ts
}

/// Whether a clause with these values is a condition.
pub open spec fn is_clause(sql: Seq<char>, binds: Seq<BindView>, t: Test) -> bool {
    &&& sql == " WHERE "@ + test_text(t)
    &&& test_marks(t) == bound(binds)
}

spec fn column(name: Seq<char>) -> Expr {
    Expr::Column(name)
}

spec fn mark(s: Seq<char>) -> Expr {
    Expr::Mark(Datum::Text(s))
}

spec fn hidden_test() -> Test {
    Test::NotIn(column("action"@), "library.folder.reorder"@)
}

spec fn or_empty(name: Seq<char>) -> Expr {
    Expr::IfNull(Box::new(column(name)), Box::new(Expr::Quoted(""@)))
}

spec fn search_test(q: Seq<char>) -> Test {
    let p = mark(search_pattern(q));
    Test::Group(
        Box::new(
            Test::Or(
                Box::new(
                    Test::Or(
                        Box::new(
                            Test::Or(
                                Box::new(Test::Like(column("actor_email"@), p)),
                                Box::new(Test::Like(column("action"@), p)),
                            ),
                        ),
                        Box::new(Test::Like(or_empty("target_id"@), p)),
                    ),
                ),
                Box::new(Test::Like(or_empty("details"@), p)),
            ),
        ),
    )
}

spec fn verb_test(v: Seq<char>) -> Test {
    let a = column("action"@);
    let dot = Expr::Quoted("."@);
    let letters = Expr::Replace(Box::new(a), Box::new(dot), Box::new(Expr::Quoted(""@)));
    let head = Expr::Length(Box::new(Expr::RTrim(Box::new(a), Box::new(letters))));
    Test::And(
        Box::new(Test::Within(a, dot)),
        Box::new(
            Test::EqualNoCase(
                Expr::From(Box::new(a), Box::new(Expr::Next(Box::new(head)))),
                mark(v),
            ),
        ),
    )
}

spec fn and_if(t: Test, part: Option<Test>) -> Test {
    match part {
        Some(u) => Test::And(Box::new(t), Box::new(u)),
        None => t,
    }
}

spec fn filter_test(f: AuditFilter) -> Test {
    let t1 = and_if(
        hidden_test(),
        match filled(opt_view(f.q)) {
            Some(q) => Some(search_test(q)),
            None => None,
        },
    );
    let t2 = and_if(
        t1,
        match filled(opt_view(f.action_verb)) {
            Some(v) => Some(verb_test(v)),
            None => None,
        },
    );
    let t3 = and_if(
        t2,
        match filled(opt_view(f.actor_id)) {
            Some(a) => Some(Test::Equal(column("actor_id"@), mark(a))),
            None => None,
        },
    );
    and_if(
        t3,
        match f.since_ts {
            Some(ts) => Some(
                Test::AtLeast(column("at"@), Expr::Mark(Datum::Int(ts as int))),
            ),
            None => None,
        },
    )
}

proof fn lemma_escape_joins(a: Seq<char>, b: Seq<char>)
    ensures
        like_escaped(a + b) == like_escaped(a) + like_escaped(b),
    decreases b.len(),
{
    if b.len() == 0 {
        assert(a + b =~= a);
        assert(like_escaped(a) + like_escaped(b) =~= like_escaped(a));
    } else {
        lemma_escape_joins(a, b.drop_last());
        assert((a + b).drop_last() =~= a + b.drop_last());
        assert((a + b).last() == b.last());
        assert(like_escaped(a + b) =~= like_escaped(a) + like_escaped(b));
    }
}

proof fn lemma_escaped_front(q: Seq<char>)
    requires
        q.len() > 0,
    ensures
        like_escaped(q) == (if q[0] == '\\' || q[0] == '%' || q[0] == '_' {
            seq!['\\', q[0]]
        } else {
            seq![q[0]]
        }) + like_escaped(q.skip(1)),
{
    let h = seq![q[0]];
    lemma_escape_joins(h, q.skip(1));
    assert(h + q.skip(1) =~= q);
    assert(h.drop_last() =~= Seq::<char>::empty());
    assert(like_escaped(h.drop_last()) =~= Seq::<char>::empty());
    assert(like_escaped(h) =~= if q[0] == '\\' || q[0] == '%' || q[0] == '_' {
        seq!['\\', q[0]]
    } else {
        seq![q[0]]
    });
}

/// An escaped text at the front of a pattern matches that text and nothing else.
proof fn lemma_like_literal(q: Seq<char>, tail: Seq<char>, s: Seq<char>)
    ensures
        like(like_escaped(q) + tail, s) <==> q.len() <= s.len() && folded(
            s.take(q.len() as int),
        ) == folded(q) && like(tail, s.skip(q.len() as int)),
    decreases q.len(),
{
    let p = like_escaped(q) + tail;
    if q.len() == 0 {
        assert(p =~= tail);
        assert(s.skip(0) =~= s);
        assert(folded(s.take(0)) =~= folded(q));
    } else {
        lemma_escaped_front(q);
        let rest = q.skip(1);
        let n = q.len() as int;
        let w = like_escaped(rest) + tail;
        if q[0] == '\\' || q[0] == '%' || q[0] == '_' {
            assert(p[0] == '\\' && p[1] == q[0]);
            assert(p.skip(2) =~= w);
        } else {
            assert(p[0] == q[0]);
            assert(p.skip(1) =~= w);
        }
        if s.len() > 0 {
            let r = s.skip(1);
            lemma_like_literal(rest, tail, r);
            if n <= s.len() {
                assert(r.skip(n - 1) =~= s.skip(n));
                let x = folded(s.take(n));
                let y = folded(q);
                let u = folded(r.take(n - 1));
                let v = folded(rest);
                assert(x =~= seq![folded_char(s[0])] + u);
                assert(y =~= seq![folded_char(q[0])] + v);
                if x == y {
                    assert(x[0] == y[0]);
                    assert(u =~= x.skip(1));
                    assert(v =~= y.skip(1));
                }
            }
        }
    }
}

proof fn lemma_search_pattern(q: Seq<char>, s: Seq<char>)
    ensures
        like(search_pattern(q), s) <==> holds_folded(s, q),
{
    let any = seq!['%'];
    let p = like_escaped(q) + any;
    assert(search_pattern(q) =~= any + p);
    lemma_like_anywhere(p, s);
    let n = q.len() as int;
    assert forall|k: int| 0 <= k <= s.len() implies #[trigger] like(p, s.skip(k)) == (k + n
        <= s.len() && folded(s.subrange(k, k + n)) == folded(q)) by {
        let r = s.skip(k);
        lemma_like_literal(q, any, r);
        if k + n <= s.len() {
            assert(r.take(n) =~= s.subrange(k, k + n));
            let none = Seq::<char>::empty();
            assert(any + none =~= any);
            lemma_like_anywhere(none, r.skip(n));
            let t = r.skip(n);
            assert(t.skip(t.len() as int) =~= none);
            assert(like(none, t.skip(t.len() as int)));
        }
    }
    if holds_folded(s, q) {
        let k = choose|k: int|
            0 <= k && k + n <= s.len() && #[trigger] folded(s.subrange(k, k + n)) == folded(q);
        assert(like(p, s.skip(k)));
    }
    if like(search_pattern(q), s) {
        let k = choose|k: int| 0 <= k <= s.len() && #[trigger] like(p, s.skip(k));
        assert(folded(s.subrange(k, k + n)) == folded(q));
    }
}

/// Taking the dots out leaves exactly the other characters.
proof fn lemma_without_dots(a: Seq<char>, i: int, c: char)
    requires
        0 <= i <= a.len(),
    ensures
        replaced_from(a, seq!['.'], Seq::empty(), i).contains(c) <==> c != '.' && a.skip(
            i,
        ).contains(c),
    decreases a.len() - i,
{
    let dot = seq!['.'];
    let r = replaced_from(a, dot, Seq::empty(), i);
    let s = a.skip(i);
    if i < a.len() {
        lemma_without_dots(a, i + 1, c);
        let rest = replaced_from(a, dot, Seq::empty(), i + 1);
        let t = a.skip(i + 1);
        assert(s =~= seq![a[i]] + t);
        assert(stands_at(a, dot, i) == (a[i] == '.')) by {
            if a[i] == '.' {
                assert(a.subrange(i, i + 1) =~= dot);
            } else {
                assert(a.subrange(i, i + 1)[0] == a[i]);
            }
        }
        assert(s.contains(c) <==> a[i] == c || t.contains(c)) by {
            if t.contains(c) {
                let k = choose|k: int| 0 <= k < t.len() && t[k] == c;
                assert(s[k + 1] == c);
            }
            if a[i] == c {
                assert(s[0] == c);
            }
            if s.contains(c) && a[i] != c {
                let k = choose|k: int| 0 <= k < s.len() && s[k] == c;
                assert(t[k - 1] == c);
            }
        }
        if a[i] == '.' {
            assert(r =~= rest);
        } else {
            assert(r =~= seq![a[i]] + rest);
            assert(r.contains(c) <==> a[i] == c || rest.contains(c)) by {
                if rest.contains(c) {
                    let k = choose|k: int| 0 <= k < rest.len() && rest[k] == c;
                    assert(r[k + 1] == c);
                }
                if a[i] == c {
                    assert(r[0] == c);
                }
                if r.contains(c) && a[i] != c {
                    let k = choose|k: int| 0 <= k < r.len() && r[k] == c;
                    assert(rest[k - 1] == c);
                }
            }
        }
    }
}

/// Trimming off everything but dots cuts behind the last dot.
proof fn lemma_cut_behind_dot(a: Seq<char>, set: Seq<char>, n: int)
    requires
        0 <= n <= a.len(),
        forall|k: int| 0 <= k < a.len() ==> set.contains(#[trigger] a[k]) == (a[k] != '.'),
        n == 0 || a[n - 1] == '.',
        forall|k: int| n <= k < a.len() ==> (#[trigger] a[k]) != '.',
    ensures
        rtrimmed(a, set).len() == n,
    decreases a.len(),
{
    if n < a.len() {
        let p = a.drop_last();
        assert(a.last() == a[a.len() - 1]);
        assert forall|k: int| 0 <= k < p.len() implies set.contains(#[trigger] p[k]) == (p[k]
            != '.') by {
            assert(p[k] == a[k]);
        }
        assert forall|k: int| n <= k < p.len() implies (#[trigger] p[k]) != '.' by {
            assert(p[k] == a[k]);
        }
        if n > 0 {
            assert(p[n - 1] == a[n - 1]);
        }
        lemma_cut_behind_dot(p, set, n);
    } else if n > 0 {
        assert(a.last() == '.');
    }
}

proof fn lemma_last_dot(a: Seq<char>) -> (n: int)
    ensures
        0 <= n <= a.len(),
        n == 0 || a[n - 1] == '.',
        forall|k: int| n <= k < a.len() ==> (#[trigger] a[k]) != '.',
    decreases a.len(),
{
    if a.len() == 0 {
        0
    } else if a.last() == '.' {
        a.len() as int
    } else {
        let p = a.drop_last();
        let n = lemma_last_dot(p);
        assert forall|k: int| n <= k < a.len() implies (#[trigger] a[k]) != '.' by {
            if k < p.len() {
                assert(p[k] == a[k]);
            }
        }
        if n > 0 {
            assert(p[n - 1] == a[n - 1]);
        }
        n
    }
}

proof fn lemma_columns(e: AuditRow)
    ensures
        columns(e)("at"@) == Datum::Int(e.at as int),
        columns(e)("actor_id"@) == text_value(opt_view(e.actor_id)),
        columns(e)("actor_email"@) == Datum::Text(e.actor_email@),
        columns(e)("action"@) == Datum::Text(e.action@),
        columns(e)("target_id"@) == text_value(opt_view(e.target_id)),
        columns(e)("details"@) == text_value(opt_view(e.details)),
{
    reveal_strlit("id");
    reveal_strlit("at");
    reveal_strlit("actor_id");
    reveal_strlit("actor_email");
    reveal_strlit("action");
    reveal_strlit("target_kind");
    reveal_strlit("target_id");
    reveal_strlit("details");
    assert("id"@[0] != "at"@[0]);
    assert("id"@.len() == 2 && "at"@.len() == 2 && "actor_id"@.len() == 8);
    assert("actor_email"@.len() == 11 && "action"@.len() == 6 && "target_kind"@.len() == 11);
    assert("target_id"@.len() == 9 && "details"@.len() == 7);
}

proof fn lemma_verb_selects(v: Seq<char>, e: AuditRow)
    ensures
        selects(verb_test(v), columns(e)) <==> ends_in_verb(e.action@, v),
{
    let a = e.action@;
    let row = columns(e);
    lemma_columns(e);
    reveal_strlit(".");
    reveal_strlit("");
    let dot = seq!['.'];
    let none = Seq::<char>::empty();
    assert("."@ =~= dot);
    assert(""@ =~= none);
    let n = lemma_last_dot(a);
    let letters = replaced(a, dot, none);
    assert forall|k: int| 0 <= k < a.len() implies letters.contains(#[trigger] a[k]) == (a[k]
        != '.') by {
        lemma_without_dots(a, 0, a[k]);
        assert(a.skip(0) =~= a);
        assert(a.contains(a[k]));
    }
    lemma_cut_behind_dot(a, letters, n);
    let c = column("action"@);
    let d = Expr::Quoted("."@);
    let l = Expr::Replace(Box::new(c), Box::new(d), Box::new(Expr::Quoted(""@)));
    let r = Expr::RTrim(Box::new(c), Box::new(l));
    let h = Expr::Length(Box::new(r));
    let x = Expr::Next(Box::new(h));
    assert(value(c, row) == Datum::Text(a));
    assert(value(d, row) == Datum::Text(dot));
    assert(value(Expr::Quoted(""@), row) == Datum::Text(none));
    assert(value(l, row) == Datum::Text(letters));
    assert(value(r, row) == Datum::Text(rtrimmed(a, letters)));
    assert(value(h, row) == Datum::Int(n));
    assert(value(x, row) == Datum::Int(n + 1));
    let y = Expr::From(Box::new(c), Box::new(x));
    assert(value(y, row) == Datum::Text(a.skip(n)));
    let w = Test::Within(c, d);
    let q = Test::EqualNoCase(y, mark(v));
    assert(selects(q, row) == (folded(a.skip(n)) == folded(v)));
    lemma_first_from(a, dot, 0);
    assert(selects(w, row) == (n > 0)) by {
        if n > 0 {
            assert(a.subrange(n - 1, n) =~= dot);
            assert(stands_at(a, dot, n - 1));
        } else if let Some(k) = first_from(a, dot, 0) {
            assert(a.subrange(k, k + 1)[0] == a[k]);
        }
    }
    assert(selects(verb_test(v), row) == (selects(w, row) && selects(q, row)));
    if n > 0 && folded(a.skip(n)) == folded(v) {
        assert(a[n - 1] == '.');
        assert(!a.skip(n).contains('.')) by {
            if a.skip(n).contains('.') {
                let k = choose|k: int| 0 <= k < a.skip(n).len() && a.skip(n)[k] == '.';
                assert(a[n + k] == '.');
            }
        }
    }
    if ends_in_verb(a, v) {
        let i = choose|i: int|
            0 <= i < a.len() && #[trigger] a[i] == '.' && !a.skip(i + 1).contains('.') && folded(
                a.skip(i + 1),
            ) == folded(v);
        if i + 1 < n {
            assert(a.skip(i + 1)[n - 1 - (i + 1)] == '.');
        }
        assert(i + 1 == n);
    }
}

proof fn lemma_search_selects(q: Seq<char>, e: AuditRow)
    requires
        q.len() > 0,
    ensures
        selects(search_test(q), columns(e)) <==> {
            ||| holds_folded(e.actor_email@, q)
            ||| holds_folded(e.action@, q)
            ||| e.target_id matches Some(t) && holds_folded(t@, q)
            ||| e.details matches Some(d) && holds_folded(d@, q)
        },
{
    let row = columns(e);
    lemma_columns(e);
    reveal_strlit("");
    let none = Seq::<char>::empty();
    assert(""@ =~= none);
    let p = search_pattern(q);
    lemma_search_pattern(q, e.actor_email@);
    lemma_search_pattern(q, e.action@);
    lemma_search_pattern(q, none);
    if let Some(t) = e.target_id {
        lemma_search_pattern(q, t@);
    }
    if let Some(d) = e.details {
        lemma_search_pattern(q, d@);
    }
    let m = mark(p);
    let c1 = column("actor_email"@);
    let c2 = column("action"@);
    let c3 = or_empty("target_id"@);
    let c4 = or_empty("details"@);
    assert(value(m, row) == Datum::Text(p));
    assert(value(column("target_id"@), row) == text_value(opt_view(e.target_id)));
    assert(value(column("details"@), row) == text_value(opt_view(e.details)));
    assert(value(Expr::Quoted(""@), row) == Datum::Text(none));
    assert(value(c3, row) == (match e.target_id {
        Some(t) => Datum::Text(t@),
        None => Datum::Text(none),
    }));
    assert(value(c4, row) == (match e.details {
        Some(t) => Datum::Text(t@),
        None => Datum::Text(none),
    }));
    let t1 = Test::Like(c1, m);
    let t2 = Test::Like(c2, m);
    let t3 = Test::Like(c3, m);
    let t4 = Test::Like(c4, m);
    let o1 = Test::Or(Box::new(t1), Box::new(t2));
    let o2 = Test::Or(Box::new(o1), Box::new(t3));
    let o3 = Test::Or(Box::new(o2), Box::new(t4));
    assert(selects(o1, row) == (selects(t1, row) || selects(t2, row)));
    assert(selects(o2, row) == (selects(o1, row) || selects(t3, row)));
    assert(selects(o3, row) == (selects(o2, row) || selects(t4, row)));
    assert(search_test(q) == Test::Group(Box::new(o3)));
}

proof fn lemma_search_text(q: Seq<char>)
    ensures
        test_text(search_test(q)) == SEARCH_CONDITION@,
        test_marks(search_test(q)) == seq![
            Datum::Text(search_pattern(q)),
            Datum::Text(search_pattern(q)),
            Datum::Text(search_pattern(q)),
            Datum::Text(search_pattern(q)),
        ],
{
    let m = mark(search_pattern(q));
    let c1 = column("actor_email"@);
    let c2 = column("action"@);
    let c3 = or_empty("target_id"@);
    let c4 = or_empty("details"@);
    let t1 = Test::Like(c1, m);
    let t2 = Test::Like(c2, m);
    let t3 = Test::Like(c3, m);
    let t4 = Test::Like(c4, m);
    let o1 = Test::Or(Box::new(t1), Box::new(t2));
    let o2 = Test::Or(Box::new(o1), Box::new(t3));
    let o3 = Test::Or(Box::new(o2), Box::new(t4));
    assert(search_test(q) == Test::Group(Box::new(o3)));
    let none = Expr::Quoted(""@);
    assert(expr_text(c1) == "actor_email"@);
    assert(expr_text(c2) == "action"@);
    assert(expr_text(m) == "?"@);
    assert(expr_text(none) == "'"@ + ""@ + "'"@);
    let d3 = column("target_id"@);
    let d4 = column("details"@);
    assert(expr_text(d3) == "target_id"@);
    assert(expr_text(d4) == "details"@);
    assert(expr_text(c3) == "IFNULL("@ + "target_id"@ + ", "@ + expr_text(none) + ")"@);
    assert(expr_text(c4) == "IFNULL("@ + "details"@ + ", "@ + expr_text(none) + ")"@);
    assert(test_text(o1) == test_text(t1) + " OR "@ + test_text(t2));
    assert(test_text(o2) == test_text(o1) + " OR "@ + test_text(t3));
    assert(test_text(o3) == test_text(o2) + " OR "@ + test_text(t4));
    reveal_strlit("actor_email");
    reveal_strlit("action");
    reveal_strlit("target_id");
    reveal_strlit("details");
    reveal_strlit("?");
    reveal_strlit("'");
    reveal_strlit("");
    reveal_strlit("IFNULL(");
    reveal_strlit(", ");
    reveal_strlit(")");
    reveal_strlit("(");
    reveal_strlit(" OR ");
    reveal_strlit(" LIKE ");
    reveal_strlit(" ESCAPE '\\'");
    reveal_strlit(
        "(actor_email LIKE ? ESCAPE '\\' OR action LIKE ? ESCAPE '\\' \
              OR IFNULL(target_id, '') LIKE ? ESCAPE '\\' \
              OR IFNULL(details, '') LIKE ? ESCAPE '\\')",
    );
    assert(test_text(search_test(q)) =~= SEARCH_CONDITION@);
    let v = Datum::Text(search_pattern(q));
    assert(expr_marks(c1) =~= Seq::<Datum>::empty());
    assert(expr_marks(c2) =~= Seq::<Datum>::empty());
    assert(expr_marks(d3) =~= Seq::<Datum>::empty());
    assert(expr_marks(d4) =~= Seq::<Datum>::empty());
    assert(expr_marks(none) =~= Seq::<Datum>::empty());
    assert(expr_marks(c3) =~= Seq::<Datum>::empty());
    assert(expr_marks(c4) =~= Seq::<Datum>::empty());
    assert(expr_marks(m) =~= seq![v]);
    assert(test_marks(t1) =~= seq![v]);
    assert(test_marks(t2) =~= seq![v]);
    assert(test_marks(t3) =~= seq![v]);
    assert(test_marks(t4) =~= seq![v]);
    assert(test_marks(o1) =~= seq![v, v]);
    assert(test_marks(o2) =~= seq![v, v, v]);
    assert(test_marks(o3) =~= seq![v, v, v, v]);
}

proof fn lemma_verb_text(v: Seq<char>)
    ensures
        test_text(verb_test(v)) == VERB_CONDITION@,
        test_marks(verb_test(v)) == seq![Datum::Text(v)],
{
    let c = column("action"@);
    let d = Expr::Quoted("."@);
    let z = Expr::Quoted(""@);
    let l = Expr::Replace(Box::new(c), Box::new(d), Box::new(z));
    let r = Expr::RTrim(Box::new(c), Box::new(l));
    let h = Expr::Length(Box::new(r));
    let x = Expr::Next(Box::new(h));
    let y = Expr::From(Box::new(c), Box::new(x));
    let m = mark(v);
    let w = Test::Within(c, d);
    let q = Test::EqualNoCase(y, m);
    assert(verb_test(v) == Test::And(Box::new(w), Box::new(q)));
    assert(expr_text(c) == "action"@);
    assert(expr_text(d) == "'"@ + "."@ + "'"@);
    assert(expr_text(z) == "'"@ + ""@ + "'"@);
    assert(expr_text(l) == "REPLACE("@ + expr_text(c) + ", "@ + expr_text(d) + ", "@ + expr_text(z)
        + ")"@);
    assert(expr_text(r) == "RTRIM("@ + expr_text(c) + ", "@ + expr_text(l) + ")"@);
    assert(expr_text(h) == "LENGTH("@ + expr_text(r) + ")"@);
    assert(expr_text(x) == expr_text(h) + " + 1"@);
    assert(expr_text(y) == "SUBSTR("@ + expr_text(c) + ", "@ + expr_text(x) + ")"@);
    assert(expr_text(m) == "?"@);
    assert(test_text(w) == "INSTR("@ + expr_text(c) + ", "@ + expr_text(d) + ") > 0"@);
    assert(test_text(q) == expr_text(y) + " = "@ + expr_text(m) + " COLLATE NOCASE"@);
    reveal_strlit("action");
    reveal_strlit("'");
    reveal_strlit(".");
    reveal_strlit("");
    reveal_strlit("REPLACE(");
    reveal_strlit("RTRIM(");
    reveal_strlit("LENGTH(");
    reveal_strlit("SUBSTR(");
    reveal_strlit("INSTR(");
    reveal_strlit(", ");
    reveal_strlit(")");
    reveal_strlit(") > 0");
    reveal_strlit(" + 1");
    reveal_strlit(" = ");
    reveal_strlit("?");
    reveal_strlit(" COLLATE NOCASE");
    reveal_strlit(" AND ");
    reveal_strlit(
        "INSTR(action, '.') > 0 AND SUBSTR(action, LENGTH(RTRIM(action, REPLACE(action, '.', ''))) + 1) \
              = ? COLLATE NOCASE",
    );
    assert(test_text(verb_test(v)) =~= VERB_CONDITION@);
    let none = Seq::<Datum>::empty();
    assert(expr_marks(c) =~= none);
    assert(expr_marks(d) =~= none);
    assert(expr_marks(z) =~= none);
    assert(expr_marks(l) =~= none);
    assert(expr_marks(r) =~= none);
    assert(expr_marks(h) =~= none);
    assert(expr_marks(x) =~= none);
    assert(expr_marks(y) =~= none);
    assert(test_marks(w) =~= none);
    assert(test_marks(q) =~= seq![Datum::Text(v)]);
}

proof fn lemma_hidden_text()
    ensures
        hidden_list().len() > 0,
        test_text(hidden_test()) == "action NOT IN ("@ + hidden_list() + ")"@,
        test_marks(hidden_test()) == Seq::<Datum>::empty(),
{
    reveal_strlit("library.folder.reorder");
    let name = "library.folder.reorder"@;
    let quote = seq!['\''];
    assert forall|j: int| 0 <= j < name.len() implies !stands_at(name, quote, j) by {
        if stands_at(name, quote, j) {
            assert(name.subrange(j, j + 1)[0] == name[j]);
        }
    }
    lemma_replaced_absent(name, quote, seq!['\'', '\''], 0);
    assert(name.skip(0) =~= name);
    let lit = sql_literal(name);
    let all = sql_literals(hidden_actions());
    assert(all =~= seq![lit]);
    assert(hidden_list() == lit);
    assert(lit =~= quote + name + quote);
    let c = column("action"@);
    assert(expr_text(c) == "action"@);
    assert(expr_marks(c) =~= Seq::<Datum>::empty());
    reveal_strlit("action");
    reveal_strlit(" NOT IN (");
    reveal_strlit("'");
    reveal_strlit(")");
    reveal_strlit("action NOT IN (");
    assert(test_text(hidden_test()) == expr_text(c) + " NOT IN ("@ + "'"@ + name + "'"@ + ")"@);
    assert(test_text(hidden_test()) =~= "action NOT IN ("@ + hidden_list() + ")"@);
}

proof fn lemma_actor_text(a: Seq<char>)
    ensures
        test_text(Test::Equal(column("actor_id"@), mark(a))) == "actor_id = ?"@,
        test_marks(Test::Equal(column("actor_id"@), mark(a))) == seq![Datum::Text(a)],
{
    let c = column("actor_id"@);
    let m = mark(a);
    assert(expr_text(c) == "actor_id"@);
    assert(expr_text(m) == "?"@);
    assert(expr_marks(c) =~= Seq::<Datum>::empty());
    assert(expr_marks(m) =~= seq![Datum::Text(a)]);
    reveal_strlit("actor_id");
    reveal_strlit(" = ");
    reveal_strlit("?");
    reveal_strlit("actor_id = ?");
    assert("actor_id"@ + " = "@ + "?"@ =~= "actor_id = ?"@);
}

proof fn lemma_since_text(ts: int)
    ensures
        test_text(Test::AtLeast(column("at"@), Expr::Mark(Datum::Int(ts)))) == "at >= ?"@,
        test_marks(Test::AtLeast(column("at"@), Expr::Mark(Datum::Int(ts)))) == seq![
            Datum::Int(ts),
        ],
{
    let c = column("at"@);
    let m = Expr::Mark(Datum::Int(ts));
    assert(expr_text(c) == "at"@);
    assert(expr_text(m) == "?"@);
    assert(expr_marks(c) =~= Seq::<Datum>::empty());
    assert(expr_marks(m) =~= seq![Datum::Int(ts)]);
    reveal_strlit("at");
    reveal_strlit(" >= ");
    reveal_strlit("?");
    reveal_strlit("at >= ?");
    assert("at"@ + " >= "@ + "?"@ =~= "at >= ?"@);
}

/// The next condition of a clause, with its values.
proof fn lemma_next_part(
    t: Test,
    parts: Seq<Seq<char>>,
    binds: Seq<BindView>,
    u: Test,
    part: Seq<char>,
    more: Seq<BindView>,
)
    requires
        parts.len() > 0,
        test_text(t) == joined(parts, " AND "@),
        test_marks(t) == bound(binds),
        test_text(u) == part,
        test_marks(u) == bound(more),
    ensures
        test_text(Test::And(Box::new(t), Box::new(u))) == joined(parts + seq![part], " AND "@),
        test_marks(Test::And(Box::new(t), Box::new(u))) == bound(binds + more),
{
    let all = parts + seq![part];
    assert(all.drop_last() =~= parts);
    assert(all.last() == part);
    assert(bound(binds) + bound(more) =~= bound(binds + more));
}

proof fn lemma_filter_text(f: AuditFilter)
    ensures
        is_clause(where_clause(f), bindings(f), filter_test(f)),
{
    let none = Seq::<Seq<char>>::empty();
    let nothing = Seq::<BindView>::empty();
    let q = filled(opt_view(f.q));
    let verb = filled(opt_view(f.action_verb));
    let actor = filled(opt_view(f.actor_id));
    let since = f.since_ts;
    lemma_hidden_text();
    let c1 = seq!["action NOT IN ("@ + hidden_list() + ")"@];
    let t1 = hidden_test();
    assert(bound(nothing) =~= Seq::<Datum>::empty());
    let (c2, b2, t2) = match q {
        Some(s) => {
            let p = BindView::Text(search_pattern(s));
            let b = seq![p, p, p, p];
            let v = Datum::Text(search_pattern(s));
            lemma_search_text(s);
            assert(bound(b) =~= seq![v, v, v, v]);
            lemma_next_part(t1, c1, nothing, search_test(s), SEARCH_CONDITION@, b);
            (c1 + seq![SEARCH_CONDITION@], nothing + b, and_if(t1, Some(search_test(s))))
        },
        None => (c1 + none, nothing + nothing, t1),
    };
    assert(c1 + none =~= c1);
    assert(nothing + nothing =~= nothing);
    let (c3, b3, t3) = match verb {
        Some(s) => {
            let b = seq![BindView::Text(s)];
            lemma_verb_text(s);
            assert(bound(b) =~= seq![Datum::Text(s)]);
            lemma_next_part(t2, c2, b2, verb_test(s), VERB_CONDITION@, b);
            (c2 + seq![VERB_CONDITION@], b2 + b, and_if(t2, Some(verb_test(s))))
        },
        None => (c2 + none, b2 + nothing, t2),
    };
    assert(c2 + none =~= c2);
    assert(b2 + nothing =~= b2);
    let (c4, b4, t4) = match actor {
        Some(s) => {
            let b = seq![BindView::Text(s)];
            let u = Test::Equal(column("actor_id"@), mark(s));
            lemma_actor_text(s);
            assert(bound(b) =~= seq![Datum::Text(s)]);
            lemma_next_part(t3, c3, b3, u, "actor_id = ?"@, b);
            (c3 + seq!["actor_id = ?"@], b3 + b, and_if(t3, Some(u)))
        },
        None => (c3 + none, b3 + nothing, t3),
    };
    assert(c3 + none =~= c3);
    assert(b3 + nothing =~= b3);
    let (c5, b5, t5) = match since {
        Some(ts) => {
            let b = seq![BindView::Int(ts)];
            let u = Test::AtLeast(column("at"@), Expr::Mark(Datum::Int(ts as int)));
            lemma_since_text(ts as int);
            assert(bound(b) =~= seq![Datum::Int(ts as int)]);
            lemma_next_part(t4, c4, b4, u, "at >= ?"@, b);
            (c4 + seq!["at >= ?"@], b4 + b, and_if(t4, Some(u)))
        },
        None => (c4 + none, b4 + nothing, t4),
    };
    assert(c4 + none =~= c4);
    assert(b4 + nothing =~= b4);
    assert(t5 == filter_test(f));
    assert(c5 =~= conditions(q is Some, verb is Some, actor is Some, since is Some));
    assert(b5 =~= bindings(f));
}

/// A filter selects exactly the entries that it asks for: its clause, with its values, is a
/// condition that holds of an entry just where the entry is one of them.
pub proof fn law_filter_selects_what_it_asks_for(f: AuditFilter, e: AuditRow)
    ensures
        exists|t: Test| #[trigger]
            is_clause(where_clause(f), bindings(f), t) && (selects(t, columns(e)) <==> asked_for(f, e)),
{
    lemma_filter_text(f);
    lemma_columns(e);
    assert(forall|s: Option<Seq<char>>| #[trigger] wanted(s) == filled(s));
    let row = columns(e);
    if let Some(q) = filled(opt_view(f.q)) {
        lemma_search_selects(q, e);
    }
    if let Some(v) = filled(opt_view(f.action_verb)) {
        lemma_verb_selects(v, e);
    }
    if let Some(a) = filled(opt_view(f.actor_id)) {
        let c = column("actor_id"@);
        assert(value(c, row) == text_value(opt_view(e.actor_id)));
        assert(value(mark(a), row) == Datum::Text(a));
        assert(selects(Test::Equal(c, mark(a)), row) == (opt_view(e.actor_id) == Some(a)));
    }
    if let Some(ts) = f.since_ts {
        let c = column("at"@);
        let m = Expr::Mark(Datum::Int(ts as int));
        assert(value(c, row) == Datum::Int(e.at as int));
        assert(value(m, row) == Datum::Int(ts as int));
        assert(selects(Test::AtLeast(c, m), row) == (e.at >= ts));
    }
    assert(value(column("action"@), row) == Datum::Text(e.action@));
    lemma_chain(f, e);
    assert(is_clause(where_clause(f), bindings(f), filter_test(f)));
}

proof fn lemma_and_if(t: Test, part: Option<Test>, row: spec_fn(Seq<char>) -> Datum)
    ensures
        selects(and_if(t, part), row) == (selects(t, row) && (part matches Some(u) ==> selects(
            u,
            row,
        ))),
{
}

proof fn lemma_chain(f: AuditFilter, e: AuditRow)
    ensures
        selects(filter_test(f), columns(e)) <==> {
            &&& selects(hidden_test(), columns(e))
            &&& filled(opt_view(f.q)) matches Some(q) ==> selects(search_test(q), columns(e))
            &&& filled(opt_view(f.action_verb)) matches Some(v) ==> selects(
                verb_test(v),
                columns(e),
            )
            &&& filled(opt_view(f.actor_id)) matches Some(a) ==> selects(
                Test::Equal(column("actor_id"@), mark(a)),
                columns(e),
            )
            &&& f.since_ts matches Some(ts) ==> selects(
                Test::AtLeast(column("at"@), Expr::Mark(Datum::Int(ts as int))),
                columns(e),
            )
        },
{
    let row = columns(e);
    let p1 = match filled(opt_view(f.q)) {
        Some(q) => Some(search_test(q)),
        None => None,
    };
    let p2 = match filled(opt_view(f.action_verb)) {
        Some(v) => Some(verb_test(v)),
        None => None,
    };
    let p3 = match filled(opt_view(f.actor_id)) {
        Some(a) => Some(Test::Equal(column("actor_id"@), mark(a))),
        None => None,
    };
    let p4 = match f.since_ts {
        Some(ts) => Some(Test::AtLeast(column("at"@), Expr::Mark(Datum::Int(ts as int)))),
        None => None,
    };
    let t1 = and_if(hidden_test(), p1);
    let t2 = and_if(t1, p2);
    let t3 = and_if(t2, p3);
    lemma_and_if(hidden_test(), p1, row);
    lemma_and_if(t1, p2, row);
    lemma_and_if(t2, p3, row);
    lemma_and_if(t3, p4, row);
}

/// The condition that keeps actions out of a query selects every entry but the reorderings.
pub proof fn law_hidden_actions_are_kept_out(word: Seq<char>, e: AuditRow)
    ensures
        exists|t: Test|
            hidden_filter(word) == " "@ + word + " "@ + #[trigger] test_text(t) && (selects(
                t,
                columns(e),
            ) <==> e.action@ != "library.folder.reorder"@) && test_marks(t).len() == 0,
{
    let t = hidden_test();
    lemma_hidden_text();
    reveal_strlit(" action NOT IN (");
    reveal_strlit("action NOT IN (");
    reveal_strlit(" ");
    assert(" action NOT IN ("@ =~= " "@ + "action NOT IN ("@);
    let l = hidden_list();
    assert(" "@ + word + " action NOT IN ("@ + l + ")"@ =~= " "@ + word + " "@
        + ("action NOT IN ("@ + l + ")"@));
    assert(hidden_filter(word) == " "@ + word + " "@ + test_text(t));
    reveal_strlit("id");
    reveal_strlit("at");
    reveal_strlit("actor_id");
    reveal_strlit("actor_email");
    reveal_strlit("action");
    assert("action"@.len() == 6 && "id"@.len() == 2 && "at"@.len() == 2 && "actor_id"@.len() == 8
        && "actor_email"@.len() == 11);
    assert(columns(e)("action"@) == Datum::Text(e.action@));
}

} // verus!
