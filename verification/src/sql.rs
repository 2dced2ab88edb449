//! What the conditions of a query mean: a small part of SQL, as SQLite reads it.
use vstd::prelude::*;

verus! {

use crate::decimal::decimal;
use crate::find::{first_from, replaced};

/// A value in a row, or one that is bound to a placeholder.
#[verifier::ext_equal]
pub enum Datum {
    Null,
    Text(Seq<char>),
    Int(int),
}

/// An expression that has a value.
pub enum Expr {
    Column(Seq<char>),
    /// A placeholder with what is bound to it.
    Mark(Datum),
    Quoted(Seq<char>),
    IfNull(Box<Expr>, Box<Expr>),
    Length(Box<Expr>),
    /// The text from one place on; the places count from one.
    From(Box<Expr>, Box<Expr>),
    /// A text without the characters of another at its end.
    RTrim(Box<Expr>, Box<Expr>),
    Replace(Box<Expr>, Box<Expr>, Box<Expr>),
    /// The next number.
    Next(Box<Expr>),
    /// A placeholder with a number, with what is bound to it. The numbers count from one.
    Numbered(nat, Datum),
    /// A text with its ASCII letters in lower case.
    Lower(Box<Expr>),
}

/// A condition.
pub enum Test {
    Equal(Expr, Expr),
    /// Equal but for the case of ASCII letters.
    EqualNoCase(Expr, Expr),
    AtLeast(Expr, Expr),
    /// Whether a text stands in another.
    Within(Expr, Expr),
    NotIn(Expr, Seq<char>),
    /// A pattern in which a backslash takes the next character as it is.
    Like(Expr, Expr),
    And(Box<Test>, Box<Test>),
    Or(Box<Test>, Box<Test>),
    Group(Box<Test>),
    /// What holds of every row.
    Always,
    IsNull(Expr),
    /// A pattern in which no character is taken as it is.
    LikeBare(Expr, Expr),
}

/// An expression as it is written.
pub open spec fn expr_text(e: Expr) -> Seq<char>
    decreases e,
{
    match e {
        Expr::Column(name) => name,
        Expr::Mark(_) => "?"@,
        Expr::Quoted(s) => "'"@ + s + "'"@,
        Expr::IfNull(a, b) => "IFNULL("@ + expr_text(*a) + ", "@ + expr_text(*b) + ")"@,
        Expr::Length(a) => "LENGTH("@ + expr_text(*a) + ")"@,
        Expr::From(a, b) => "SUBSTR("@ + expr_text(*a) + ", "@ + expr_text(*b) + ")"@,
        Expr::RTrim(a, b) => "RTRIM("@ + expr_text(*a) + ", "@ + expr_text(*b) + ")"@,
        Expr::Replace(a, b, c) => "REPLACE("@ + expr_text(*a) + ", "@ + expr_text(*b) + ", "@
            + expr_text(*c) + ")"@,
        Expr::Next(a) => expr_text(*a) + " + 1"@,
        Expr::Numbered(n, _) => "?"@ + decimal(n),
        Expr::Lower(a) => "LOWER("@ + expr_text(*a) + ")"@,
    }
}

/// A condition as it is written.
pub open spec fn test_text(t: Test) -> Seq<char>
    decreases t,
{
    match t {
        Test::Equal(a, b) => expr_text(a) + " = "@ + expr_text(b),
        Test::EqualNoCase(a, b) => expr_text(a) + " = "@ + expr_text(b) + " COLLATE NOCASE"@,
        Test::AtLeast(a, b) => expr_text(a) + " >= "@ + expr_text(b),
        Test::Within(a, b) => "INSTR("@ + expr_text(a) + ", "@ + expr_text(b) + ") > 0"@,
        Test::NotIn(a, s) => expr_text(a) + " NOT IN ("@ + "'"@ + s + "'"@ + ")"@,
        Test::Like(a, b) => expr_text(a) + " LIKE "@ + expr_text(b) + " ESCAPE '\\'"@,
        Test::And(a, b) => test_text(*a) + " AND "@ + test_text(*b),
        Test::Or(a, b) => test_text(*a) + " OR "@ + test_text(*b),
        Test::Group(a) => "("@ + test_text(*a) + ")"@,
        Test::Always => "1=1"@,
        Test::IsNull(a) => expr_text(a) + " IS NULL"@,
        Test::LikeBare(a, b) => expr_text(a) + " LIKE "@ + expr_text(b),
    }
}

/// What is bound to the placeholders without a number of an expression, in the order in which
/// they stand.
pub open spec fn expr_marks(e: Expr) -> Seq<Datum>
    decreases e,
{
    match e {
        Expr::Column(_) => Seq::empty(),
        Expr::Mark(v) => seq![v],
        Expr::Quoted(_) => Seq::empty(),
        Expr::IfNull(a, b) => expr_marks(*a) + expr_marks(*b),
        Expr::Length(a) => expr_marks(*a),
        Expr::From(a, b) => expr_marks(*a) + expr_marks(*b),
        Expr::RTrim(a, b) => expr_marks(*a) + expr_marks(*b),
        Expr::Replace(a, b, c) => expr_marks(*a) + expr_marks(*b) + expr_marks(*c),
        Expr::Next(a) => expr_marks(*a),
        Expr::Numbered(..) => Seq::empty(),
        Expr::Lower(a) => expr_marks(*a),
    }
}

/// What is bound to the placeholders without a number of a condition, in the order in which
/// they stand.
pub open spec fn test_marks(t: Test) -> Seq<Datum>
    decreases t,
{
    match t {
        Test::Equal(a, b) => expr_marks(a) + expr_marks(b),
        Test::EqualNoCase(a, b) => expr_marks(a) + expr_marks(b),
        Test::AtLeast(a, b) => expr_marks(a) + expr_marks(b),
        Test::Within(a, b) => expr_marks(a) + expr_marks(b),
        Test::NotIn(a, _) => expr_marks(a),
        Test::Like(a, b) => expr_marks(a) + expr_marks(b),
        Test::And(a, b) => test_marks(*a) + test_marks(*b),
        Test::Or(a, b) => test_marks(*a) + test_marks(*b),
        Test::Group(a) => test_marks(*a),
        Test::Always => Seq::empty(),
        Test::IsNull(a) => expr_marks(a),
        Test::LikeBare(a, b) => expr_marks(a) + expr_marks(b),
    }
}

/// Whether the placeholders with a number of an expression stand for the values of a list.
pub open spec fn expr_takes(e: Expr, l: Seq<Datum>) -> bool
    decreases e,
{
    match e {
        Expr::Column(_) | Expr::Mark(_) | Expr::Quoted(_) => true,
        Expr::IfNull(a, b) => expr_takes(*a, l) && expr_takes(*b, l),
        Expr::Length(a) => expr_takes(*a, l),
        Expr::From(a, b) => expr_takes(*a, l) && expr_takes(*b, l),
        Expr::RTrim(a, b) => expr_takes(*a, l) && expr_takes(*b, l),
        Expr::Replace(a, b, c) => expr_takes(*a, l) && expr_takes(*b, l) && expr_takes(*c, l),
        Expr::Next(a) => expr_takes(*a, l),
        Expr::Numbered(n, v) => 1 <= n <= l.len() && l[n - 1] == v,
        Expr::Lower(a) => expr_takes(*a, l),
    }
}

/// Whether the placeholders with a number of a condition stand for the values of a list.
pub open spec fn test_takes(t: Test, l: Seq<Datum>) -> bool
    decreases t,
{
    match t {
        Test::Equal(a, b) => expr_takes(a, l) && expr_takes(b, l),
        Test::EqualNoCase(a, b) => expr_takes(a, l) && expr_takes(b, l),
        Test::AtLeast(a, b) => expr_takes(a, l) && expr_takes(b, l),
        Test::Within(a, b) => expr_takes(a, l) && expr_takes(b, l),
        Test::NotIn(a, _) => expr_takes(a, l),
        Test::Like(a, b) => expr_takes(a, l) && expr_takes(b, l),
        Test::And(a, b) => test_takes(*a, l) && test_takes(*b, l),
        Test::Or(a, b) => test_takes(*a, l) && test_takes(*b, l),
        Test::Group(a) => test_takes(*a, l),
        Test::Always => true,
        Test::IsNull(a) => expr_takes(a, l),
        Test::LikeBare(a, b) => expr_takes(a, l) && expr_takes(b, l),
    }
}

/// An ASCII letter in lower case; any other character as it is.
pub open spec fn folded_char(c: char) -> char {
    if 'A' <= c <= 'Z' {
        (c as u32 + 32) as char
    } else {
        c
    }
}

/// A text with its ASCII letters in lower case.
pub open spec fn folded(s: Seq<char>) -> Seq<char> {
    Seq::new(s.len(), |i: int| folded_char(s[i]))
}

/// Whether a pattern matches a text as a whole: `%` stands for any text, `_` for any
/// character, and a backslash for the character after it. The case of ASCII letters does not
/// count.
pub open spec fn like(p: Seq<char>, s: Seq<char>) -> bool
    decreases p.len() + s.len(),
{
    if p.len() == 0 {
        s.len() == 0
    } else if p[0] == '\\' {
        p.len() > 1 && s.len() > 0 && folded_char(p[1]) == folded_char(s[0]) && like(
            p.skip(2),
            s.skip(1),
        )
    } else if p[0] == '%' {
        like(p.skip(1), s) || (s.len() > 0 && like(p, s.skip(1)))
    } else if p[0] == '_' {
        s.len() > 0 && like(p.skip(1), s.skip(1))
    } else {
        s.len() > 0 && folded_char(p[0]) == folded_char(s[0]) && like(p.skip(1), s.skip(1))
    }
}

/// Whether a pattern matches a text as a whole: `%` stands for any text, and `_` for any
/// character. The case of ASCII letters does not count.
pub open spec fn like_bare(p: Seq<char>, s: Seq<char>) -> bool
    decreases p.len() + s.len(),
{
    if p.len() == 0 {
        s.len() == 0
    } else if p[0] == '%' {
        like_bare(p.skip(1), s) || (s.len() > 0 && like_bare(p, s.skip(1)))
    } else if p[0] == '_' {
        s.len() > 0 && like_bare(p.skip(1), s.skip(1))
    } else {
        s.len() > 0 && folded_char(p[0]) == folded_char(s[0]) && like_bare(p.skip(1), s.skip(1))
    }
}

/// A text without the characters of a set at its end.
pub open spec fn rtrimmed(s: Seq<char>, set: Seq<char>) -> Seq<char>
    decreases s.len(),
{
    if s.len() > 0 && set.contains(s.last()) {
        rtrimmed(s.drop_last(), set)
    } else {
        s
    }
}

/// The value of an expression in a row.
pub open spec fn value(e: Expr, row: spec_fn(Seq<char>) -> Datum) -> Datum
    decreases e,
{
    match e {
        Expr::Column(name) => row(name),
        Expr::Mark(v) => v,
        Expr::Quoted(s) => Datum::Text(s),
        Expr::IfNull(a, b) => if value(*a, row) is Null {
            value(*b, row)
        } else {
            value(*a, row)
        },
        Expr::Length(a) => match value(*a, row) {
            Datum::Text(s) => Datum::Int(s.len() as int),
            _ => Datum::Null,
        },
        Expr::From(a, b) => match (value(*a, row), value(*b, row)) {
            (Datum::Text(s), Datum::Int(n)) => if 1 <= n <= s.len() + 1 {
                Datum::Text(s.skip(n - 1))
            } else {
                Datum::Text(Seq::empty())
            },
            _ => Datum::Null,
        },
        Expr::RTrim(a, b) => match (value(*a, row), value(*b, row)) {
            (Datum::Text(s), Datum::Text(set)) => Datum::Text(rtrimmed(s, set)),
            _ => Datum::Null,
        },
        Expr::Replace(a, b, c) => match (value(*a, row), value(*b, row), value(*c, row)) {
            (Datum::Text(s), Datum::Text(from), Datum::Text(to)) => Datum::Text(
                replaced(s, from, to),
            ),
            _ => Datum::Null,
        },
        Expr::Next(a) => match value(*a, row) {
            Datum::Int(n) => Datum::Int(n + 1),
            _ => Datum::Null,
        },
        Expr::Numbered(_, v) => v,
        Expr::Lower(a) => match value(*a, row) {
            Datum::Text(s) => Datum::Text(folded(s)),
            _ => Datum::Null,
        },
    }
}

/// Whether a condition selects a row. A comparison with `NULL` selects nothing.
pub open spec fn selects(t: Test, row: spec_fn(Seq<char>) -> Datum) -> bool
    decreases t,
{
    match t {
        Test::Equal(a, b) => !(value(a, row) is Null) && value(a, row) == value(b, row),
        Test::EqualNoCase(a, b) => match (value(a, row), value(b, row)) {
            (Datum::Text(s), Datum::Text(u)) => folded(s) == folded(u),
            _ => false,
        },
        Test::AtLeast(a, b) => match (value(a, row), value(b, row)) {
            (Datum::Int(m), Datum::Int(n)) => m >= n,
            _ => false,
        },
        Test::Within(a, b) => match (value(a, row), value(b, row)) {
            (Datum::Text(s), Datum::Text(u)) => first_from(s, u, 0) is Some,
            _ => false,
        },
        Test::NotIn(a, s) => match value(a, row) {
            Datum::Text(u) => u != s,
            _ => false,
        },
        Test::Like(a, b) => match (value(a, row), value(b, row)) {
            (Datum::Text(s), Datum::Text(p)) => like(p, s),
            _ => false,
        },
        Test::And(a, b) => selects(*a, row) && selects(*b, row),
        Test::Or(a, b) => selects(*a, row) || selects(*b, row),
        Test::Group(a) => selects(*a, row),
        Test::Always => true,
        Test::IsNull(a) => value(a, row) is Null,
        Test::LikeBare(a, b) => match (value(a, row), value(b, row)) {
            (Datum::Text(s), Datum::Text(p)) => like_bare(p, s),
            _ => false,
        },
    }
}

/// `%` before a pattern lets the match start anywhere.
pub proof fn lemma_like_anywhere(p: Seq<char>, s: Seq<char>)
    ensures
        like(seq!['%'] + p, s) <==> exists|k: int| 0 <= k <= s.len() && #[trigger] like(p, s.skip(k)),
    decreases s.len(),
{
    let w = seq!['%'] + p;
    assert(w[0] == '%');
    assert(w.skip(1) =~= p);
    assert(s.skip(0) =~= s);
    assert(like(p, s) == like(p, s.skip(0)));
    if s.len() > 0 {
        let r = s.skip(1);
        lemma_like_anywhere(p, r);
        assert forall|k: int| 0 <= k <= r.len() implies #[trigger] r.skip(k) == s.skip(k + 1) by {
            assert(r.skip(k) =~= s.skip(k + 1));
        }
        if exists|k: int| 0 <= k <= s.len() && #[trigger] like(p, s.skip(k)) {
            let k = choose|k: int| 0 <= k <= s.len() && #[trigger] like(p, s.skip(k));
            if k > 0 {
                assert(r.skip(k - 1) == s.skip(k));
                assert(like(p, r.skip(k - 1)));
            }
        }
        if like(w, r) {
            let k = choose|k: int| 0 <= k <= r.len() && #[trigger] like(p, r.skip(k));
            assert(like(p, s.skip(k + 1)));
        }
    }
}

/// `%` before a pattern lets the match start anywhere.
pub proof fn lemma_bare_anywhere(p: Seq<char>, s: Seq<char>)
    ensures
        like_bare(seq!['%'] + p, s) <==> exists|k: int|
            0 <= k <= s.len() && #[trigger] like_bare(p, s.skip(k)),
    decreases s.len(),
{
    let w = seq!['%'] + p;
    assert(w[0] == '%');
    assert(w.skip(1) =~= p);
    assert(s.skip(0) =~= s);
    assert(like_bare(p, s) == like_bare(p, s.skip(0)));
    if s.len() > 0 {
        let r = s.skip(1);
        lemma_bare_anywhere(p, r);
        assert forall|k: int| 0 <= k <= r.len() implies #[trigger] r.skip(k) == s.skip(k + 1) by {
            assert(r.skip(k) =~= s.skip(k + 1));
        }
        if exists|k: int| 0 <= k <= s.len() && #[trigger] like_bare(p, s.skip(k)) {
            let k = choose|k: int| 0 <= k <= s.len() && #[trigger] like_bare(p, s.skip(k));
            if k > 0 {
                assert(r.skip(k - 1) == s.skip(k));
                assert(like_bare(p, r.skip(k - 1)));
            }
        }
        if like_bare(w, r) {
            let k = choose|k: int| 0 <= k <= r.len() && #[trigger] like_bare(p, r.skip(k));
            assert(like_bare(p, s.skip(k + 1)));
        }
    }
}

/// A text without signs of its own and `%` behind it match what begins with the text.
pub proof fn lemma_bare_start(p: Seq<char>, s: Seq<char>)
    requires
        !p.contains('%'),
        !p.contains('_'),
    ensures
        like_bare(p + seq!['%'], s) <==> s.len() >= p.len() && folded(s.take(p.len() as int))
            == folded(p),
    decreases p.len(),
{
    let w = p + seq!['%'];
    if p.len() == 0 {
        assert(w =~= seq!['%'] + p);
        lemma_bare_anywhere(p, s);
        assert(like_bare(p, s.skip(s.len() as int)));
        assert(folded(s.take(0)) =~= folded(p));
    } else {
        assert(p.contains(p[0]));
        assert(w[0] == p[0]);
        if s.len() > 0 {
            let q = p.skip(1);
            assert forall|c: char| q.contains(c) implies p.contains(c) by {
                let i = choose|i: int| 0 <= i < q.len() && q[i] == c;
                assert(p[i + 1] == c);
            }
            lemma_bare_start(q, s.skip(1));
            assert(w.skip(1) =~= q + seq!['%']);
            if s.len() >= p.len() {
                let a = folded(s.take(p.len() as int));
                let b = folded(p);
                let x = folded(s.skip(1).take(q.len() as int));
                let y = folded(q);
                if a == b {
                    assert(a[0] == b[0]);
                    assert forall|i: int| 0 <= i < q.len() implies x[i] == y[i] by {
                        assert(a[i + 1] == b[i + 1]);
                    }
                    assert(x =~= y);
                }
                if x == y && folded_char(p[0]) == folded_char(s[0]) {
                    assert forall|i: int| 0 <= i < p.len() implies a[i] == b[i] by {
                        if i > 0 {
                            assert(x[i - 1] == y[i - 1]);
                        }
                    }
                    assert(a =~= b);
                }
            }
        }
    }
}

} // verus!
