//! What a search of the snippets selects.
use vstd::prelude::*;

verus! {

use crate::db::{
    folder_condition,
    folder_params,
    given,
    list_params,
    list_sql,
    order_clause,
    tag_condition,
    tag_params,
    text_condition,
    text_params,
    RowView,
    SortOrder,
    SNIPPET_COLUMNS,
};
use crate::decimal::decimal;
use crate::sql::{
    expr_takes,
    expr_text,
    folded,
    folded_char,
    lemma_bare_anywhere,
    lemma_bare_start,
    like_bare,
    selects,
    test_takes,
    test_text,
    value,
    Datum,
    Expr,
    Test,
};
use crate::text::lowercase_text;
use crate::trim::trimmed;

/// The columns of a snippet that a search looks at, by name.
pub open spec fn columns(r: RowView) -> spec_fn(Seq<char>) -> Datum {
    |name: Seq<char>|
        if name == "title"@ {
            Datum::Text(r.title)
        } else if name == "body"@ {
            Datum::Text(r.body)
        } else if name == "tags"@ {
            Datum::Text(r.tags)
        } else if name == "folder_path"@ {
            match r.folder {
                Some(f) => Datum::Text(f),
                None => Datum::Null,
            }
        } else {
            Datum::Null
        }
}

/// What bound texts are to the database.
pub open spec fn bound(l: Seq<Seq<char>>) -> Seq<Datum> {
    Seq::new(l.len(), |i: int| Datum::Text(l[i]))
}

/// Whether `q` stands in `s`, but for the case of ASCII letters.
pub open spec fn holds_folded(s: Seq<char>, q: Seq<char>) -> bool {
    exists|k: int|
        0 <= k && k + q.len() <= s.len() && #[trigger] folded(s.subrange(k, k + q.len())) == folded(q)
}

/// Whether `s` begins with `q`, but for the case of ASCII letters.
pub open spec fn starts_folded(s: Seq<char>, q: Seq<char>) -> bool {
    q.len() <= s.len() && folded(s.take(q.len() as int)) == folded(q)
}

/// What a part of a search asks for, where it is not blank.
pub open spec fn wanted(s: Option<Seq<char>>) -> Option<Seq<char>> {
    match s {
        Some(t) if trimmed(t).len() > 0 => Some(t),
        _ => None,
    }
}

/// Whether a snippet is one that a search asks for. A searched text stands in its title, its
/// body or its tags; the tag is one of its tags, which stand between commas; and the snippet
/// lies in the folder or below it, or in none where the root is asked for. Parts that are
/// absent or blank ask for nothing.
pub open spec fn asked_for(
    query: Option<Seq<char>>,
    tag: Option<Seq<char>>,
    folder: Option<Seq<char>>,
    r: RowView,
) -> bool {
    &&& wanted(query) matches Some(q) ==> {
        ||| holds_folded(r.title, lowercase_text(q))
        ||| holds_folded(r.body, lowercase_text(q))
        ||| holds_folded(r.tags, lowercase_text(q))
    }
    &&& wanted(tag) matches Some(t) ==> holds_folded(
        r.tags,
        seq![','] + lowercase_text(t) + seq![','],
    )
    &&& wanted(folder) matches Some(f) ==> if f == "__root__"@ {
        r.folder is None || r.folder->0.len() == 0
    } else {
        r.folder matches Some(p) && (p == f || starts_folded(p, f + seq!['/']))
    }
}

/// Whether a text holds a sign that a pattern gives a meaning of its own.
pub open spec fn has_signs(s: Seq<char>) -> bool {
    s.contains('%') || s.contains('_')
}

spec fn column(name: Seq<char>) -> Expr {
    Expr::Column(name)
}

spec fn low(name: Seq<char>) -> Expr {
    Expr::Lower(Box::new(column(name)))
}

spec fn text_test(q: Seq<char>) -> Test {
    let p = Expr::Numbered(1, Datum::Text("%"@ + lowercase_text(q) + "%"@));
    Test::Group(
        Box::new(
            Test::Or(
                Box::new(
                    Test::Or(
                        Box::new(Test::LikeBare(low("title"@), p)),
                        Box::new(Test::LikeBare(low("body"@), p)),
                    ),
                ),
                Box::new(Test::LikeBare(low("tags"@), p)),
            ),
        ),
    )
}

spec fn tag_test(t: Seq<char>, n: nat) -> Test {
    Test::LikeBare(
        low("tags"@),
        Expr::Numbered(n, Datum::Text("%,"@ + lowercase_text(t) + ",%"@)),
    )
}

spec fn root_test() -> Test {
    Test::Group(
        Box::new(
            Test::Or(
                Box::new(Test::IsNull(column("folder_path"@))),
                Box::new(Test::Equal(column("folder_path"@), Expr::Quoted(""@))),
            ),
        ),
    )
}

spec fn folder_test(f: Seq<char>, n: nat) -> Test {
    let c = column("folder_path"@);
    Test::Group(
        Box::new(
            Test::Or(
                Box::new(Test::Equal(c, Expr::Numbered(n, Datum::Text(f)))),
                Box::new(Test::LikeBare(c, Expr::Numbered(n + 1, Datum::Text(f + "/%"@)))),
            ),
        ),
    )
}

spec fn and_if(t: Test, part: Option<Test>) -> Test {
    match part {
        Some(u) => Test::And(Box::new(t), Box::new(u)),
        None => t,
    }
}

spec fn whole_test(
    query: Option<Seq<char>>,
    tag: Option<Seq<char>>,
    folder: Option<Seq<char>>,
) -> Test {
    let a = text_params(query).len();
    let b = a + tag_params(tag).len();
    let t = and_if(
        Test::Always,
        if given(query) {
            Some(text_test(query->0))
        } else {
            None
        },
    );
    let u = and_if(
        t,
        if given(tag) {
            Some(tag_test(tag->0, a + 1))
        } else {
            None
        },
    );
    and_if(
        u,
        if !given(folder) {
            None
        } else if folder == Some("__root__"@) {
            Some(root_test())
        } else {
            Some(folder_test(folder->0, b + 1))
        },
    )
}

proof fn lemma_text_written(q: Seq<char>)
    ensures
        text_condition(Some(q)) == " AND "@ + test_text(text_test(q)) || trimmed(q).len() == 0,
{
    reveal_with_fuel(test_text, 5);
    reveal_with_fuel(expr_text, 3);
    reveal_with_fuel(decimal, 2);
    reveal_strlit(" AND (LOWER(title) LIKE ?1 OR LOWER(body) LIKE ?1 OR LOWER(tags) LIKE ?1)");
    reveal_strlit(" AND ");
    reveal_strlit("(");
    reveal_strlit(")");
    reveal_strlit("LOWER(");
    reveal_strlit("title");
    reveal_strlit("body");
    reveal_strlit("tags");
    reveal_strlit(" LIKE ");
    reveal_strlit(" OR ");
    reveal_strlit("?");
    assert(decimal(1) =~= seq!['1']);
    let p = "?"@ + seq!['1'];
    let l = |name: Seq<char>| "LOWER("@ + name + ")"@ + " LIKE "@ + p;
    assert(test_text(text_test(q)) == "("@ + (l("title"@) + " OR "@ + l("body"@) + " OR "@ + l(
        "tags"@,
    )) + ")"@);
    assert(text_condition(Some(q)) =~= " AND "@ + test_text(text_test(q)) || trimmed(q).len()
        == 0);
}

proof fn lemma_tag_written(t: Seq<char>, n: nat)
    ensures
        " AND LOWER(tags) LIKE ?"@ + decimal(n) == " AND "@ + test_text(tag_test(t, n)),
{
    reveal_with_fuel(test_text, 3);
    reveal_with_fuel(expr_text, 3);
    reveal_strlit(" AND LOWER(tags) LIKE ?");
    reveal_strlit(" AND ");
    reveal_strlit(")");
    reveal_strlit("LOWER(");
    reveal_strlit("tags");
    reveal_strlit(" LIKE ");
    reveal_strlit("?");
    assert(test_text(tag_test(t, n)) == "LOWER("@ + "tags"@ + ")"@ + " LIKE "@ + ("?"@ + decimal(
        n,
    )));
    assert(" AND LOWER(tags) LIKE ?"@ + decimal(n) =~= " AND "@ + test_text(tag_test(t, n)));
}

proof fn lemma_root_written()
    ensures
        " AND (folder_path IS NULL OR folder_path = '')"@ == " AND "@ + test_text(root_test()),
{
    reveal_with_fuel(test_text, 4);
    reveal_with_fuel(expr_text, 3);
    reveal_strlit(" AND (folder_path IS NULL OR folder_path = '')");
    reveal_strlit(" AND ");
    reveal_strlit("(");
    reveal_strlit(")");
    reveal_strlit("folder_path");
    reveal_strlit(" IS NULL");
    reveal_strlit(" OR ");
    reveal_strlit(" = ");
    reveal_strlit("'");
    reveal_strlit("");
    assert(" AND (folder_path IS NULL OR folder_path = '')"@ =~= " AND "@ + test_text(root_test()));
}

proof fn lemma_folder_written(f: Seq<char>, n: nat)
    ensures
        " AND (folder_path = ?"@ + decimal(n) + " OR folder_path LIKE ?"@ + decimal(n + 1) + ")"@
            == " AND "@ + test_text(folder_test(f, n)),
{
    reveal_with_fuel(test_text, 4);
    reveal_with_fuel(expr_text, 3);
    reveal_strlit(" AND (folder_path = ?");
    reveal_strlit(" OR folder_path LIKE ?");
    reveal_strlit(" AND ");
    reveal_strlit("(");
    reveal_strlit(")");
    reveal_strlit("folder_path");
    reveal_strlit(" LIKE ");
    reveal_strlit(" OR ");
    reveal_strlit(" = ");
    reveal_strlit("?");
    let a = decimal(n);
    let b = decimal(n + 1);
    assert(test_text(folder_test(f, n)) == "("@ + ("folder_path"@ + " = "@ + ("?"@ + a) + " OR "@
        + ("folder_path"@ + " LIKE "@ + ("?"@ + b))) + ")"@);
    assert(" AND (folder_path = ?"@ + a + " OR folder_path LIKE ?"@ + b + ")"@ =~= " AND "@
        + test_text(folder_test(f, n)));
}

proof fn lemma_whole_written(
    query: Option<Seq<char>>,
    tag: Option<Seq<char>>,
    folder: Option<Seq<char>>,
    sort: SortOrder,
)
    ensures
        list_sql(query, tag, folder, sort) == SNIPPET_COLUMNS@ + " WHERE "@ + test_text(
            whole_test(query, tag, folder),
        ) + order_clause(sort),
{
    let a = text_params(query).len();
    let b = a + tag_params(tag).len();
    reveal_strlit(" WHERE 1=1");
    reveal_strlit(" WHERE ");
    reveal_strlit("1=1");
    assert(test_text(Test::Always) == "1=1"@);
    assert(" WHERE 1=1"@ =~= " WHERE "@ + "1=1"@);
    let h = SNIPPET_COLUMNS@;
    let o = order_clause(sort);
    let x = text_condition(query);
    let y = tag_condition(tag, a + 1);
    let z = folder_condition(folder, b + 1);
    let t = and_if(
        Test::Always,
        if given(query) {
            Some(text_test(query->0))
        } else {
            None
        },
    );
    let u = and_if(
        t,
        if given(tag) {
            Some(tag_test(tag->0, a + 1))
        } else {
            None
        },
    );
    let w = whole_test(query, tag, folder);
    assert(test_text(t) =~= "1=1"@ + x) by {
        if given(query) {
            lemma_text_written(query->0);
        }
    }
    assert(test_text(u) =~= test_text(t) + y) by {
        if given(tag) {
            lemma_tag_written(tag->0, a + 1);
        }
    }
    assert(test_text(w) =~= test_text(u) + z) by {
        if given(folder) {
            if folder == Some("__root__"@) {
                lemma_root_written();
            } else {
                lemma_folder_written(folder->0, b + 1);
            }
        }
    }
    assert(h + " WHERE 1=1"@ + x + y + z + o =~= h + " WHERE "@ + ("1=1"@ + x + y + z) + o);
}

proof fn lemma_folded_twice(s: Seq<char>)
    ensures
        folded(folded(s)) == folded(s),
        folded(s).len() == s.len(),
{
    assert forall|i: int| 0 <= i < s.len() implies folded(folded(s))[i] == folded(s)[i] by {
        let c = s[i];
        if 'A' <= c <= 'Z' {
            assert(!('A' <= folded_char(c) <= 'Z'));
        }
    }
    assert(folded(folded(s)) =~= folded(s));
}

proof fn lemma_pattern_found(s: Seq<char>, q: Seq<char>)
    requires
        !has_signs(q),
    ensures
        like_bare(seq!['%'] + q + seq!['%'], s) <==> holds_folded(s, q),
{
    let p = q + seq!['%'];
    assert(seq!['%'] + q + seq!['%'] =~= seq!['%'] + p);
    lemma_bare_anywhere(p, s);
    assert forall|k: int| 0 <= k <= s.len() implies (#[trigger] like_bare(p, s.skip(k)) <==> k
        + q.len() <= s.len() && folded(s.subrange(k, k + q.len())) == folded(q)) by {
        lemma_bare_start(q, s.skip(k));
        if k + q.len() <= s.len() {
            assert(s.skip(k).take(q.len() as int) =~= s.subrange(k, k + q.len()));
        }
    }
    if holds_folded(s, q) {
        let k = choose|k: int|
            0 <= k && k + q.len() <= s.len() && #[trigger] folded(s.subrange(k, k + q.len()))
                == folded(q);
        assert(like_bare(p, s.skip(k)));
    }
    if like_bare(seq!['%'] + p, s) {
        let k = choose|k: int| 0 <= k <= s.len() && #[trigger] like_bare(p, s.skip(k));
        assert(folded(s.subrange(k, k + q.len())) == folded(q));
    }
}

/// The same of a text in lower case.
proof fn lemma_low_found(s: Seq<char>, q: Seq<char>)
    requires
        !has_signs(q),
    ensures
        like_bare(seq!['%'] + q + seq!['%'], folded(s)) <==> holds_folded(s, q),
{
    let f = folded(s);
    lemma_pattern_found(f, q);
    lemma_folded_twice(s);
    assert forall|k: int| 0 <= k && k + q.len() <= s.len() implies #[trigger] folded(
        f.subrange(k, k + q.len()),
    ) == folded(s.subrange(k, k + q.len())) by {
        let x = folded(f.subrange(k, k + q.len()));
        let y = folded(s.subrange(k, k + q.len()));
        assert forall|i: int| 0 <= i < q.len() implies x[i] == y[i] by {
            assert(folded(f)[k + i] == f[k + i]);
        }
        assert(x =~= y);
    }
    if holds_folded(s, q) {
        let k = choose|k: int|
            0 <= k && k + q.len() <= s.len() && #[trigger] folded(s.subrange(k, k + q.len()))
                == folded(q);
        assert(folded(f.subrange(k, k + q.len())) == folded(q));
    }
    if holds_folded(f, q) {
        let k = choose|k: int|
            0 <= k && k + q.len() <= f.len() && #[trigger] folded(f.subrange(k, k + q.len()))
                == folded(q);
        assert(folded(s.subrange(k, k + q.len())) == folded(q));
    }
}

proof fn lemma_names_differ()
    ensures
        "title"@ != "body"@,
        "title"@ != "tags"@,
        "title"@ != "folder_path"@,
        "body"@ != "tags"@,
        "body"@ != "folder_path"@,
        "tags"@ != "folder_path"@,
{
    reveal_strlit("title");
    reveal_strlit("body");
    reveal_strlit("tags");
    reveal_strlit("folder_path");
    assert("title"@.len() == 5 && "body"@.len() == 4 && "tags"@.len() == 4);
    assert("folder_path"@.len() == 11);
    assert("body"@[0] != "tags"@[0]);
}

proof fn lemma_text_selects(q: Seq<char>, r: RowView)
    requires
        !has_signs(lowercase_text(q)),
    ensures
        selects(text_test(q), columns(r)) <==> {
            ||| holds_folded(r.title, lowercase_text(q))
            ||| holds_folded(r.body, lowercase_text(q))
            ||| holds_folded(r.tags, lowercase_text(q))
        },
{
    reveal_with_fuel(selects, 5);
    reveal_with_fuel(value, 3);
    reveal_strlit("%");
    lemma_names_differ();
    let l = lowercase_text(q);
    assert("%"@ + l + "%"@ =~= seq!['%'] + l + seq!['%']);
    lemma_low_found(r.title, l);
    lemma_low_found(r.body, l);
    lemma_low_found(r.tags, l);
}

proof fn lemma_tag_selects(t: Seq<char>, n: nat, r: RowView)
    requires
        !has_signs(lowercase_text(t)),
    ensures
        selects(tag_test(t, n), columns(r)) <==> holds_folded(
            r.tags,
            seq![','] + lowercase_text(t) + seq![','],
        ),
{
    reveal_with_fuel(selects, 2);
    reveal_with_fuel(value, 3);
    reveal_strlit("%,");
    reveal_strlit(",%");
    lemma_names_differ();
    let l = lowercase_text(t);
    let c = seq![','] + l + seq![','];
    assert("%,"@ + l + ",%"@ =~= seq!['%'] + c + seq!['%']);
    assert(!has_signs(c)) by {
        if c.contains('%') {
            let i = choose|i: int| 0 <= i < c.len() && c[i] == '%';
            assert(l[i - 1] == '%');
        }
        if c.contains('_') {
            let i = choose|i: int| 0 <= i < c.len() && c[i] == '_';
            assert(l[i - 1] == '_');
        }
    }
    lemma_low_found(r.tags, c);
}

proof fn lemma_folder_selects(f: Seq<char>, n: nat, r: RowView)
    requires
        !has_signs(f),
    ensures
        selects(folder_test(f, n), columns(r)) <==> (r.folder matches Some(p) && (p == f
            || starts_folded(p, f + seq!['/']))),
        selects(root_test(), columns(r)) <==> (r.folder is None || r.folder->0.len() == 0),
{
    reveal_with_fuel(selects, 4);
    reveal_with_fuel(value, 2);
    reveal_strlit("/%");
    reveal_strlit("");
    lemma_names_differ();
    assert(""@ =~= Seq::empty());
    let c = f + seq!['/'];
    assert(f + "/%"@ =~= c + seq!['%']);
    assert(!has_signs(c)) by {
        if c.contains('%') {
            let i = choose|i: int| 0 <= i < c.len() && c[i] == '%';
            assert(f[i] == '%');
        }
        if c.contains('_') {
            let i = choose|i: int| 0 <= i < c.len() && c[i] == '_';
            assert(f[i] == '_');
        }
    }
    if let Some(p) = r.folder {
        lemma_bare_start(c, p);
        if p.len() == 0 {
            assert(p =~= Seq::empty());
        }
    }
}

proof fn lemma_root_selects(r: RowView)
    ensures
        selects(root_test(), columns(r)) <==> (r.folder is None || r.folder->0.len() == 0),
{
    lemma_folder_selects(Seq::empty(), 1, r);
}

/// Whether a query with these values lists, in an order, the rows of a condition.
pub open spec fn is_listing(sql: Seq<char>, params: Seq<Seq<char>>, t: Test, order: Seq<char>) -> bool {
    &&& sql == SNIPPET_COLUMNS@ + " WHERE "@ + test_text(t) + order
    &&& test_takes(t, bound(params))
}

/// A search reads as a condition that selects exactly the snippets that it asks for, with the
/// values that its placeholders stand for. The texts in it hold no sign that a pattern gives
/// a meaning of its own.
pub proof fn law_search_selects_what_it_asks_for(
    query: Option<Seq<char>>,
    tag: Option<Seq<char>>,
    folder: Option<Seq<char>>,
    sort: SortOrder,
    r: RowView,
)
    requires
        query is Some ==> !has_signs(lowercase_text(query->0)),
        tag is Some ==> !has_signs(lowercase_text(tag->0)),
        folder is Some && folder->0 != "__root__"@ ==> !has_signs(folder->0),
    ensures
        exists|t: Test| #[trigger]
            is_listing(
                list_sql(query, tag, folder, sort),
                list_params(query, tag, folder),
                t,
                order_clause(sort),
            ) && (selects(t, columns(r)) <==> asked_for(query, tag, folder, r)),
{
    let a = text_params(query).len();
    let b = a + tag_params(tag).len();
    let w = whole_test(query, tag, folder);
    let l = bound(list_params(query, tag, folder));
    lemma_whole_written(query, tag, folder, sort);
    assert(test_takes(w, l)) by {
        reveal_with_fuel(test_takes, 8);
        reveal_with_fuel(expr_takes, 3);
    }
    assert(selects(w, columns(r)) <==> asked_for(query, tag, folder, r)) by {
        reveal_with_fuel(selects, 4);
        if given(query) {
            lemma_text_selects(query->0, r);
        }
        if given(tag) {
            lemma_tag_selects(tag->0, a + 1, r);
        }
        if given(folder) {
            if folder == Some("__root__"@) {
                lemma_root_selects(r);
            } else {
                lemma_folder_selects(folder->0, b + 1, r);
            }
        }
    }
    assert(is_listing(
        list_sql(query, tag, folder, sort),
        list_params(query, tag, folder),
        w,
        order_clause(sort),
    ));
}

} // verus!
