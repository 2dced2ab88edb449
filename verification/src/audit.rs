//! The audit log: its rows, and the queries that the dashboard reads it with.
use crate::clock::unix_now;
use crate::find::replace;
use crate::text::{chars_of, copy_text};
use crate::trim::{join, trim};
use vstd::prelude::*;

pub mod action;
pub mod meaning;

verus! {

use crate::decimal::decimal;
use crate::find::replaced;
use crate::json::{json_of_text, member, JsonView};
use crate::text::{lemma_views_push, opt_str_view, opt_view, views};
use crate::trim::{joined, trimmed};

/// One row of the log.
#[derive(Debug)]
pub struct AuditRow {
    pub id: i64,
    pub at: i64,
    /// None for actions without a session, and where the actor is gone.
    pub actor_id: Option<String>,
    pub actor_email: String,
    pub action: String,
    pub target_kind: Option<String>,
    pub target_id: Option<String>,
    pub details: Option<String>,
}

/// What the audit page searches for; every part is optional.
pub struct AuditFilter {
    /// Free text, looked for in actor, action, target and details.
    pub q: Option<String>,
    /// The last segment of the action code.
    pub action_verb: Option<String>,
    pub actor_id: Option<String>,
    /// Only entries at or after this time.
    pub since_ts: Option<i64>,
}

impl Default for AuditFilter {
    fn default() -> (r: AuditFilter)
        ensures
            r.q is None,
            r.action_verb is None,
            r.actor_id is None,
            r.since_ts is None,
    {
        AuditFilter { q: None, action_verb: None, actor_id: None, since_ts: None }
    }
}

/// The statement that adds a row to the log.
pub const INSERT_STATEMENT: &'static str =
    "INSERT INTO audit_log \
           (at, actor_id, actor_email, action, target_kind, target_id, details) \
         VALUES (?1, ?2, ?3, ?4, ?5, ?6, ?7)";

/// Someone who acts: the id of the account, and its email.
#[derive(Debug)]
pub struct Actor {
    pub id: String,
    pub email: String,
}

/// What the log keeps of an action under one key.
#[derive(Debug)]
pub enum Detail {
    Text(String),
    Count(usize),
    Group(Vec<(&'static str, String)>),
}

/// What a detail holds.
#[verifier::ext_equal]
pub enum DetailView {
    Text(Seq<char>),
    Count(nat),
    Group(Seq<(Seq<char>, Seq<char>)>),
}

impl View for Detail {
    type V = DetailView;

    open spec fn view(&self) -> DetailView {
        match *self {
            Detail::Text(t) => DetailView::Text(t@),
            Detail::Count(n) => DetailView::Count(n as nat),
            Detail::Group(l) => DetailView::Group(
                Seq::new(l@.len(), |i: int| (l@[i].0@, l@[i].1@)),
            ),
        }
    }
}

/// What details hold, by key.
pub open spec fn detail_views(l: Seq<(&'static str, Detail)>) -> Seq<(Seq<char>, DetailView)> {
    Seq::new(l.len(), |i: int| (l[i].0@, l[i].1@))
}

/// Whether a key has no meaning of its own to the JSON library: its private keys start with
/// a dollar sign.
pub open spec fn plain_key(k: Seq<char>) -> bool {
    k.len() > 0 && k[0] != '$'
}

/// Whether every key is plain, and none stands twice among the details, nor within one of
/// them.
pub open spec fn well_keyed(l: Seq<(Seq<char>, DetailView)>) -> bool {
    &&& forall|i: int| 0 <= i < l.len() ==> plain_key((#[trigger] l[i]).0)
    &&& forall|i: int, j: int| 0 <= i < j < l.len() ==> #[trigger] l[i].0 != #[trigger] l[j].0
    &&& forall|i: int|
        0 <= i < l.len() ==> ((#[trigger] l[i]).1 matches DetailView::Group(g) ==> well_named(g))
}

/// Whether every name in a group is plain, and none stands twice.
pub open spec fn well_named(g: Seq<(Seq<char>, Seq<char>)>) -> bool {
    &&& forall|i: int| 0 <= i < g.len() ==> plain_key((#[trigger] g[i]).0)
    &&& forall|a: int, b: int| 0 <= a < b < g.len() ==> #[trigger] g[a].0 != #[trigger] g[b].0
}

/// Whether an object holds exactly these texts.
pub open spec fn holds_texts(o: JsonView, g: Seq<(Seq<char>, Seq<char>)>) -> bool {
    &&& o is Object
    &&& forall|i: int|
        0 <= i < g.len() ==> member(o, (#[trigger] g[i]).0) == Some(JsonView::Text(g[i].1))
    &&& forall|key: Seq<char>| #[trigger]
        member(o, key) is Some ==> exists|i: int| 0 <= i < g.len() && (#[trigger] g[i]).0 == key
}

/// Whether a JSON value is this detail.
pub open spec fn is_detail(j: Option<JsonView>, d: DetailView) -> bool {
    match d {
        DetailView::Text(t) => j == Some(JsonView::Text(t)),
        DetailView::Count(n) => j == Some(JsonView::Number(decimal(n), Some(n as i128))),
        DetailView::Group(g) => j matches Some(o) && holds_texts(o, g),
    }
}

/// Whether a JSON object holds exactly these details.
pub open spec fn holds_details(j: Option<JsonView>, l: Seq<(Seq<char>, DetailView)>) -> bool {
    &&& j matches Some(o) && o is Object
    &&& forall|i: int|
        0 <= i < l.len() ==> is_detail(member(j->0, (#[trigger] l[i]).0), l[i].1)
    &&& forall|key: Seq<char>| #[trigger]
        member(j->0, key) is Some ==> exists|i: int| 0 <= i < l.len() && (#[trigger] l[i]).0 == key
}

/// `serde_json::Value` as text: an object with these members is written so that
/// reading the text gives every member back, and no other. No key starts with a dollar
/// sign, as the keys do that the reader takes for something else than a member.
#[verifier::external_body]
fn details_text(l: &Vec<(&'static str, Detail)>) -> (r: String)
    requires
        well_keyed(detail_views(l@)),
    ensures
        r@.len() > 0,
        holds_details(json_of_text(r@), detail_views(l@)),
{
    let members = l.iter().map(|(k, d)| {
        let v = match d {
            Detail::Text(t) => serde_json::Value::from(t.as_str()),
            Detail::Count(n) => serde_json::Value::from(*n),
            Detail::Group(g) => g.iter().map(|(a, t)| (a.to_string(), t.clone())).collect(),
        };
        (k.to_string(), v)
    });
    serde_json::Value::Object(members.collect()).to_string()
}

/// An action to be noted. The actor is absent for actions without a session.
#[derive(Debug)]
pub struct AuditEvent {
    pub actor_id: Option<String>,
    pub actor_email: String,
    pub action: &'static str,
    pub target_kind: Option<&'static str>,
    pub target_id: Option<String>,
    /// Written in this order, which is that of the keys.
    pub details: Option<Vec<(&'static str, Detail)>>,
}

/// What an event says.
#[verifier::ext_equal]
pub struct EventView {
    pub actor_id: Option<Seq<char>>,
    pub actor_email: Seq<char>,
    pub action: Seq<char>,
    pub target_kind: Option<Seq<char>>,
    pub target_id: Option<Seq<char>>,
    pub details: Option<Seq<(Seq<char>, DetailView)>>,
}

impl View for AuditEvent {
    type V = EventView;

    open spec fn view(&self) -> EventView {
        EventView {
            actor_id: opt_view(self.actor_id),
            actor_email: self.actor_email@,
            action: self.action@,
            target_kind: opt_str_view(self.target_kind),
            target_id: opt_view(self.target_id),
            details: match self.details {
                Some(l) => Some(detail_views(l@)),
                None => None,
            },
        }
    }
}

impl EventView {
    /// Whether the details can be written down.
    pub open spec fn wf(self) -> bool {
        self.details matches Some(l) ==> well_keyed(l)
    }
}

/// A row of the log as it is written.
#[derive(Debug)]
pub struct AuditEntry {
    pub at: i64,
    pub actor_id: Option<String>,
    pub actor_email: String,
    pub action: &'static str,
    pub target_kind: Option<&'static str>,
    pub target_id: Option<String>,
    pub details: Option<String>,
}

/// Whether a row notes an event. Its details, where there are any, are a JSON text
/// that holds what the event says.
pub open spec fn notes(r: AuditEntry, e: EventView) -> bool {
    &&& opt_view(r.actor_id) == e.actor_id
    &&& r.actor_email@ == e.actor_email
    &&& r.action@ == e.action
    &&& opt_str_view(r.target_kind) == e.target_kind
    &&& opt_view(r.target_id) == e.target_id
    &&& match e.details {
        Some(l) => r.details matches Some(t) && t@.len() > 0 && holds_details(json_of_text(t@), l),
        None => r.details is None,
    }
}

/// The row that notes an event at a time.
pub fn record_at(event: AuditEvent, now: i64) -> (r: AuditEntry)
    requires
        event@.wf(),
    ensures
        r.at == now,
        notes(r, event@),
{
    let details: Option<String> = match &event.details {
        Some(l) => Some(details_text(l)),
        None => None,
    };
    AuditEntry {
        at: now,
        actor_id: event.actor_id,
        actor_email: event.actor_email,
        action: event.action,
        target_kind: event.target_kind,
        target_id: event.target_id,
        details,
    }
}

/// The row that notes an event now.
pub fn record(event: AuditEvent) -> (r: AuditEntry)
    requires
        event@.wf(),
    ensures
        notes(r, event@),
{
    record_at(event, unix_now())
}

/// What an event says that an account brings about.
pub open spec fn event_by(
    actor: Actor,
    action: Seq<char>,
    kind: Seq<char>,
    id: Option<Seq<char>>,
    details: Option<Seq<(Seq<char>, DetailView)>>,
) -> EventView {
    EventView {
        actor_id: Some(actor.id@),
        actor_email: actor.email@,
        action,
        target_kind: Some(kind),
        target_id: id,
        details,
    }
}

/// An event that an account brings about.
pub(crate) fn event_of(
    actor: &Actor,
    action: &'static str,
    kind: &'static str,
    id: Option<String>,
    details: Option<Vec<(&'static str, Detail)>>,
) -> (r: AuditEvent)
    ensures
        r@ == event_by(
            *actor,
            action@,
            kind@,
            opt_view(id),
            match details {
                Some(l) => Some(detail_views(l@)),
                None => None,
            },
        ),
{
    AuditEvent {
        actor_id: Some(copy_text(actor.id.as_str())),
        actor_email: copy_text(actor.email.as_str()),
        action,
        target_kind: Some(kind),
        target_id: id,
        details,
    }
}

/// The email that stands for an actor in the log, by what the accounts hold.
pub fn lookup_actor_email(found: Option<String>) -> (r: String)
    ensures
        r@ == (match opt_view(found) {
            Some(e) => e,
            None => "<unknown>"@,
        }),
{
    match found {
        Some(e) => e,
        None => "<unknown>".to_owned(),
    }
}

/// Actions that the dashboard neither shows nor counts.
pub open spec fn hidden_actions() -> Seq<Seq<char>> {
    seq!["library.folder.reorder"@]
}

/// A text as an SQL string literal.
pub open spec fn sql_literal(s: Seq<char>) -> Seq<char> {
    seq!['\''] + replaced(s, seq!['\''], seq!['\'', '\'']) + seq!['\'']
}

/// Texts as SQL string literals.
pub open spec fn sql_literals(l: Seq<Seq<char>>) -> Seq<Seq<char>> {
    Seq::new(l.len(), |i: int| sql_literal(l[i]))
}

/// The hidden actions as the inside of an SQL `IN (...)`.
pub open spec fn hidden_list() -> Seq<char> {
    joined(sql_literals(hidden_actions()), ", "@)
}

fn quote_sql(s: &str) -> (r: String)
    ensures
        r@ == sql_literal(s@),
{
    proof {
        reveal_strlit("'");
        reveal_strlit("''");
        assert("'"@ =~= seq!['\'']);
        assert("''"@ =~= seq!['\'', '\'']);
    }
    let inner = replace(s, "'", "''");
    let mut out: String = String::new();
    out.push('\'');
    out.push_str(inner.as_str());
    out.push('\'');
    assert(out@ =~= sql_literal(s@));
    out
}

/// The hidden actions as the inside of an SQL `IN (...)`.
pub fn hidden_actions_sql_list() -> (r: String)
    ensures
        r@ == hidden_list(),
{
    let mut quoted: Vec<String> = Vec::new();
    let q = quote_sql("library.folder.reorder");
    quoted.push(q);
    assert(views(quoted@) =~= sql_literals(hidden_actions()));
    join(&quoted, ", ")
}

/// The condition that leaves hidden actions out; empty where none is hidden.
pub open spec fn hidden_filter(prefix: Seq<char>) -> Seq<char> {
    if hidden_list().len() == 0 {
        Seq::empty()
    } else {
        " "@ + prefix + " action NOT IN ("@ + hidden_list() + ")"@
    }
}

/// An SQL fragment, after `prefix`, that leaves hidden actions out.
pub fn hidden_actions_filter_sql(prefix: &str) -> (r: String)
    ensures
        r@ == hidden_filter(prefix@),
{
    let list = hidden_actions_sql_list();
    if list.as_str().unicode_len() == 0 {
        String::new()
    } else {
        let mut out: String = " ".to_owned();
        out.push_str(prefix);
        out.push_str(" action NOT IN (");
        out.push_str(list.as_str());
        out.push_str(")");
        out
    }
}

/// `s` with the characters that `LIKE` gives a meaning escaped.
pub open spec fn like_escaped(s: Seq<char>) -> Seq<char>
    decreases s.len(),
{
    if s.len() == 0 {
        Seq::empty()
    } else {
        let c = s.last();
        let before = like_escaped(s.drop_last());
        if c == '\\' || c == '%' || c == '_' {
            before.push('\\').push(c)
        } else {
            before.push(c)
        }
    }
}

/// Escapes a text so that `LIKE ... ESCAPE '\'` takes it literally.
pub fn escape_like(s: &str) -> (r: String)
    ensures
        r@ == like_escaped(s@),
{
    let v: Vec<char> = chars_of(s);
    let n: usize = v.len();
    let mut out: String = String::new();
    for i in 0..n
        invariant
            n == v@.len(),
            out@ == like_escaped(v@.take(i as int)),
    {
        let c = v[i];
        proof {
            let t = v@.take(i + 1);
            assert(t.drop_last() =~= v@.take(i as int));
            assert(t.last() == c);
        }
        if c == '\\' || c == '%' || c == '_' {
            out.push('\\');
        }
        out.push(c);
    }
    assert(v@.take(n as int) =~= s@);
    out
}

/// What an escaped pattern matches literally: a backslash stands for the
/// character after it. None where a wildcard is left, or a backslash ends it.
pub open spec fn like_literal(p: Seq<char>) -> Option<Seq<char>>
    decreases p.len(),
{
    if p.len() == 0 {
        Some(Seq::empty())
    } else if p[0] == '\\' {
        if p.len() < 2 {
            None
        } else {
            match like_literal(p.skip(2)) {
                Some(s) => Some(seq![p[1]] + s),
                None => None,
            }
        }
    } else if p[0] == '%' || p[0] == '_' {
        None
    } else {
        match like_literal(p.skip(1)) {
            Some(s) => Some(seq![p[0]] + s),
            None => None,
        }
    }
}

proof fn lemma_like_after(s: Seq<char>, tail: Seq<char>)
    ensures
        like_literal(like_escaped(s) + tail) == (match like_literal(tail) {
            Some(t) => Some(s + t),
            None => None,
        }),
    decreases s.len(),
{
    if s.len() == 0 {
        assert(like_escaped(s) + tail =~= tail);
        if let Some(t) = like_literal(tail) {
            assert(s + t =~= t);
        }
    } else {
        let p = s.drop_last();
        let c = s.last();
        if c == '\\' || c == '%' || c == '_' {
            let w = seq!['\\', c] + tail;
            assert(like_escaped(s) + tail =~= like_escaped(p) + w);
            lemma_like_after(p, w);
            assert(w.skip(2) =~= tail);
        } else {
            let w = seq![c] + tail;
            assert(like_escaped(s) + tail =~= like_escaped(p) + w);
            lemma_like_after(p, w);
            assert(w.skip(1) =~= tail);
        }
        if let Some(t) = like_literal(tail) {
            assert(p + (seq![c] + t) =~= s + t);
        }
    }
}

/// An escaped text, as a pattern, matches that text and nothing else.
pub proof fn law_escaped_like_is_literal(s: Seq<char>)
    ensures
        like_literal(like_escaped(s)) == Some(s),
{
    let e = Seq::<char>::empty();
    lemma_like_after(s, e);
    assert(like_escaped(s) + e =~= like_escaped(s));
    assert(s + e =~= s);
}

/// A value to be bound to a placeholder.
#[derive(Debug)]
pub enum Bind {
    Text(String),
    Int(i64),
}

/// What a bound value holds.
#[verifier::ext_equal]
pub enum BindView {
    Text(Seq<char>),
    Int(i64),
}

impl View for Bind {
    type V = BindView;

    open spec fn view(&self) -> BindView {
        match *self {
            Bind::Text(s) => BindView::Text(s@),
            Bind::Int(n) => BindView::Int(n),
        }
    }
}

/// What a list of bound values holds.
pub open spec fn bind_views(l: Seq<Bind>) -> Seq<BindView> {
    Seq::new(l.len(), |i: int| l[i]@)
}

/// A filter's text, trimmed; none where it is absent or blank.
pub open spec fn filled(s: Option<Seq<char>>) -> Option<Seq<char>> {
    match s {
        Some(t) => if trimmed(t).len() == 0 {
            None
        } else {
            Some(trimmed(t))
        },
        None => None,
    }
}

/// The condition of a free-text search.
pub const SEARCH_CONDITION: &'static str =
    "(actor_email LIKE ? ESCAPE '\\' OR action LIKE ? ESCAPE '\\' \
              OR IFNULL(target_id, '') LIKE ? ESCAPE '\\' \
              OR IFNULL(details, '') LIKE ? ESCAPE '\\')";

/// The condition of an action verb: the action code has a dot, and what follows its last dot
/// is the verb, ignoring the case of ASCII letters.
pub const VERB_CONDITION: &'static str =
    "INSTR(action, '.') > 0 AND SUBSTR(action, LENGTH(RTRIM(action, REPLACE(action, '.', ''))) + 1) \
              = ? COLLATE NOCASE";

/// The conditions of a query, by which parts of its filter are given.
pub open spec fn conditions(q: bool, verb: bool, actor: bool, since: bool) -> Seq<Seq<char>> {
    let none = Seq::<Seq<char>>::empty();
    (if hidden_list().len() == 0 {
        none
    } else {
        seq!["action NOT IN ("@ + hidden_list() + ")"@]
    }) + (if q {
        seq![SEARCH_CONDITION@]
    } else {
        none
    }) + (if verb {
        seq![VERB_CONDITION@]
    } else {
        none
    }) + (if actor {
        seq!["actor_id = ?"@]
    } else {
        none
    }) + (if since {
        seq!["at >= ?"@]
    } else {
        none
    })
}

/// The pattern that a free-text search binds.
pub open spec fn search_pattern(q: Seq<char>) -> Seq<char> {
    seq!['%'] + like_escaped(q) + seq!['%']
}

/// The values that a filter binds, in order.
pub open spec fn bindings(f: AuditFilter) -> Seq<BindView> {
    let none = Seq::<BindView>::empty();
    (match filled(opt_view(f.q)) {
        Some(q) => {
            let p = BindView::Text(search_pattern(q));
            seq![p, p, p, p]
        },
        None => none,
    }) + (match filled(opt_view(f.action_verb)) {
        Some(v) => seq![BindView::Text(v)],
        None => none,
    }) + (match filled(opt_view(f.actor_id)) {
        Some(a) => seq![BindView::Text(a)],
        None => none,
    }) + (match f.since_ts {
        Some(ts) => seq![BindView::Int(ts)],
        None => none,
    })
}

/// The `WHERE` clause of conditions; empty where there is none.
pub open spec fn where_of(conds: Seq<Seq<char>>) -> Seq<char> {
    if conds.len() == 0 {
        Seq::empty()
    } else {
        " WHERE "@ + joined(conds, " AND "@)
    }
}

/// The `WHERE` clause of a filter.
pub open spec fn where_clause(f: AuditFilter) -> Seq<char> {
    where_of(
        conditions(
            filled(opt_view(f.q)) is Some,
            filled(opt_view(f.action_verb)) is Some,
            filled(opt_view(f.actor_id)) is Some,
            f.since_ts is Some,
        ),
    )
}

/// A filter's text, trimmed; none where it is absent or blank.
pub fn filled_text(s: &Option<String>) -> (r: Option<String>)
    ensures
        opt_view(r) == filled(opt_view(*s)),
{
    match s {
        Some(t) => {
            let x = trim(t.as_str());
            if x.as_str().unicode_len() == 0 {
                None
            } else {
                Some(x)
            }
        },
        None => None,
    }
}

fn push_bind(l: &mut Vec<Bind>, b: Bind)
    ensures
        bind_views(final(l)@) == bind_views(old(l)@).push(b@),
{
    let ghost before = l@;
    l.push(b);
    assert(bind_views(l@) =~= bind_views(before).push(b@));
}

fn push_text(l: &mut Vec<String>, s: &str)
    ensures
        views(final(l)@) == views(old(l)@).push(s@),
{
    let t = copy_text(s);
    proof {
        lemma_views_push(l@, t);
    }
    l.push(t);
}

/// The `WHERE` clause of a filter, hidden actions always left out, with the
/// values to bind in order. The count and the page read the log with the same
/// clause, so they cannot disagree.
pub fn build_where(f: &AuditFilter) -> (r: (String, Vec<Bind>))
    ensures
        r.0@ == where_clause(*f),
        bind_views(r.1@) == bindings(*f),
{
    let mut conds: Vec<String> = Vec::new();
    let mut binds: Vec<Bind> = Vec::new();
    proof {
        assert(views(conds@) =~= Seq::<Seq<char>>::empty());
        assert(bind_views(binds@) =~= Seq::<BindView>::empty());
    }
    let hidden = hidden_actions_sql_list();
    if hidden.as_str().unicode_len() > 0 {
        let mut c: String = "action NOT IN (".to_owned();
        c.push_str(hidden.as_str());
        c.push_str(")");
        push_text(&mut conds, c.as_str());
    }
    let q = filled_text(&f.q);
    if let Some(s) = &q {
        let e = escape_like(s.as_str());
        let mut like: String = String::new();
        like.push('%');
        like.push_str(e.as_str());
        like.push('%');
        assert(like@ =~= search_pattern(s@));
        push_text(&mut conds, SEARCH_CONDITION);
        push_bind(&mut binds, Bind::Text(copy_text(like.as_str())));
        push_bind(&mut binds, Bind::Text(copy_text(like.as_str())));
        push_bind(&mut binds, Bind::Text(copy_text(like.as_str())));
        push_bind(&mut binds, Bind::Text(like));
    }
    let v = filled_text(&f.action_verb);
    if let Some(s) = v {
        push_text(&mut conds, VERB_CONDITION);
        push_bind(&mut binds, Bind::Text(s));
    }
    let a = filled_text(&f.actor_id);
    if let Some(s) = a {
        push_text(&mut conds, "actor_id = ?");
        push_bind(&mut binds, Bind::Text(s));
    }
    if let Some(ts) = f.since_ts {
        push_text(&mut conds, "at >= ?");
        push_bind(&mut binds, Bind::Int(ts));
    }
    assert(bind_views(binds@) =~= bindings(*f));
    assert(views(conds@) =~= conditions(
        filled(opt_view(f.q)) is Some,
        filled(opt_view(f.action_verb)) is Some,
        filled(opt_view(f.actor_id)) is Some,
        f.since_ts is Some,
    ));
    assert(views(conds@).len() == conds@.len());
    if conds.len() == 0 {
        (String::new(), binds)
    } else {
        let j = join(&conds, " AND ");
        let mut w: String = " WHERE ".to_owned();
        w.push_str(j.as_str());
        (w, binds)
    }
}

/// The query for how many entries match a filter, with its values.
pub fn count_query(f: &AuditFilter) -> (r: (String, Vec<Bind>))
    ensures
        r.0@ == "SELECT COUNT(*) FROM audit_log"@ + where_clause(*f),
        bind_views(r.1@) == bindings(*f),
{
    let (w, binds) = build_where(f);
    let mut sql: String = "SELECT COUNT(*) FROM audit_log".to_owned();
    sql.push_str(w.as_str());
    (sql, binds)
}

/// The query for a page of the entries that match a filter, newest first, with
/// its values; the page's size and offset come last.
pub fn list_query(f: &AuditFilter, limit: i64, offset: i64) -> (r: (String, Vec<Bind>))
    ensures
        r.0@ == "SELECT id, at, actor_id, actor_email, action, target_kind, target_id, details \
         FROM audit_log"@ + where_clause(*f) + " ORDER BY at DESC, id DESC LIMIT ? OFFSET ?"@,
        bind_views(r.1@) == bindings(*f).push(BindView::Int(limit)).push(BindView::Int(offset)),
{
    let (w, b) = build_where(f);
    let mut binds: Vec<Bind> = b;
    let mut sql: String = "SELECT id, at, actor_id, actor_email, action, target_kind, target_id, details \
         FROM audit_log".to_owned();
    sql.push_str(w.as_str());
    sql.push_str(" ORDER BY at DESC, id DESC LIMIT ? OFFSET ?");
    push_bind(&mut binds, Bind::Int(limit));
    push_bind(&mut binds, Bind::Int(offset));
    (sql, binds)
}

/// What a search is for never becomes part of the query's text: two filters with
/// the same parts given have the same clause.
pub proof fn law_filter_text_stays_out_of_sql(f: AuditFilter, g: AuditFilter)
    requires
        filled(opt_view(f.q)) is Some == filled(opt_view(g.q)) is Some,
        filled(opt_view(f.action_verb)) is Some == filled(opt_view(g.action_verb)) is Some,
        filled(opt_view(f.actor_id)) is Some == filled(opt_view(g.actor_id)) is Some,
        f.since_ts is Some == g.since_ts is Some,
    ensures
        where_clause(f) == where_clause(g),
{
}

/// How often `c` occurs in `s`.
pub open spec fn count_of(s: Seq<char>, c: char) -> nat
    decreases s.len(),
{
    if s.len() == 0 {
        0
    } else {
        count_of(s.drop_last(), c) + (if s.last() == c {
            1nat
        } else {
            0nat
        })
    }
}

proof fn lemma_count_add(a: Seq<char>, b: Seq<char>, c: char)
    ensures
        count_of(a + b, c) == count_of(a, c) + count_of(b, c),
    decreases b.len(),
{
    if b.len() == 0 {
        assert(a + b =~= a);
    } else {
        lemma_count_add(a, b.drop_last(), c);
        assert((a + b).drop_last() =~= a + b.drop_last());
    }
}

proof fn lemma_count_none(s: Seq<char>, c: char)
    requires
        forall|i: int| 0 <= i < s.len() ==> #[trigger] s[i] != c,
    ensures
        count_of(s, c) == 0,
    decreases s.len(),
{
    if s.len() > 0 {
        let p = s.drop_last();
        assert forall|i: int| 0 <= i < p.len() implies #[trigger] p[i] != c by {
            assert(p[i] == s[i]);
        }
        lemma_count_none(p, c);
        assert(s[s.len() - 1] != c);
    }
}

/// A text whose only `c` is at `k`.
proof fn lemma_count_one(s: Seq<char>, c: char, k: int)
    requires
        0 <= k < s.len(),
        s[k] == c,
        forall|i: int| 0 <= i < s.len() && i != k ==> #[trigger] s[i] != c,
    ensures
        count_of(s, c) == 1,
{
    let a = s.take(k);
    let b = s.skip(k + 1);
    assert(s =~= a + seq![c] + b);
    lemma_count_none(a, c);
    lemma_count_none(b, c);
    lemma_count_add(a, seq![c], c);
    lemma_count_add(a + seq![c], b, c);
    let one = seq![c];
    assert(one.drop_last() =~= Seq::<char>::empty());
    assert(count_of(one.drop_last(), c) == 0);
    assert(one.last() == c);
    assert(count_of(one, c) == 1);
}

proof fn lemma_search_condition_count()
    ensures
        count_of(SEARCH_CONDITION@, '?') == 4,
{
    reveal_strlit(
        "(actor_email LIKE ? ESCAPE '\\' OR action LIKE ? ESCAPE '\\' \
              OR IFNULL(target_id, '') LIKE ? ESCAPE '\\' \
              OR IFNULL(details, '') LIKE ? ESCAPE '\\')",
    );
    let s = SEARCH_CONDITION@;
    let a = s.subrange(0, 30);
    let b = s.subrange(30, 60);
    let c = s.subrange(60, 100);
    let d = s.skip(100);
    assert(s =~= a + b + c + d);
    lemma_count_add(a + b + c, d, '?');
    lemma_count_add(a + b, c, '?');
    lemma_count_add(a, b, '?');
    lemma_count_one(a, '?', 18);
    lemma_count_one(b, '?', 16);
    lemma_count_one(c, '?', 29);
    lemma_count_one(d, '?', 30);
}

proof fn lemma_verb_condition_count()
    ensures
        count_of(VERB_CONDITION@, '?') == 1,
{
    reveal_strlit(
        "INSTR(action, '.') > 0 AND SUBSTR(action, LENGTH(RTRIM(action, REPLACE(action, '.', ''))) + 1) \
                    = ? COLLATE NOCASE",
    );
    lemma_count_one(VERB_CONDITION@, '?', 97);
}

/// How often `c` occurs in the parts together.
spec fn count_in(parts: Seq<Seq<char>>, c: char) -> nat
    decreases parts.len(),
{
    if parts.len() == 0 {
        0
    } else {
        count_in(parts.drop_last(), c) + count_of(parts.last(), c)
    }
}

proof fn lemma_count_in_add(a: Seq<Seq<char>>, b: Seq<Seq<char>>, c: char)
    ensures
        count_in(a + b, c) == count_in(a, c) + count_in(b, c),
    decreases b.len(),
{
    if b.len() == 0 {
        assert(a + b =~= a);
    } else {
        lemma_count_in_add(a, b.drop_last(), c);
        assert((a + b).drop_last() =~= a + b.drop_last());
    }
}

proof fn lemma_count_in_one(s: Seq<char>, c: char)
    ensures
        count_in(seq![s], c) == count_of(s, c),
{
    let one = seq![s];
    assert(one.drop_last() =~= Seq::<Seq<char>>::empty());
    assert(count_in(one.drop_last(), c) == 0);
    assert(one.last() == s);
}

proof fn lemma_count_joined(parts: Seq<Seq<char>>, sep: Seq<char>, c: char)
    requires
        count_of(sep, c) == 0,
    ensures
        count_of(joined(parts, sep), c) == count_in(parts, c),
    decreases parts.len(),
{
    if parts.len() == 1 {
        lemma_count_in_one(parts[0], c);
        assert(parts =~= seq![parts[0]]);
    } else if parts.len() > 1 {
        let front = parts.drop_last();
        lemma_count_joined(front, sep, c);
        lemma_count_add(joined(front, sep), sep, c);
        lemma_count_add(joined(front, sep) + sep, parts.last(), c);
    }
}

proof fn lemma_hidden_condition_count()
    ensures
        hidden_list().len() > 0,
        count_of("action NOT IN ("@ + hidden_list() + ")"@, '?') == 0,
{
    reveal_strlit("library.folder.reorder");
    let name = "library.folder.reorder"@;
    let quote = seq!['\''];
    assert forall|j: int| 0 <= j < name.len() implies !crate::find::stands_at(name, quote, j) by {
        if crate::find::stands_at(name, quote, j) {
            assert(name.subrange(j, j + 1)[0] == name[j]);
        }
    }
    crate::find::lemma_replaced_absent(name, quote, seq!['\'', '\''], 0);
    assert(name.skip(0) =~= name);
    let lit = sql_literal(name);
    let all = sql_literals(hidden_actions());
    assert(all =~= seq![lit]);
    assert(hidden_list() == lit);
    assert(lit =~= quote + name + quote);
    assert(lit.len() > 0);
    assert forall|i: int| 0 <= i < name.len() implies #[trigger] name[i] != '?' by {}
    assert forall|i: int| 0 <= i < lit.len() implies #[trigger] lit[i] != '?' by {
        if 1 <= i && i < 1 + name.len() {
            assert(lit[i] == name[i - 1]);
        }
    }
    lemma_count_none(lit, '?');
    reveal_strlit("action NOT IN (");
    reveal_strlit(")");
    lemma_count_none("action NOT IN ("@, '?');
    lemma_count_none(")"@, '?');
    lemma_count_add("action NOT IN ("@, lit, '?');
    lemma_count_add("action NOT IN ("@ + lit, ")"@, '?');
}

/// Every placeholder of the clause has its value: as many values are bound as
/// question marks stand in it.
pub proof fn law_placeholders_match_bindings(f: AuditFilter)
    ensures
        count_of(where_clause(f), '?') == bindings(f).len(),
{
    let q = filled(opt_view(f.q)) is Some;
    let verb = filled(opt_view(f.action_verb)) is Some;
    let actor = filled(opt_view(f.actor_id)) is Some;
    let since = f.since_ts is Some;
    let none = Seq::<Seq<char>>::empty();
    let c1 = seq!["action NOT IN ("@ + hidden_list() + ")"@];
    let c2 = if q {
        seq![SEARCH_CONDITION@]
    } else {
        none
    };
    let c3 = if verb {
        seq![VERB_CONDITION@]
    } else {
        none
    };
    let c4 = if actor {
        seq!["actor_id = ?"@]
    } else {
        none
    };
    let c5 = if since {
        seq!["at >= ?"@]
    } else {
        none
    };
    lemma_hidden_condition_count();
    lemma_search_condition_count();
    lemma_verb_condition_count();
    lemma_count_in_one("action NOT IN ("@ + hidden_list() + ")"@, '?');
    lemma_count_in_one(SEARCH_CONDITION@, '?');
    lemma_count_in_one(VERB_CONDITION@, '?');
    lemma_count_in_one("actor_id = ?"@, '?');
    lemma_count_in_one("at >= ?"@, '?');
    reveal_strlit("actor_id = ?");
    reveal_strlit("at >= ?");
    reveal_strlit(" AND ");
    reveal_strlit(" WHERE ");
    lemma_count_one("actor_id = ?"@, '?', 11);
    lemma_count_one("at >= ?"@, '?', 6);
    lemma_count_none(" AND "@, '?');
    lemma_count_none(" WHERE "@, '?');
    assert(count_in(none, '?') == 0);
    lemma_count_in_add(c1, c2, '?');
    lemma_count_in_add(c1 + c2, c3, '?');
    lemma_count_in_add(c1 + c2 + c3, c4, '?');
    lemma_count_in_add(c1 + c2 + c3 + c4, c5, '?');
    let conds = conditions(q, verb, actor, since);
    assert(conds == c1 + c2 + c3 + c4 + c5);
    lemma_count_joined(conds, " AND "@, '?');
    lemma_count_add(" WHERE "@, joined(conds, " AND "@), '?');
}

} // verus!
