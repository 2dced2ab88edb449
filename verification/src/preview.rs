//! The one-line HTML preview of a snippet body: `{variable}` chips, inline marks
//! and line breaks shown as separators.
use crate::find::{ends_with, find_from, starts_with};
use crate::highlight::highlight_matches;
use crate::html::escape_html;
use crate::text::{chars_of, is_whitespace, text_between};
use vstd::prelude::*;

verus! {

use crate::find::{first_from, lemma_first_from, stands_at};
use crate::highlight::{
    highlighted,
    law_highlight_keeps_the_text,
    segment_html,
    segments,
    segments_html,
    segments_text,
    MATCH_CLOSE,
};
use crate::html::{
    escaped,
    law_escaped_text_holds_no_markup,
    law_plain_text_is_kept,
    lemma_escaped_len,
    markup_char,
};
use crate::text::white_space;

/// The separator that stands for a line break.
pub const LINE_SEPARATOR: &'static str = "<span class=\"lib-sep\">|</span>";

/// A piece of a snippet body.
#[verifier::ext_equal]
pub enum Mark {
    /// Text without a mark.
    Plain(Seq<char>),
    /// A run of line breaks with the blanks around them.
    Break(Seq<char>),
    /// `{name}`
    Variable(Seq<char>),
    /// `**text**`
    Bold(Seq<char>),
    /// `*text*`
    Italic(Seq<char>),
    /// `` `text` ``
    Code(Seq<char>),
    /// `[text](url)`
    Link(Seq<char>, Seq<char>),
}

/// A line-break character.
pub open spec fn line_end(c: char) -> bool {
    c == '\n' || c == '\r'
}

/// Whether a run of line breaks starts at `i`, with the blanks before it.
pub open spec fn opens_break(b: Seq<char>, i: int) -> bool
    decreases b.len() - i,
{
    0 <= i < b.len() && (line_end(b[i]) || ((b[i] == ' ' || b[i] == '\t') && opens_break(b, i + 1)))
}

/// A character that a run of line breaks goes on with.
pub open spec fn break_char(c: char) -> bool {
    c == '\n' || c == '\r' || c == ' ' || c == '\t'
}

/// The end of the run of `break_char`s that starts at `i`.
pub open spec fn break_end(b: Seq<char>, i: int) -> int
    decreases b.len() - i,
{
    if 0 <= i < b.len() && break_char(b[i]) {
        break_end(b, i + 1)
    } else {
        i
    }
}

/// A character of a variable's name.
pub open spec fn name_char(c: char) -> bool {
    ||| 'a' <= c <= 'z'
    ||| 'A' <= c <= 'Z'
    ||| '0' <= c <= '9'
    ||| c == '_'
    ||| c == '-'
    ||| c == '.'
}

/// Whether `s` names a variable.
pub open spec fn variable_name(s: Seq<char>) -> bool {
    s.len() > 0 && forall|k: int| 0 <= k < s.len() ==> name_char(#[trigger] s[k])
}

/// Whether a link may point at `url`.
pub open spec fn safe_url(url: Seq<char>) -> bool {
    "http://"@.is_prefix_of(url) || "https://"@.is_prefix_of(url) || "mailto:"@.is_prefix_of(url)
}

/// Whether `url` can stand in a link at all.
pub open spec fn link_target(url: Seq<char>) -> bool {
    url.len() > 0 && forall|k: int| 0 <= k < url.len() ==> !white_space(#[trigger] url[k])
}

/// `{name}` at `i`, with the position after it.
pub open spec fn variable_at(b: Seq<char>, i: int) -> Option<(Mark, int)> {
    match first_from(b, seq!['}'], i + 1) {
        Some(e) => if variable_name(b.subrange(i + 1, e)) {
            Some((Mark::Variable(b.subrange(i + 1, e)), e + 1))
        } else {
            None
        },
        None => None,
    }
}

/// `**text**` at `i`, with the position after it.
pub open spec fn bold_at(b: Seq<char>, i: int) -> Option<(Mark, int)> {
    if stands_at(b, seq!['*', '*'], i) {
        match first_from(b, seq!['*', '*'], i + 2) {
            Some(e) => if e > i + 2 {
                Some((Mark::Bold(b.subrange(i + 2, e)), e + 2))
            } else {
                None
            },
            None => None,
        }
    } else {
        None
    }
}

/// `*text*` at `i`, with the position after it.
pub open spec fn italic_at(b: Seq<char>, i: int) -> Option<(Mark, int)> {
    match first_from(b, seq!['*'], i + 1) {
        Some(e) => if e > i + 1 && !b.subrange(i + 1, e).contains('\n') {
            Some((Mark::Italic(b.subrange(i + 1, e)), e + 1))
        } else {
            None
        },
        None => None,
    }
}

/// `` `text` `` at `i`, with the position after it.
pub open spec fn code_at(b: Seq<char>, i: int) -> Option<(Mark, int)> {
    match first_from(b, seq!['`'], i + 1) {
        Some(e) => if e > i + 1 {
            Some((Mark::Code(b.subrange(i + 1, e)), e + 1))
        } else {
            None
        },
        None => None,
    }
}

/// `[text](url)` at `i`, with the position after it.
pub open spec fn link_at(b: Seq<char>, i: int) -> Option<(Mark, int)> {
    match first_from(b, seq![']'], i + 1) {
        Some(e) => {
            let text = b.subrange(i + 1, e);
            if text.len() > 0 && !text.contains('[') && stands_at(b, seq!['('], e + 1) {
                match first_from(b, seq![')'], e + 2) {
                    Some(f) => if link_target(b.subrange(e + 2, f)) {
                        Some((Mark::Link(text, b.subrange(e + 2, f)), f + 1))
                    } else {
                        None
                    },
                    None => None,
                }
            } else {
                None
            }
        },
        None => None,
    }
}

/// The mark that starts at `i`, if one does, with the position after it.
pub open spec fn mark_at(b: Seq<char>, i: int) -> Option<(Mark, int)> {
    let c = b[i];
    if opens_break(b, i) {
        Some((Mark::Break(b.subrange(i, break_end(b, i))), break_end(b, i)))
    } else if c == '{' {
        variable_at(b, i)
    } else if c == '*' {
        if bold_at(b, i) is Some {
            bold_at(b, i)
        } else {
            italic_at(b, i)
        }
    } else if c == '`' {
        code_at(b, i)
    } else if c == '[' {
        link_at(b, i)
    } else {
        None
    }
}

pub proof fn lemma_break_end(b: Seq<char>, i: int)
    requires
        0 <= i <= b.len(),
    ensures
        i <= break_end(b, i) <= b.len(),
        i < b.len() && break_char(b[i]) ==> break_end(b, i) > i,
    decreases b.len() - i,
{
    if i < b.len() && break_char(b[i]) {
        lemma_break_end(b, i + 1);
    }
}

pub proof fn lemma_mark_at(b: Seq<char>, i: int)
    requires
        0 <= i < b.len(),
    ensures
        mark_at(b, i) matches Some((m, next)) ==> i < next <= b.len(),
{
    lemma_break_end(b, i);
    lemma_first_from(b, seq!['}'], i + 1);
    lemma_first_from(b, seq!['*', '*'], i + 2);
    lemma_first_from(b, seq!['*'], i + 1);
    lemma_first_from(b, seq!['`'], i + 1);
    lemma_first_from(b, seq![']'], i + 1);
    if let Some(e) = first_from(b, seq![']'], i + 1) {
        lemma_first_from(b, seq![')'], e + 2);
    }
}

/// The pieces of `b` from `plain` on, where no mark starts before `i`.
pub open spec fn marks_from(b: Seq<char>, i: int, plain: int) -> Seq<Mark>
    decreases b.len() - i,
{
    if i < 0 || i >= b.len() {
        seq![Mark::Plain(b.skip(plain))]
    } else {
        proof {
            lemma_mark_at(b, i);
        }
        match mark_at(b, i) {
            Some((m, next)) => seq![Mark::Plain(b.subrange(plain, i)), m] + marks_from(b, next, next),
            None => marks_from(b, i + 1, plain),
        }
    }
}

/// The pieces of a body, in order.
pub open spec fn marks(b: Seq<char>) -> Seq<Mark> {
    marks_from(b, 0, 0)
}

/// A piece as HTML, where matches of `q` are highlighted.
pub open spec fn mark_html(m: Mark, q: Seq<char>) -> Seq<char> {
    match m {
        Mark::Plain(s) => highlighted(s, q),
        Mark::Break(_) => LINE_SEPARATOR@,
        Mark::Variable(s) => "<span class=\"preview-var\">{"@ + escaped(s) + "}</span>"@,
        Mark::Bold(s) => "<strong>"@ + highlighted(s, q) + "</strong>"@,
        Mark::Italic(s) => "<em>"@ + highlighted(s, q) + "</em>"@,
        Mark::Code(s) => "<code>"@ + escaped(s) + "</code>"@,
        Mark::Link(s, url) => if safe_url(url) {
            "<a href=\""@ + escaped(url) + "\" target=\"_blank\" rel=\"noopener noreferrer\">"@
                + highlighted(s, q) + "</a>"@
        } else {
            highlighted(s, q)
        },
    }
}

/// `out` with the pieces from `k` on written after it. A line break is written
/// as a separator only where something stands before it.
pub open spec fn written_after(out: Seq<char>, ms: Seq<Mark>, q: Seq<char>) -> Seq<char>
    decreases ms.len(),
{
    if ms.len() == 0 {
        out
    } else {
        let skip = ms[0] is Break && out.len() == 0;
        written_after(
            if skip {
                out
            } else {
                out + mark_html(ms[0], q)
            },
            ms.skip(1),
            q,
        )
    }
}

/// `s` without one separator at its end.
pub open spec fn without_last_separator(s: Seq<char>) -> Seq<char> {
    if LINE_SEPARATOR@.is_suffix_of(s) {
        s.take(s.len() - LINE_SEPARATOR@.len())
    } else {
        s
    }
}

/// The preview of a body.
pub open spec fn preview(body: Seq<char>, q: Seq<char>) -> Seq<char> {
    without_last_separator(written_after(Seq::<char>::empty(), marks(body), q))
}

proof fn lemma_written_two(out: Seq<char>, x: Mark, y: Mark, rest: Seq<Mark>, q: Seq<char>)
    requires
        x is Plain,
    ensures
        written_after(out, seq![x, y] + rest, q) == ({
            let o1 = out + mark_html(x, q);
            written_after(
                if y is Break && o1.len() == 0 {
                    o1
                } else {
                    o1 + mark_html(y, q)
                },
                rest,
                q,
            )
        }),
{
    let all = seq![x, y] + rest;
    assert(all.skip(1) =~= seq![y] + rest);
    assert(all.skip(1).skip(1) =~= rest);
    let o1 = out + mark_html(x, q);
    assert(written_after(out, all, q) == written_after(o1, all.skip(1), q));
    let o2 = if y is Break && o1.len() == 0 {
        o1
    } else {
        o1 + mark_html(y, q)
    };
    assert(written_after(o1, all.skip(1), q) == written_after(o2, rest, q));
}

fn one(c: char) -> (r: Vec<char>)
    ensures
        r@ == seq![c],
{
    let mut v: Vec<char> = Vec::new();
    v.push(c);
    v
}

/// A piece of a body with its text, as the preview is being written.
enum Found {
    Break(usize),
    Variable(usize),
    Bold(usize),
    Italic(usize),
    Code(usize),
    Link(usize, usize),
    Nothing,
}

/// What `f` says of the mark at `i`.
spec fn found_mark(b: Seq<char>, i: int, f: Found) -> Option<(Mark, int)> {
    match f {
        Found::Break(e) => Some((Mark::Break(b.subrange(i, e as int)), e as int)),
        Found::Variable(e) => Some((Mark::Variable(b.subrange(i + 1, e as int)), e + 1)),
        Found::Bold(e) => Some((Mark::Bold(b.subrange(i + 2, e as int)), e + 2)),
        Found::Italic(e) => Some((Mark::Italic(b.subrange(i + 1, e as int)), e + 1)),
        Found::Code(e) => Some((Mark::Code(b.subrange(i + 1, e as int)), e + 1)),
        Found::Link(e, f) => Some(
            (Mark::Link(b.subrange(i + 1, e as int), b.subrange(e + 2, f as int)), f + 1),
        ),
        Found::Nothing => None,
    }
}

/// The places that `f` names lie in order within the body.
spec fn found_fits(b: Seq<char>, i: int, f: Found) -> bool {
    match f {
        Found::Break(e) => i < e <= b.len(),
        Found::Variable(e) => i + 1 <= e < b.len(),
        Found::Bold(e) => i + 2 <= e && e + 2 <= b.len(),
        Found::Italic(e) => i + 1 <= e < b.len(),
        Found::Code(e) => i + 1 <= e < b.len(),
        Found::Link(e, f) => i + 1 <= e && e + 2 <= f < b.len(),
        Found::Nothing => true,
    }
}

fn all_name_chars(v: &Vec<char>, from: usize, to: usize) -> (r: bool)
    requires
        from <= to <= v@.len(),
    ensures
        r == variable_name(v@.subrange(from as int, to as int)),
{
    let ghost s = v@.subrange(from as int, to as int);
    if from == to {
        return false;
    }
    for k in from..to
        invariant
            from <= to <= v@.len(),
            s == v@.subrange(from as int, to as int),
            forall|j: int| from <= j < k ==> name_char(#[trigger] v@[j]),
    {
        let c = v[k];
        let ok = ('a' <= c && c <= 'z') || ('A' <= c && c <= 'Z') || ('0' <= c && c <= '9') || c
            == '_' || c == '-' || c == '.';
        if !ok {
            assert(s[k - from] == c);
            return false;
        }
    }
    assert forall|j: int| 0 <= j < s.len() implies name_char(#[trigger] s[j]) by {
        assert(s[j] == v@[from + j]);
    }
    true
}

fn no_white_space(v: &Vec<char>, from: usize, to: usize) -> (r: bool)
    requires
        from <= to <= v@.len(),
    ensures
        r == link_target(v@.subrange(from as int, to as int)),
{
    let ghost s = v@.subrange(from as int, to as int);
    if from == to {
        return false;
    }
    for k in from..to
        invariant
            from <= to <= v@.len(),
            s == v@.subrange(from as int, to as int),
            forall|j: int| from <= j < k ==> !white_space(#[trigger] v@[j]),
    {
        if is_whitespace(v[k]) {
            assert(white_space(s[k - from]));
            return false;
        }
    }
    assert forall|j: int| 0 <= j < s.len() implies !white_space(#[trigger] s[j]) by {
        assert(s[j] == v@[from + j]);
    }
    true
}

fn holds_char(v: &Vec<char>, from: usize, to: usize, c: char) -> (r: bool)
    requires
        from <= to <= v@.len(),
    ensures
        r == v@.subrange(from as int, to as int).contains(c),
{
    let ghost s = v@.subrange(from as int, to as int);
    for k in from..to
        invariant
            from <= to <= v@.len(),
            s == v@.subrange(from as int, to as int),
            forall|j: int| from <= j < k ==> #[trigger] v@[j] != c,
    {
        if v[k] == c {
            assert(s[k - from] == c);
            return true;
        }
    }
    assert forall|j: int| 0 <= j < s.len() implies #[trigger] s[j] != c by {
        assert(s[j] == v@[from + j]);
    }
    false
}

fn find_break_end(v: &Vec<char>, i: usize) -> (r: usize)
    requires
        i < v@.len(),
        break_char(v@[i as int]),
    ensures
        i < r <= v@.len(),
        r == break_end(v@, i as int),
{
    let n: usize = v.len();
    let mut j: usize = i + 1;
    while j < n && (v[j] == '\n' || v[j] == '\r' || v[j] == ' ' || v[j] == '\t')
        invariant
            n == v@.len(),
            i < j <= n,
            break_end(v@, i as int) == break_end(v@, j as int),
        decreases n - j,
    {
        j = j + 1;
    }
    j
}

fn starts_break(v: &Vec<char>, i: usize) -> (r: bool)
    requires
        i < v@.len(),
    ensures
        r == opens_break(v@, i as int),
{
    let n: usize = v.len();
    let mut j: usize = i;
    while j < n && (v[j] == ' ' || v[j] == '\t')
        invariant
            n == v@.len(),
            i <= j <= n,
            opens_break(v@, i as int) == opens_break(v@, j as int),
        decreases n - j,
    {
        j = j + 1;
    }
    j < n && (v[j] == '\n' || v[j] == '\r')
}

fn find_bold(v: &Vec<char>, i: usize) -> (r: Found)
    requires
        i < v@.len(),
    ensures
        found_mark(v@, i as int, r) == bold_at(v@, i as int),
        found_fits(v@, i as int, r),
{
    let n: usize = v.len();
    let mut two: Vec<char> = Vec::new();
    two.push('*');
    two.push('*');
    assert(two@ =~= seq!['*', '*']);
    if i + 1 < n && v[i] == '*' && v[i + 1] == '*' {
        assert(v@.subrange(i as int, i + 2) =~= seq!['*', '*']);
        match find_from(v, &two, i + 2) {
            Some(e) => {
                if e > i + 2 {
                    return Found::Bold(e);
                }
            },
            None => {},
        }
        Found::Nothing
    } else {
        proof {
            if stands_at(v@, seq!['*', '*'], i as int) {
                assert(v@.subrange(i as int, i + 2)[0] == v@[i as int]);
                assert(v@.subrange(i as int, i + 2)[1] == v@[i + 1]);
            }
        }
        Found::Nothing
    }
}

fn find_link(v: &Vec<char>, i: usize) -> (r: Found)
    requires
        i < v@.len(),
    ensures
        found_mark(v@, i as int, r) == link_at(v@, i as int),
        found_fits(v@, i as int, r),
{
    let n: usize = v.len();
    let close = one(']');
    match find_from(v, &close, i + 1) {
        Some(e) => {
            if e == i + 1 || holds_char(v, i + 1, e, '[') {
                return Found::Nothing;
            }
            if e + 1 < n && v[e + 1] == '(' {
                assert(v@.subrange(e + 1, e + 2) =~= seq!['(']);
                let paren = one(')');
                match find_from(v, &paren, e + 2) {
                    Some(f) => {
                        if no_white_space(v, e + 2, f) {
                            return Found::Link(e, f);
                        }
                    },
                    None => {},
                }
                Found::Nothing
            } else {
                proof {
                    if stands_at(v@, seq!['('], e + 1) {
                        assert(v@.subrange(e + 1, e + 2)[0] == v@[e + 1]);
                    }
                }
                Found::Nothing
            }
        },
        None => Found::Nothing,
    }
}

fn find_mark(v: &Vec<char>, i: usize) -> (r: Found)
    requires
        i < v@.len(),
    ensures
        found_mark(v@, i as int, r) == mark_at(v@, i as int),
        found_fits(v@, i as int, r),
{
    let n: usize = v.len();
    let c = v[i];
    if starts_break(v, i) {
        Found::Break(find_break_end(v, i))
    } else if c == '{' {
        let close = one('}');
        match find_from(v, &close, i + 1) {
            Some(e) => {
                if all_name_chars(v, i + 1, e) {
                    return Found::Variable(e);
                }
            },
            None => {},
        }
        Found::Nothing
    } else if c == '*' {
        let bold = find_bold(v, i);
        if let Found::Bold(e) = bold {
            return Found::Bold(e);
        }
        let star = one('*');
        match find_from(v, &star, i + 1) {
            Some(e) => {
                if e > i + 1 && !holds_char(v, i + 1, e, '\n') {
                    return Found::Italic(e);
                }
            },
            None => {},
        }
        Found::Nothing
    } else if c == '`' {
        let tick = one('`');
        match find_from(v, &tick, i + 1) {
            Some(e) => {
                if e > i + 1 {
                    return Found::Code(e);
                }
            },
            None => {},
        }
        Found::Nothing
    } else if c == '[' {
        find_link(v, i)
    } else {
        Found::Nothing
    }
}

/// Whether a link may point at `url`.
fn is_safe_url(url: &str) -> (r: bool)
    ensures
        r == safe_url(url@),
{
    starts_with(url, "http://") || starts_with(url, "https://") || starts_with(url, "mailto:")
}

/// The HTML of a mark that is not a line break, and the position after it.
fn found_html(v: &Vec<char>, i: usize, f: &Found, q: &str) -> (r: (String, usize))
    requires
        i < v@.len(),
        found_fits(v@, i as int, *f),
        !(f is Nothing),
        !(f is Break),
    ensures
        found_mark(v@, i as int, *f) matches Some((m, next)) && r.0@ == mark_html(m, q@) && r.1
            == next,
{
    let n: usize = v.len();
    match f {
        Found::Variable(e) => {
            let s = text_between(v, i + 1, *e);
            let x = escape_html(s.as_str());
            let mut out: String = "<span class=\"preview-var\">{".to_owned();
            out.push_str(x.as_str());
            out.push_str("}</span>");
            (out, *e + 1)
        },
        Found::Bold(e) => {
            let s = text_between(v, i + 2, *e);
            let x = highlight_matches(s.as_str(), q);
            let mut out: String = "<strong>".to_owned();
            out.push_str(x.as_str());
            out.push_str("</strong>");
            (out, *e + 2)
        },
        Found::Italic(e) => {
            let s = text_between(v, i + 1, *e);
            let x = highlight_matches(s.as_str(), q);
            let mut out: String = "<em>".to_owned();
            out.push_str(x.as_str());
            out.push_str("</em>");
            (out, *e + 1)
        },
        Found::Code(e) => {
            let s = text_between(v, i + 1, *e);
            let x = escape_html(s.as_str());
            let mut out: String = "<code>".to_owned();
            out.push_str(x.as_str());
            out.push_str("</code>");
            (out, *e + 1)
        },
        Found::Link(e, f) => {
            let s = text_between(v, i + 1, *e);
            let url = text_between(v, *e + 2, *f);
            let x = highlight_matches(s.as_str(), q);
            if is_safe_url(url.as_str()) {
                let u = escape_html(url.as_str());
                let mut out: String = "<a href=\"".to_owned();
                out.push_str(u.as_str());
                out.push_str("\" target=\"_blank\" rel=\"noopener noreferrer\">");
                out.push_str(x.as_str());
                out.push_str("</a>");
                (out, *f + 1)
            } else {
                (x, *f + 1)
            }
        },
        _ => (String::new(), i),
    }
}

/// Renders a snippet body as inline HTML for the list: `{variable}` chips,
/// `**bold**`, `*italic*`, `` `code` `` and `[text](url)` links, with line
/// breaks shown as separators and the matches of `q` highlighted. Each piece is
/// escaped before markup is added.
pub fn render_body_with_vars(body: &str, q: &str) -> (r: String)
    ensures
        r@ == preview(body@, q@),
{
    let v: Vec<char> = chars_of(body);
    let n: usize = v.len();
    let mut out: String = String::new();
    let mut plain: usize = 0;
    let mut i: usize = 0;
    let ghost all = written_after(Seq::<char>::empty(), marks(v@), q@);
    while i < n
        invariant
            n == v@.len(),
            plain <= i <= n,
            written_after(out@, marks_from(v@, i as int, plain as int), q@) == all,
        decreases n - i,
    {
        let f = find_mark(&v, i);
        proof {
            lemma_mark_at(v@, i as int);
        }
        if let Found::Nothing = f {
            i = i + 1;
        } else {
            let run = text_between(&v, plain, i);
            let h = highlight_matches(run.as_str(), q);
            proof {
                let (m, next) = mark_at(v@, i as int)->0;
                lemma_written_two(
                    out@,
                    Mark::Plain(v@.subrange(plain as int, i as int)),
                    m,
                    marks_from(v@, next, next),
                    q@,
                );
            }
            out.push_str(h.as_str());
            if let Found::Break(e) = f {
                let blank = is_blank(out.as_str());
                if !blank {
                    out.push_str(LINE_SEPARATOR);
                }
                i = e;
            } else {
                let (x, next) = found_html(&v, i, &f, q);
                out.push_str(x.as_str());
                i = next;
            }
            plain = i;
        }
    }
    let run = text_between(&v, plain, n);
    assert(v@.subrange(plain as int, n as int) =~= v@.skip(plain as int));
    let h = highlight_matches(run.as_str(), q);
    proof {
        let last = seq![Mark::Plain(v@.skip(plain as int))];
        assert(last.skip(1) =~= Seq::<Mark>::empty());
        assert(written_after(out@, last, q@) == written_after(
            out@ + mark_html(last[0], q@),
            last.skip(1),
            q@,
        ));
    }
    out.push_str(h.as_str());
    if ends_with(out.as_str(), LINE_SEPARATOR) {
        let o: Vec<char> = chars_of(out.as_str());
        let sep: Vec<char> = chars_of(LINE_SEPARATOR);
        let keep: usize = o.len() - sep.len();
        assert(o@.subrange(0, keep as int) =~= o@.take(keep as int));
        text_between(&o, 0, keep)
    } else {
        out
    }
}

fn is_blank(s: &str) -> (r: bool)
    ensures
        r == (s@.len() == 0),
{
    s.unicode_len() == 0
}

/// How a piece was written in the body.
pub open spec fn mark_source(m: Mark) -> Seq<char> {
    match m {
        Mark::Plain(s) => s,
        Mark::Break(s) => s,
        Mark::Variable(s) => seq!['{'] + s + seq!['}'],
        Mark::Bold(s) => seq!['*', '*'] + s + seq!['*', '*'],
        Mark::Italic(s) => seq!['*'] + s + seq!['*'],
        Mark::Code(s) => seq!['`'] + s + seq!['`'],
        Mark::Link(s, url) => seq!['['] + s + seq![']', '('] + url + seq![')'],
    }
}

/// The pieces as they were written, one after the other.
pub open spec fn marks_source(ms: Seq<Mark>) -> Seq<char>
    decreases ms.len(),
{
    if ms.len() == 0 {
        Seq::<char>::empty()
    } else {
        mark_source(ms[0]) + marks_source(ms.skip(1))
    }
}

/// The preview reads every character of the body exactly once: the pieces, as
/// they were written, make up the body.
pub proof fn law_marks_cover_the_body(body: Seq<char>)
    ensures
        marks_source(marks(body)) == body,
{
    lemma_marks_cover(body, 0, 0);
    assert(body.skip(0) =~= body);
}

proof fn lemma_mark_source(b: Seq<char>, i: int)
    requires
        0 <= i < b.len(),
    ensures
        mark_at(b, i) matches Some((m, next)) ==> mark_source(m) == b.subrange(i, next),
{
    lemma_mark_at(b, i);
    if let Some((m, next)) = mark_at(b, i) {
        if b[i] == '{' {
            lemma_first_from(b, seq!['}'], i + 1);
            let e = next - 1;
            assert(b.subrange(e, e + 1)[0] == b[e]);
            assert(mark_source(m) =~= b.subrange(i, next));
        } else if b[i] == '*' {
            lemma_first_from(b, seq!['*', '*'], i + 2);
            lemma_first_from(b, seq!['*'], i + 1);
            if bold_at(b, i) is Some {
                let e = next - 2;
                assert(b.subrange(i, i + 2)[1] == b[i + 1]);
                assert(b.subrange(e, e + 2)[0] == b[e]);
                assert(b.subrange(e, e + 2)[1] == b[e + 1]);
                assert(mark_source(m) =~= b.subrange(i, next));
            } else {
                let e = next - 1;
                assert(b.subrange(e, e + 1)[0] == b[e]);
                assert(mark_source(m) =~= b.subrange(i, next));
            }
        } else if b[i] == '`' {
            lemma_first_from(b, seq!['`'], i + 1);
            let e = next - 1;
            assert(b.subrange(e, e + 1)[0] == b[e]);
            assert(mark_source(m) =~= b.subrange(i, next));
        } else if b[i] == '[' {
            lemma_first_from(b, seq![']'], i + 1);
            let e = first_from(b, seq![']'], i + 1)->0;
            lemma_first_from(b, seq![')'], e + 2);
            let f = next - 1;
            assert(b.subrange(e, e + 1)[0] == b[e]);
            assert(b.subrange(e + 1, e + 2)[0] == b[e + 1]);
            assert(b.subrange(f, f + 1)[0] == b[f]);
            assert(mark_source(m) =~= b.subrange(i, next));
        }
    }
}

proof fn lemma_marks_cover(b: Seq<char>, i: int, plain: int)
    requires
        0 <= plain <= i <= b.len(),
    ensures
        marks_source(marks_from(b, i, plain)) == b.skip(plain),
    decreases b.len() - i,
{
    if i >= b.len() {
        let last = seq![Mark::Plain(b.skip(plain))];
        assert(last.skip(1) =~= Seq::<Mark>::empty());
        assert(marks_source(last.skip(1)) =~= Seq::<char>::empty());
        assert(marks_source(last) =~= b.skip(plain));
    } else {
        lemma_mark_at(b, i);
        match mark_at(b, i) {
            Some((m, next)) => {
                lemma_mark_source(b, i);
                lemma_marks_cover(b, next, next);
                let x = Mark::Plain(b.subrange(plain, i));
                let rest = marks_from(b, next, next);
                let all = seq![x, m] + rest;
                assert(all.skip(1) =~= seq![m] + rest);
                assert(all.skip(1).skip(1) =~= rest);
                assert(marks_source(all.skip(1)) == mark_source(m) + marks_source(rest));
                assert(b.subrange(plain, i) + (b.subrange(i, next) + b.skip(next)) =~= b.skip(
                    plain,
                ));
            },
            None => {
                lemma_marks_cover(b, i + 1, plain);
            },
        }
    }
}

/// A character that could start a mark.
pub open spec fn mark_char(c: char) -> bool {
    line_end(c) || c == '{' || c == '*' || c == '`' || c == '['
}

proof fn lemma_no_break(b: Seq<char>, i: int)
    requires
        forall|k: int| 0 <= k < b.len() ==> !mark_char(#[trigger] b[k]),
    ensures
        !opens_break(b, i),
    decreases b.len() - i,
{
    if 0 <= i < b.len() {
        lemma_no_break(b, i + 1);
    }
}

proof fn lemma_no_marks(b: Seq<char>, i: int)
    requires
        0 <= i <= b.len(),
        forall|k: int| 0 <= k < b.len() ==> !mark_char(#[trigger] b[k]),
    ensures
        marks_from(b, i, 0) == seq![Mark::Plain(b)],
    decreases b.len() - i,
{
    if i < b.len() {
        lemma_no_break(b, i);
        assert(!mark_char(b[i]));
        lemma_no_marks(b, i + 1);
    } else {
        assert(b.skip(0) =~= b);
    }
}

/// Whether a text ends otherwise than in a line separator.
spec fn ends_clear(s: Seq<char>) -> bool {
    s.len() == 0 || s.last() != '>' || (s.len() >= 2 && s[s.len() - 2] == 'g')
}

proof fn lemma_ends_clear(segs: Seq<(bool, Seq<char>)>)
    ensures
        ends_clear(segments_html(segs)),
    decreases segs.len(),
{
    if segs.len() > 0 {
        reveal_strlit("</strong>");
        lemma_ends_clear(segs.skip(1));
        law_escaped_text_holds_no_markup(segs[0].1);
        let a = segment_html(segs[0]);
        let b = segments_html(segs.skip(1));
        assert(ends_clear(a)) by {
            let e = escaped(segs[0].1);
            if segs[0].0 {
                let n = a.len() - MATCH_CLOSE@.len();
                assert(a[a.len() - 2] == MATCH_CLOSE@[a.len() - 2 - n]);
            } else if e.len() > 0 {
                assert(!markup_char(e[e.len() - 1]));
            }
        }
        if b.len() > 0 {
            assert((a + b).last() == b.last());
            if b.len() >= 2 {
                assert((a + b)[(a + b).len() - 2] == b[b.len() - 2]);
            }
        } else {
            assert(a + b =~= a);
        }
    }
}

/// A body without marks and line breaks is previewed as its text, with the matches
/// highlighted.
pub proof fn law_plain_body_is_highlighted(body: Seq<char>, q: Seq<char>)
    requires
        forall|k: int| 0 <= k < body.len() ==> !mark_char(#[trigger] body[k]),
    ensures
        preview(body, q) == highlighted(body, q),
{
    lemma_no_marks(body, 0);
    let ms = seq![Mark::Plain(body)];
    let h = highlighted(body, q);
    let none = Seq::<char>::empty();
    assert(ms.skip(1) =~= Seq::<Mark>::empty());
    assert(none + mark_html(ms[0], q) =~= h);
    assert(written_after(none, ms, q) == written_after(h, ms.skip(1), q));
    assert(written_after(h, ms.skip(1), q) == h);
    lemma_ends_clear(segments(body, q));
    reveal_strlit("<span class=\"lib-sep\">|</span>");
    let sep = LINE_SEPARATOR@;
    if sep.is_suffix_of(h) {
        let tail = h.subrange(h.len() - sep.len(), h.len() as int);
        assert(tail == sep);
        assert(tail[sep.len() - 1] == h[h.len() - 1]);
        assert(tail[sep.len() - 2] == h[h.len() - 2]);
    }
}

/// A text in which nothing could start a mark or break the line.
pub open spec fn unmarked(s: Seq<char>) -> bool {
    forall|k: int|
        0 <= k < s.len() ==> (#[trigger] s[k]) != '\n' && s[k] != '\r' && s[k] != '{' && s[k] != '*'
            && s[k] != '`' && s[k] != '['
}

/// A text without line breaks.
spec fn one_line(s: Seq<char>) -> bool {
    forall|k: int| 0 <= k < s.len() ==> (#[trigger] s[k]) != '\n' && s[k] != '\r'
}

proof fn lemma_one_line(b: Seq<char>, i: int)
    requires
        one_line(b),
    ensures
        !opens_break(b, i),
    decreases b.len() - i,
{
    if 0 <= i < b.len() {
        lemma_one_line(b, i + 1);
    }
}

/// Where no mark starts from `i` up to `k`, the reading goes on at `k`.
proof fn lemma_pass(b: Seq<char>, i: int, k: int, plain: int)
    requires
        0 <= i <= k <= b.len(),
        forall|j: int| i <= j < k ==> (#[trigger] mark_at(b, j)) is None,
    ensures
        marks_from(b, i, plain) == marks_from(b, k, plain),
    decreases k - i,
{
    if i < k {
        assert(mark_at(b, i) is None);
        lemma_pass(b, i + 1, k, plain);
    }
}

/// The first place of a text that stands at `k` and nowhere from `from` up to there.
proof fn lemma_first_is(hay: Seq<char>, needle: Seq<char>, from: int, k: int)
    requires
        0 <= from <= k,
        stands_at(hay, needle, k),
        forall|j: int| from <= j < k ==> !#[trigger] stands_at(hay, needle, j),
    ensures
        first_from(hay, needle, from) == Some(k),
{
    lemma_first_from(hay, needle, from);
}

/// A body with one mark between two texts without any.
proof fn lemma_one_mark(a: Seq<char>, x: Seq<char>, b: Seq<char>, m: Mark, q: Seq<char>)
    requires
        x.len() > 0,
        unmarked(a),
        unmarked(b),
        one_line(x),
        !(m is Break),
        mark_at(a + x + b, a.len() as int) == Some((m, (a.len() + x.len()) as int)),
    ensures
        preview(a + x + b, q) == without_last_separator(
            highlighted(a, q) + mark_html(m, q) + highlighted(b, q),
        ),
{
    let s = a + x + b;
    let n = a.len() as int;
    let e = n + x.len();
    assert(one_line(s)) by {
        assert forall|k: int| 0 <= k < s.len() implies (#[trigger] s[k]) != '\n' && s[k] != '\r' by {
            if k < n {
                assert(s[k] == a[k]);
            } else if k < e {
                assert(s[k] == x[k - n]);
            } else {
                assert(s[k] == b[k - e]);
            }
        }
    }
    assert forall|j: int| 0 <= j < n implies (#[trigger] mark_at(s, j)) is None by {
        lemma_one_line(s, j);
        assert(s[j] == a[j]);
    }
    assert forall|j: int| e <= j < s.len() implies (#[trigger] mark_at(s, j)) is None by {
        lemma_one_line(s, j);
        assert(s[j] == b[j - e]);
    }
    lemma_pass(s, 0, n, 0);
    lemma_pass(s, e, s.len() as int, e);
    assert(s.subrange(0, n) =~= a);
    assert(s.skip(e) =~= b);
    let last = seq![Mark::Plain(b)];
    assert(marks_from(s, s.len() as int, e) == last);
    assert(marks(s) == seq![Mark::Plain(a), m] + last);
    let none = Seq::<char>::empty();
    lemma_written_two(none, Mark::Plain(a), m, last, q);
    let o1 = none + highlighted(a, q);
    assert(o1 =~= highlighted(a, q));
    let o2 = o1 + mark_html(m, q);
    assert(last.skip(1) =~= Seq::<Mark>::empty());
    assert(written_after(o2, last, q) == written_after(
        o2 + highlighted(b, q),
        last.skip(1),
        q,
    ));
}

/// Nothing is cut off where the end is no separator.
proof fn lemma_no_separator_cut(x: Seq<char>, b: Seq<char>, q: Seq<char>)
    requires
        x.len() >= 8,
        x[x.len() - 2] != 'n' || x[x.len() - 8] != '|',
    ensures
        without_last_separator(x + highlighted(b, q)) == x + highlighted(b, q),
{
    reveal_strlit("<span class=\"lib-sep\">|</span>");
    let sep = LINE_SEPARATOR@;
    let h = highlighted(b, q);
    let s = x + h;
    lemma_ends_clear(segments(b, q));
    if sep.is_suffix_of(s) {
        let tail = s.subrange(s.len() - sep.len(), s.len() as int);
        assert(tail == sep);
        let n = sep.len();
        assert(tail[n - 1] == s[s.len() - 1]);
        assert(tail[n - 2] == s[s.len() - 2]);
        assert(tail[n - 8] == s[s.len() - 8]);
        if h.len() > 0 {
            assert(s[s.len() - 1] == h[h.len() - 1]);
            if h.len() >= 2 {
                assert(s[s.len() - 2] == h[h.len() - 2]);
            }
        } else {
            assert(s =~= x);
        }
    }
}

/// A name of ASCII letters, digits, underscores, hyphens and dots in braces is shown as the
/// chip of a variable, between what stands before and after it.
pub proof fn law_variables_become_chips(
    a: Seq<char>,
    name: Seq<char>,
    b: Seq<char>,
    q: Seq<char>,
)
    requires
        unmarked(a),
        unmarked(b),
        name.len() > 0,
        forall|k: int|
            0 <= k < name.len() ==> ('a' <= #[trigger] name[k] <= 'z' || 'A' <= name[k] <= 'Z'
                || '0' <= name[k] <= '9' || name[k] == '_' || name[k] == '-' || name[k] == '.'),
    ensures
        marks(a + (seq!['{'] + name + seq!['}']) + b).contains(Mark::Variable(name)),
        preview(a + (seq!['{'] + name + seq!['}']) + b, q) == highlighted(a, q)
            + "<span class=\"preview-var\">{"@ + name + "}</span>"@ + highlighted(b, q),
{
    let x = seq!['{'] + name + seq!['}'];
    let s = a + x + b;
    let n = a.len() as int;
    let e = n + 1 + name.len();
    let close = seq!['}'];
    assert(s[n] == x[0]);
    assert(s[e] == x[x.len() - 1]);
    assert(s.subrange(e, e + 1) =~= close);
    assert forall|j: int| n + 1 <= j < e implies !#[trigger] stands_at(s, close, j) by {
        if stands_at(s, close, j) {
            assert(s.subrange(j, j + 1)[0] == s[j]);
            assert(s[j] == name[j - n - 1]);
        }
    }
    lemma_first_is(s, close, n + 1, e);
    assert(s.subrange(n + 1, e) =~= name);
    assert(one_line(s)) by {
        assert forall|k: int| 0 <= k < s.len() implies (#[trigger] s[k]) != '\n' && s[k] != '\r' by {
            if k < n {
                assert(s[k] == a[k]);
            } else if k < e + 1 {
                assert(s[k] == x[k - n]);
                if 0 < k - n && k < e {
                    assert(s[k] == name[k - n - 1]);
                }
            } else {
                assert(s[k] == b[k - e - 1]);
            }
        }
    }
    lemma_one_line(s, n);
    assert(one_line(x)) by {
        assert forall|k: int| 0 <= k < x.len() implies (#[trigger] x[k]) != '\n' && x[k] != '\r' by {
            assert(x[k] == s[n + k]);
        }
    }
    lemma_one_mark(a, x, b, Mark::Variable(name), q);
    assert(escaped(name) == name) by {
        assert forall|k: int| 0 <= k < name.len() implies !markup_char(#[trigger] name[k])
            && name[k] != '&' by {}
        law_plain_text_is_kept(name);
    }
    let open = "<span class=\"preview-var\">{"@;
    let end = "}</span>"@;
    reveal_strlit("}</span>");
    reveal_strlit("<span class=\"preview-var\">{");
    let chip = open + name + end;
    let head = highlighted(a, q) + chip;
    assert(head[head.len() - 8] == end[0]);
    lemma_no_separator_cut(head, b, q);
    assert(highlighted(a, q) + mark_html(Mark::Variable(name), q) =~= head);
    assert(head =~= highlighted(a, q) + open + name + end);
    lemma_pieces_of_one_mark(a, x, b, Mark::Variable(name));
}

/// The pieces of a body with one mark hold that mark.
proof fn lemma_pieces_of_one_mark(a: Seq<char>, x: Seq<char>, b: Seq<char>, m: Mark)
    requires
        x.len() > 0,
        unmarked(a),
        one_line(a + x + b),
        mark_at(a + x + b, a.len() as int) == Some((m, (a.len() + x.len()) as int)),
    ensures
        marks(a + x + b).contains(m),
{
    let s = a + x + b;
    let n = a.len() as int;
    assert forall|j: int| 0 <= j < n implies (#[trigger] mark_at(s, j)) is None by {
        lemma_one_line(s, j);
        assert(s[j] == a[j]);
    }
    lemma_pass(s, 0, n, 0);
    let rest = marks_from(s, n + x.len(), n + x.len());
    assert(marks(s) == seq![Mark::Plain(s.subrange(0, n)), m] + rest);
    assert(marks(s)[1] == m);
}

/// A text with a mark around it: the same bytes before and after it, between two texts
/// without marks.
proof fn lemma_wrapped(
    a: Seq<char>,
    w: Seq<char>,
    t: Seq<char>,
    b: Seq<char>,
)
    requires
        unmarked(a),
        unmarked(t),
        unmarked(b),
        t.len() > 0,
        w == seq!['*', '*'] || w == seq!['*'] || w == seq!['`'],
    ensures
        ({
            let s = a + (w + t + w) + b;
            let n = a.len() as int;
            let k = w.len() as int;
            &&& one_line(s)
            &&& one_line(w + t + w)
            &&& stands_at(s, w, n)
            &&& first_from(s, w, n + k) == Some(n + k + t.len())
            &&& s.subrange(n + k, n + k + t.len()) == t
            &&& !opens_break(s, n)
            &&& s[n] == w[0]
            &&& s[n + k] == t[0]
        }),
{
    let x = w + t + w;
    let s = a + x + b;
    let n = a.len() as int;
    let k = w.len() as int;
    let e = n + k + t.len();
    assert forall|i: int| 0 <= i < s.len() implies (#[trigger] s[i]) != '\n' && s[i] != '\r' by {
        if i < n {
            assert(s[i] == a[i]);
        } else if i < n + k {
            assert(s[i] == w[i - n]);
        } else if i < e {
            assert(s[i] == t[i - n - k]);
        } else if i < e + k {
            assert(s[i] == w[i - e]);
        } else {
            assert(s[i] == b[i - e - k]);
        }
    }
    assert(one_line(x)) by {
        assert forall|i: int| 0 <= i < x.len() implies (#[trigger] x[i]) != '\n' && x[i] != '\r' by {
            assert(x[i] == s[n + i]);
        }
    }
    assert(s.subrange(n, n + k) =~= w);
    assert(s.subrange(e, e + k) =~= w);
    assert(s.subrange(n + k, e) =~= t);
    assert forall|j: int| n + k <= j < e implies !#[trigger] stands_at(s, w, j) by {
        if stands_at(s, w, j) {
            assert(s.subrange(j, j + k)[0] == s[j]);
            assert(s[j] == t[j - n - k]);
        }
    }
    lemma_first_is(s, w, n + k, e);
    lemma_one_line(s, n);
    assert(s[n] == x[0]);
    assert(s[n + k] == t[0]);
}

/// Text between double asterisks is shown bold.
pub proof fn law_bold_is_shown(a: Seq<char>, t: Seq<char>, b: Seq<char>, q: Seq<char>)
    requires
        unmarked(a),
        unmarked(t),
        unmarked(b),
        t.len() > 0,
    ensures
        preview(a + (seq!['*', '*'] + t + seq!['*', '*']) + b, q) == highlighted(a, q) + "<strong>"@
            + highlighted(t, q) + "</strong>"@ + highlighted(b, q),
{
    let w = seq!['*', '*'];
    lemma_wrapped(a, w, t, b);
    let x = w + t + w;
    lemma_one_mark(a, x, b, Mark::Bold(t), q);
    reveal_strlit("<strong>");
    reveal_strlit("</strong>");
    let head = highlighted(a, q) + "<strong>"@ + highlighted(t, q) + "</strong>"@;
    assert(head =~= highlighted(a, q) + mark_html(Mark::Bold(t), q));
    assert(head[head.len() - 2] == "</strong>"@[7]);
    lemma_no_separator_cut(head, b, q);
}

/// Text between asterisks is shown in italics.
pub proof fn law_italics_are_shown(a: Seq<char>, t: Seq<char>, b: Seq<char>, q: Seq<char>)
    requires
        unmarked(a),
        unmarked(t),
        unmarked(b),
        t.len() > 0,
    ensures
        preview(a + (seq!['*'] + t + seq!['*']) + b, q) == highlighted(a, q) + "<em>"@ + highlighted(
            t,
            q,
        ) + "</em>"@ + highlighted(b, q),
{
    let w = seq!['*'];
    lemma_wrapped(a, w, t, b);
    let x = w + t + w;
    let s = a + x + b;
    let n = a.len() as int;
    if stands_at(s, seq!['*', '*'], n) {
        assert(s.subrange(n, n + 2)[1] == s[n + 1]);
        assert(s[n + 1] == t[0]);
    }
    assert(!t.contains('\n'));
    lemma_one_mark(a, x, b, Mark::Italic(t), q);
    reveal_strlit("<em>");
    reveal_strlit("</em>");
    let head = highlighted(a, q) + "<em>"@ + highlighted(t, q) + "</em>"@;
    assert(head =~= highlighted(a, q) + mark_html(Mark::Italic(t), q));
    assert(head[head.len() - 2] == "</em>"@[3]);
    lemma_no_separator_cut(head, b, q);
}

/// Text between backticks is shown as code, without matches marked in it.
pub proof fn law_code_is_shown(a: Seq<char>, t: Seq<char>, b: Seq<char>, q: Seq<char>)
    requires
        unmarked(a),
        unmarked(t),
        unmarked(b),
        t.len() > 0,
    ensures
        preview(a + (seq!['`'] + t + seq!['`']) + b, q) == highlighted(a, q) + "<code>"@ + escaped(t)
            + "</code>"@ + highlighted(b, q),
{
    let w = seq!['`'];
    lemma_wrapped(a, w, t, b);
    let x = w + t + w;
    lemma_one_mark(a, x, b, Mark::Code(t), q);
    reveal_strlit("<code>");
    reveal_strlit("</code>");
    let head = highlighted(a, q) + "<code>"@ + escaped(t) + "</code>"@;
    assert(head =~= highlighted(a, q) + mark_html(Mark::Code(t), q));
    assert(head[head.len() - 2] == "</code>"@[5]);
    lemma_no_separator_cut(head, b, q);
}

/// A text in brackets with an address in parentheses is shown as a link where the address
/// is one of the web or of a mailbox, and as the text alone elsewhere.
pub proof fn law_links_are_shown(
    a: Seq<char>,
    t: Seq<char>,
    url: Seq<char>,
    b: Seq<char>,
    q: Seq<char>,
)
    requires
        unmarked(a),
        unmarked(t),
        unmarked(b),
        t.len() > 0,
        !t.contains(']'),
        url.len() > 0,
        forall|k: int| 0 <= k < url.len() ==> !white_space(#[trigger] url[k]) && url[k] != ')',
    ensures
        ("http://"@.is_prefix_of(url) || "https://"@.is_prefix_of(url) || "mailto:"@.is_prefix_of(
            url,
        )) ==> preview(a + (seq!['['] + t + seq![']', '('] + url + seq![')']) + b, q)
            == highlighted(a, q) + "<a href=\""@ + escaped(url)
            + "\" target=\"_blank\" rel=\"noopener noreferrer\">"@ + highlighted(t, q) + "</a>"@
            + highlighted(b, q),
        !("http://"@.is_prefix_of(url) || "https://"@.is_prefix_of(url) || "mailto:"@.is_prefix_of(
            url,
        )) ==> preview(a + (seq!['['] + t + seq![']', '('] + url + seq![')']) + b, q)
            == without_last_separator(highlighted(a, q) + highlighted(t, q) + highlighted(b, q)),
{
    let x = seq!['['] + t + seq![']', '('] + url + seq![')'];
    let s = a + x + b;
    let n = a.len() as int;
    let e = n + 1 + t.len();
    let f = e + 2 + url.len();
    assert(one_line(s)) by {
        assert forall|i: int| 0 <= i < s.len() implies (#[trigger] s[i]) != '\n' && s[i] != '\r' by {
            if i < n {
                assert(s[i] == a[i]);
            } else if n < i && i < e {
                assert(s[i] == t[i - n - 1]);
            } else if e + 2 <= i && i < f {
                assert(s[i] == url[i - e - 2]);
            } else if i > f {
                assert(s[i] == b[i - f - 1]);
            } else {
                assert(s[i] == x[i - n]);
            }
        }
    }
    assert(one_line(x)) by {
        assert forall|i: int| 0 <= i < x.len() implies (#[trigger] x[i]) != '\n' && x[i] != '\r' by {
            assert(x[i] == s[n + i]);
        }
    }
    lemma_one_line(s, n);
    assert(s[n] == x[0]);
    let close = seq![']'];
    let paren = seq![')'];
    assert(s.subrange(e, e + 1) =~= close);
    assert(s.subrange(e + 1, e + 2) =~= seq!['(']);
    assert(s.subrange(f, f + 1) =~= paren);
    assert forall|j: int| n + 1 <= j < e implies !#[trigger] stands_at(s, close, j) by {
        if stands_at(s, close, j) {
            assert(s.subrange(j, j + 1)[0] == s[j]);
            assert(s[j] == t[j - n - 1]);
        }
    }
    assert forall|j: int| e + 2 <= j < f implies !#[trigger] stands_at(s, paren, j) by {
        if stands_at(s, paren, j) {
            assert(s.subrange(j, j + 1)[0] == s[j]);
            assert(s[j] == url[j - e - 2]);
        }
    }
    lemma_first_is(s, close, n + 1, e);
    lemma_first_is(s, paren, e + 2, f);
    assert(s.subrange(n + 1, e) =~= t);
    assert(s.subrange(e + 2, f) =~= url);
    assert(!t.contains('['));
    let m = Mark::Link(t, url);
    lemma_one_mark(a, x, b, m, q);
    if safe_url(url) {
        reveal_strlit("</a>");
        reveal_strlit("<a href=\"");
        reveal_strlit("\" target=\"_blank\" rel=\"noopener noreferrer\">");
        let head = highlighted(a, q) + "<a href=\""@ + escaped(url)
            + "\" target=\"_blank\" rel=\"noopener noreferrer\">"@ + highlighted(t, q) + "</a>"@;
        assert(head =~= highlighted(a, q) + mark_html(m, q));
        assert(head[head.len() - 2] == "</a>"@[2]);
        lemma_no_separator_cut(head, b, q);
    }
}

/// A blank or a line break.
spec fn gap_char(c: char) -> bool {
    c == ' ' || c == '\t' || c == '\n' || c == '\r'
}

proof fn lemma_opens_gap(b: Seq<char>, i: int, k: int)
    requires
        0 <= i <= k < b.len(),
        forall|j: int| i <= j < k ==> gap_char(#[trigger] b[j]),
        b[k] == '\n' || b[k] == '\r',
    ensures
        opens_break(b, i),
    decreases k - i,
{
    if i < k && b[i] != '\n' && b[i] != '\r' {
        lemma_opens_gap(b, i + 1, k);
    }
}

proof fn lemma_gap_ends(b: Seq<char>, i: int, e: int)
    requires
        0 <= i <= e <= b.len(),
        forall|j: int| i <= j < e ==> gap_char(#[trigger] b[j]),
        e == b.len() || !gap_char(b[e]),
    ensures
        break_end(b, i) == e,
    decreases e - i,
{
    if i < e {
        lemma_gap_ends(b, i + 1, e);
    }
}

proof fn lemma_gap_not_opened(b: Seq<char>, i: int, e: int)
    requires
        0 <= i < e <= b.len(),
        forall|j: int| i <= j < e ==> (#[trigger] b[j]) != '\n' && b[j] != '\r',
        e == b.len() || b[e - 1] != ' ' && b[e - 1] != '\t',
    ensures
        !opens_break(b, i),
    decreases e - i,
{
    if b[i] == ' ' || b[i] == '\t' {
        if i + 1 < e {
            lemma_gap_not_opened(b, i + 1, e);
        } else {
            assert(!opens_break(b, i + 1));
        }
    }
}

/// A run of blanks and line breaks between two lines is shown as one separator.
pub proof fn law_line_breaks_become_separators(
    a: Seq<char>,
    gap: Seq<char>,
    b: Seq<char>,
    q: Seq<char>,
)
    requires
        unmarked(a),
        unmarked(b),
        a.len() > 0,
        b.len() > 0,
        a.last() != ' ' && a.last() != '\t',
        b[0] != ' ' && b[0] != '\t',
        gap.contains('\n') || gap.contains('\r'),
        forall|k: int|
            0 <= k < gap.len() ==> (#[trigger] gap[k]) == ' ' || gap[k] == '\t' || gap[k] == '\n'
                || gap[k] == '\r',
    ensures
        preview(a + gap + b, q) == highlighted(a, q) + "<span class=\"lib-sep\">|</span>"@
            + highlighted(b, q),
{
    let s = a + gap + b;
    let n = a.len() as int;
    let e = n + gap.len();
    assert forall|j: int| 0 <= j < n implies (#[trigger] mark_at(s, j)) is None by {
        assert forall|i: int| j <= i < n implies (#[trigger] s[i]) != '\n' && s[i] != '\r' by {
            assert(s[i] == a[i]);
        }
        assert(s[n - 1] == a[n - 1]);
        lemma_gap_not_opened(s, j, n);
        assert(s[j] == a[j]);
    }
    assert forall|j: int| e <= j < s.len() implies (#[trigger] mark_at(s, j)) is None by {
        assert forall|i: int| j <= i < s.len() implies (#[trigger] s[i]) != '\n' && s[i] != '\r' by {
            assert(s[i] == b[i - e]);
        }
        lemma_gap_not_opened(s, j, s.len() as int);
        assert(s[j] == b[j - e]);
    }
    let k = if gap.contains('\n') {
        choose|k: int| 0 <= k < gap.len() && gap[k] == '\n'
    } else {
        choose|k: int| 0 <= k < gap.len() && gap[k] == '\r'
    };
    assert forall|j: int| n <= j < e implies gap_char(#[trigger] s[j]) by {
        assert(s[j] == gap[j - n]);
    }
    assert(s[n + k] == gap[k]);
    assert(s[e] == b[0]);
    lemma_opens_gap(s, n, n + k);
    lemma_gap_ends(s, n, e);
    let m = Mark::Break(s.subrange(n, e));
    assert(mark_at(s, n) == Some((m, e)));
    lemma_pass(s, 0, n, 0);
    lemma_pass(s, e, s.len() as int, e);
    assert(s.subrange(0, n) =~= a);
    assert(s.skip(e) =~= b);
    let last = seq![Mark::Plain(b)];
    let none = Seq::<char>::empty();
    assert(marks(s) == seq![Mark::Plain(a), m] + last);
    lemma_written_two(none, Mark::Plain(a), m, last, q);
    lemma_highlighted_shows(a, q);
    let h = highlighted(b, q);
    let o1 = none + highlighted(a, q);
    assert(o1 =~= highlighted(a, q));
    let o2 = o1 + LINE_SEPARATOR@;
    assert(last.skip(1) =~= Seq::<Mark>::empty());
    assert(written_after(o2, last, q) == written_after(o2 + h, last.skip(1), q));
    lemma_highlighted_shows(b, q);
    lemma_ends_clear(segments(b, q));
    reveal_strlit("<span class=\"lib-sep\">|</span>");
    let out = o2 + h;
    if LINE_SEPARATOR@.is_suffix_of(out) {
        let sep = LINE_SEPARATOR@;
        let tail = out.subrange(out.len() - sep.len(), out.len() as int);
        assert(tail == sep);
        assert(tail[sep.len() - 1] == out[out.len() - 1]);
        assert(tail[sep.len() - 2] == out[out.len() - 2]);
        assert(out[out.len() - 1] == h[h.len() - 1]);
        if h.len() >= 2 {
            assert(out[out.len() - 2] == h[h.len() - 2]);
        }
    }
}

/// Text that is not empty is not empty as HTML.
proof fn lemma_highlighted_shows(t: Seq<char>, q: Seq<char>)
    requires
        t.len() > 0,
    ensures
        highlighted(t, q).len() > 0,
{
    law_highlight_keeps_the_text(t, q);
    lemma_html_shows(segments(t, q));
}

proof fn lemma_html_shows(segs: Seq<(bool, Seq<char>)>)
    ensures
        segments_text(segs).len() > 0 ==> segments_html(segs).len() > 0,
    decreases segs.len(),
{
    if segs.len() > 0 {
        lemma_html_shows(segs.skip(1));
        lemma_escaped_len(segs[0].1);
    }
}

} // verus!
