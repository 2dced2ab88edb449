//! Plain text out of RTF and HTML bodies.
use crate::encoding::windows_1252_char;
use crate::find::{contains, replace, starts_with};
use crate::text::{chars_of, str_to_lowercase, text_between};
use crate::trim::{join, split, trim, trim_end_of, trim_start_of};
use vstd::prelude::*;
use vstd::utf8::encode_utf8;

pub mod laws;

verus! {

use crate::encoding::{scalar, windows_1252};
use crate::find::{
    law_occurrences_are_replaced,
    lemma_replaced_absent,
    occurs,
    replaced,
    stands_at,
};
use crate::text::{lemma_views_push, lowercase_text, views, white_space};
use crate::trim::{
    all_blank,
    exactly,
    joined,
    law_outer_blanks_are_trimmed,
    lemma_strip_front_unique,
    pieces,
    strip_back,
    strip_front,
    trimmed,
};

/// What a piece of RTF source means.
pub enum Token {
    /// A group opens.
    Open,
    /// A group closes.
    Close,
    /// A character of the text.
    Letter(char),
    /// The group holds a table or other data, not text.
    Destination,
    /// Nothing that shows.
    Ignored,
}

/// An ASCII letter.
pub open spec fn letter(b: u8) -> bool {
    0x41 <= b <= 0x5a || 0x61 <= b <= 0x7a
}

/// A decimal digit.
pub open spec fn number_digit(b: u8) -> bool {
    0x30 <= b <= 0x39
}

/// A hexadecimal digit.
pub open spec fn hex_digit(b: u8) -> bool {
    number_digit(b) || 0x41 <= b <= 0x46 || 0x61 <= b <= 0x66
}

/// What a hexadecimal digit stands for.
pub open spec fn hex_value(b: u8) -> int {
    if number_digit(b) {
        b - 0x30
    } else if 0x41 <= b <= 0x46 {
        b - 0x41 + 10
    } else {
        b - 0x61 + 10
    }
}

/// The end of the run of letters that starts at `i`.
pub open spec fn letters_end(b: Seq<u8>, i: int) -> int
    decreases b.len() - i,
{
    if 0 <= i < b.len() && letter(b[i]) {
        letters_end(b, i + 1)
    } else {
        i
    }
}

/// The end of the run of digits that starts at `i`.
pub open spec fn digits_end(b: Seq<u8>, i: int) -> int
    decreases b.len() - i,
{
    if 0 <= i < b.len() && number_digit(b[i]) {
        digits_end(b, i + 1)
    } else {
        i
    }
}

/// The end of the number, signed or not, that starts at `i`.
pub open spec fn number_end(b: Seq<u8>, i: int) -> int {
    if 0 <= i < b.len() && (b[i] == 0x2d || number_digit(b[i])) {
        digits_end(b, i + 1)
    } else {
        i
    }
}

/// The number that a run of digits stands for.
pub open spec fn run_value(s: Seq<u8>) -> int
    decreases s.len(),
{
    if s.len() == 0 {
        0
    } else {
        run_value(s.drop_last()) * 10 + (s.last() - 0x30)
    }
}

/// The number that `s` stands for, where it is one and fits 32 bits.
pub open spec fn number_value(s: Seq<u8>) -> Option<int> {
    if s.len() == 0 {
        None
    } else {
        let negative = s[0] == 0x2d;
        let digits = if negative {
            s.skip(1)
        } else {
            s
        };
        let v = if negative {
            -run_value(digits)
        } else {
            run_value(digits)
        };
        if digits.len() == 0 || v < i32::MIN || v > i32::MAX {
            None
        } else {
            Some(v)
        }
    }
}

/// A word of ASCII letters as bytes.
pub open spec fn is_word(w: Seq<u8>, s: Seq<char>) -> bool {
    w.len() == s.len() && forall|i: int| 0 <= i < w.len() ==> #[trigger] w[i] as char == s[i]
}

/// The control words that break a line.
pub open spec fn break_word(w: Seq<u8>) -> bool {
    is_word(w, "par"@) || is_word(w, "line"@) || is_word(w, "sect"@) || is_word(w, "page"@)
}

/// The control words that make their group hold data instead of text.
pub open spec fn destination_word(w: Seq<u8>) -> bool {
    ||| is_word(w, "fonttbl"@)
    ||| is_word(w, "colortbl"@)
    ||| is_word(w, "stylesheet"@)
    ||| is_word(w, "pict"@)
    ||| is_word(w, "object"@)
    ||| is_word(w, "info"@)
    ||| is_word(w, "generator"@)
    ||| is_word(w, "themedata"@)
    ||| is_word(w, "colorschememapping"@)
    ||| is_word(w, "latentstyles"@)
    ||| is_word(w, "listtable"@)
    ||| is_word(w, "revtbl"@)
    ||| is_word(w, "rsidtbl"@)
    ||| is_word(w, "filetbl"@)
    ||| is_word(w, "xmlnstbl"@)
}

/// The character of a `\u` control word; negative numbers count from 65536.
pub open spec fn unicode_token(n: int) -> Token {
    let code = if n < 0 {
        n + 0x10000
    } else {
        n
    };
    if scalar(code) {
        Token::Letter(code as char)
    } else {
        Token::Ignored
    }
}

/// The control word at the backslash at `i`, and the position after it. One space
/// after the word belongs to it, and after `\uN` one fallback `?` does too.
pub open spec fn control_at(b: Seq<u8>, i: int) -> (Token, int) {
    let word_end = letters_end(b, i + 1);
    let num_end = number_end(b, word_end);
    let word = b.subrange(i + 1, word_end);
    let num = number_value(b.subrange(word_end, num_end));
    let end = if num_end < b.len() && b[num_end] == 0x20 {
        num_end + 1
    } else {
        num_end
    };
    if break_word(word) {
        (Token::Letter('\n'), end)
    } else if is_word(word, "tab"@) {
        (Token::Letter('\t'), end)
    } else if is_word(word, "u"@) && num is Some {
        (
            unicode_token(num->0),
            if end < b.len() && b[end] == 0x3f {
                end + 1
            } else {
                end
            },
        )
    } else if destination_word(word) {
        (Token::Destination, end)
    } else {
        (Token::Ignored, end)
    }
}

/// The token at `i` and the position after it.
pub open spec fn token_at(b: Seq<u8>, i: int) -> (Token, int) {
    let c = b[i];
    if c == 0x7b {
        (Token::Open, i + 1)
    } else if c == 0x7d {
        (Token::Close, i + 1)
    } else if c == 0x5c && i + 1 < b.len() {
        let n = b[i + 1];
        if n == 0x5c || n == 0x7b || n == 0x7d {
            (Token::Letter(n as char), i + 2)
        } else if n == 0x27 && i + 3 < b.len() {
            if hex_digit(b[i + 2]) && hex_digit(b[i + 3]) {
                (
                    Token::Letter(
                        windows_1252((hex_value(b[i + 2]) * 16 + hex_value(b[i + 3])) as u8),
                    ),
                    i + 4,
                )
            } else {
                (Token::Ignored, i + 4)
            }
        } else {
            control_at(b, i)
        }
    } else if c == 0x0d || c == 0x0a {
        (Token::Ignored, i + 1)
    } else {
        (Token::Letter(c as char), i + 1)
    }
}

/// A reader of RTF: the text so far, how deep the groups nest, and the depth of
/// the group that is being skipped.
pub struct Rtf {
    pub out: Seq<char>,
    pub depth: int,
    pub skip: Option<int>,
}

/// The reader after one token.
pub open spec fn rtf_step(st: Rtf, t: Token) -> Rtf {
    match t {
        Token::Open => Rtf { depth: st.depth + 1, ..st },
        Token::Close => Rtf {
            depth: if st.depth > 0 {
                st.depth - 1
            } else {
                0
            },
            skip: if st.skip matches Some(d) && st.depth <= d {
                None
            } else {
                st.skip
            },
            ..st
        },
        Token::Letter(c) => if st.skip is None {
            Rtf { out: st.out.push(c), ..st }
        } else {
            st
        },
        Token::Destination => if st.skip is None {
            Rtf { skip: Some(st.depth), ..st }
        } else {
            st
        },
        Token::Ignored => st,
    }
}

pub proof fn lemma_run_ends(b: Seq<u8>, i: int)
    requires
        0 <= i <= b.len(),
    ensures
        i <= letters_end(b, i) <= b.len(),
        i <= digits_end(b, i) <= b.len(),
    decreases b.len() - i,
{
    if i < b.len() {
        lemma_run_ends(b, i + 1);
    }
}

pub proof fn lemma_token_at(b: Seq<u8>, i: int)
    requires
        0 <= i < b.len(),
    ensures
        i < token_at(b, i).1 <= b.len(),
{
    if i + 1 < b.len() {
        lemma_run_ends(b, i + 1);
        let w = letters_end(b, i + 1);
        lemma_run_ends(b, w);
        if w < b.len() {
            lemma_run_ends(b, w + 1);
        }
    }
}

/// What the reader has at the end, having read `b` from `i` on.
pub open spec fn rtf_read(b: Seq<u8>, i: int, st: Rtf) -> Rtf
    decreases b.len() - i,
{
    if i < 0 || i >= b.len() {
        st
    } else {
        proof {
            lemma_token_at(b, i);
        }
        rtf_read(b, token_at(b, i).1, rtf_step(st, token_at(b, i).0))
    }
}

/// Each line without blanks at its end.
pub open spec fn lines_trimmed(l: Seq<Seq<char>>) -> Seq<Seq<char>> {
    Seq::new(l.len(), |i: int| strip_back(l[i], exactly(' ')))
}

/// The lines of a text without blanks at their ends, and no white space around
/// it all.
pub open spec fn tidied(s: Seq<char>) -> Seq<char> {
    trimmed(joined(lines_trimmed(pieces(s, '\n')), seq!['\n']))
}

/// The text of an RTF source.
pub open spec fn rtf_text(b: Seq<u8>) -> Seq<char> {
    tidied(rtf_read(b, 0, Rtf { out: Seq::empty(), depth: 0, skip: None }).out)
}

fn find_letters_end(b: &[u8], i: usize) -> (r: usize)
    requires
        i <= b@.len(),
    ensures
        r == letters_end(b@, i as int),
        i <= r <= b@.len(),
{
    let n: usize = b.len();
    let mut j: usize = i;
    while j < n && ((0x41 <= b[j] && b[j] <= 0x5a) || (0x61 <= b[j] && b[j] <= 0x7a))
        invariant
            n == b@.len(),
            i <= j <= n,
            letters_end(b@, i as int) == letters_end(b@, j as int),
        decreases n - j,
    {
        j = j + 1;
    }
    j
}

fn find_digits_end(b: &[u8], i: usize) -> (r: usize)
    requires
        i <= b@.len(),
    ensures
        r == digits_end(b@, i as int),
        i <= r <= b@.len(),
{
    let n: usize = b.len();
    let mut j: usize = i;
    while j < n && 0x30 <= b[j] && b[j] <= 0x39
        invariant
            n == b@.len(),
            i <= j <= n,
            digits_end(b@, i as int) == digits_end(b@, j as int),
        decreases n - j,
    {
        j = j + 1;
    }
    j
}

proof fn lemma_digits_run(b: Seq<u8>, i: int, j: int)
    requires
        0 <= i <= j,
        j < digits_end(b, i),
        i <= b.len(),
    ensures
        j < b.len(),
        number_digit(b[j]),
    decreases j - i,
{
    if i < j {
        if i < b.len() && number_digit(b[i]) {
            lemma_digits_run(b, i + 1, j);
        }
    }
}

/// Leading digits only make a number larger.
proof fn lemma_run_grows(s: Seq<u8>, k: int)
    requires
        0 <= k <= s.len(),
        forall|i: int| 0 <= i < s.len() ==> number_digit(#[trigger] s[i]),
    ensures
        0 <= run_value(s.take(k)) <= run_value(s),
    decreases s.len() - k,
{
    if k < s.len() {
        lemma_run_grows(s, k + 1);
        let t = s.take(k + 1);
        assert(t.drop_last() =~= s.take(k));
        assert(t.last() == s[k]);
        lemma_run_nonneg(s.take(k));
    } else {
        assert(s.take(k) =~= s);
        lemma_run_nonneg(s);
    }
}

proof fn lemma_run_nonneg(s: Seq<u8>)
    requires
        forall|i: int| 0 <= i < s.len() ==> number_digit(#[trigger] s[i]),
    ensures
        0 <= run_value(s),
    decreases s.len(),
{
    if s.len() > 0 {
        let p = s.drop_last();
        assert forall|i: int| 0 <= i < p.len() implies number_digit(#[trigger] p[i]) by {
            assert(p[i] == s[i]);
        }
        lemma_run_nonneg(p);
        assert(number_digit(s[s.len() - 1]));
    }
}

/// The number in `b` from `from` up to `to`: a sign and digits, or digits alone.
fn read_number(b: &[u8], from: usize, to: usize) -> (r: Option<i32>)
    requires
        from <= to <= b@.len(),
        to == number_end(b@, from as int),
    ensures
        match r {
            Some(n) => number_value(b@.subrange(from as int, to as int)) == Some(n as int),
            None => number_value(b@.subrange(from as int, to as int)) is None,
        },
{
    let ghost s = b@.subrange(from as int, to as int);
    if from == to {
        return None;
    }
    let negative: bool = b[from] == 0x2d;
    assert(s[0] == b@[from as int]);
    let start: usize = if negative { from + 1 } else { from };
    let ghost digits = b@.subrange(start as int, to as int);
    proof {
        if negative {
            assert(s.skip(1) =~= digits);
        } else {
            assert(s =~= digits);
        }
        assert forall|i: int| 0 <= i < digits.len() implies number_digit(#[trigger] digits[i]) by {
            if start + i > from {
                lemma_digits_run(b@, from + 1, start + i);
            }
        }
    }
    if start == to {
        return None;
    }
    let mut v: i64 = 0;
    for k in start..to
        invariant
            from <= start <= to <= b@.len(),
            s == b@.subrange(from as int, to as int),
            digits == b@.subrange(start as int, to as int),
            start < to,
            s.len() > 0,
            negative == (s[0] == 0x2d),
            digits == (if negative {
                s.skip(1)
            } else {
                s
            }),
            forall|i: int| 0 <= i < digits.len() ==> number_digit(#[trigger] digits[i]),
            v == run_value(digits.take(k - start)),
            0 <= v <= 0x1_0000_0000,
    {
        proof {
            let t = digits.take(k - start + 1);
            assert(t.drop_last() =~= digits.take(k - start));
            assert(t.last() == b@[k as int]);
            assert(number_digit(digits[k - start]));
            lemma_run_grows(digits, k - start + 1);
        }
        v = v * 10 + (b[k] - 0x30) as i64;
        if v > 0x1_0000_0000 {
            return None;
        }
    }
    assert(digits.take(to - start) =~= digits);
    let signed: i64 = if negative { -v } else { v };
    if signed < -2147483648 || signed > 2147483647 {
        None
    } else {
        Some(signed as i32)
    }
}

fn word_is(b: &[u8], from: usize, to: usize, w: &str) -> (r: bool)
    requires
        from <= to <= b@.len(),
    ensures
        r == is_word(b@.subrange(from as int, to as int), w@),
{
    let v: Vec<char> = chars_of(w);
    let ghost s = b@.subrange(from as int, to as int);
    if v.len() != to - from {
        return false;
    }
    let n: usize = v.len();
    for i in 0..n
        invariant
            from <= to <= b@.len(),
            n == to - from,
            n == v@.len(),
            v@ == w@,
            s == b@.subrange(from as int, to as int),
            forall|j: int| 0 <= j < i ==> #[trigger] s[j] as char == w@[j],
    {
        assert(s[i as int] == b@[from + i]);
        if b[from + i] as char != v[i] {
            return false;
        }
    }
    true
}

fn is_break_word(b: &[u8], from: usize, to: usize) -> (r: bool)
    requires
        from <= to <= b@.len(),
    ensures
        r == break_word(b@.subrange(from as int, to as int)),
{
    word_is(b, from, to, "par") || word_is(b, from, to, "line") || word_is(b, from, to, "sect")
        || word_is(b, from, to, "page")
}

fn is_destination_word(b: &[u8], from: usize, to: usize) -> (r: bool)
    requires
        from <= to <= b@.len(),
    ensures
        r == destination_word(b@.subrange(from as int, to as int)),
{
    word_is(b, from, to, "fonttbl") || word_is(b, from, to, "colortbl") || word_is(
        b,
        from,
        to,
        "stylesheet",
    ) || word_is(b, from, to, "pict") || word_is(b, from, to, "object") || word_is(
        b,
        from,
        to,
        "info",
    ) || word_is(b, from, to, "generator") || word_is(b, from, to, "themedata") || word_is(
        b,
        from,
        to,
        "colorschememapping",
    ) || word_is(b, from, to, "latentstyles") || word_is(b, from, to, "listtable") || word_is(
        b,
        from,
        to,
        "revtbl",
    ) || word_is(b, from, to, "rsidtbl") || word_is(b, from, to, "filetbl") || word_is(
        b,
        from,
        to,
        "xmlnstbl",
    )
}

fn unicode_letter(n: i32) -> (r: Token)
    ensures
        r == unicode_token(n as int),
{
    let code: i64 = if n < 0 { n as i64 + 0x10000 } else { n as i64 };
    if code < 0 {
        return Token::Ignored;
    }
    match char::from_u32(code as u32) {
        Some(c) => Token::Letter(c),
        None => Token::Ignored,
    }
}

fn read_control(b: &[u8], i: usize) -> (r: (Token, usize))
    requires
        i + 1 < b@.len(),
    ensures
        r.0 == control_at(b@, i as int).0,
        r.1 == control_at(b@, i as int).1,
{
    let n: usize = b.len();
    let word_end: usize = find_letters_end(b, i + 1);
    let num_end: usize = if word_end < n && (b[word_end] == 0x2d || (0x30 <= b[word_end]
        && b[word_end] <= 0x39)) {
        find_digits_end(b, word_end + 1)
    } else {
        word_end
    };
    let num: Option<i32> = read_number(b, word_end, num_end);
    let end: usize = if num_end < n && b[num_end] == 0x20 { num_end + 1 } else { num_end };
    if is_break_word(b, i + 1, word_end) {
        return (Token::Letter('\n'), end);
    }
    if word_is(b, i + 1, word_end, "tab") {
        return (Token::Letter('\t'), end);
    }
    if word_is(b, i + 1, word_end, "u") {
        if let Some(v) = num {
            let after: usize = if end < n && b[end] == 0x3f { end + 1 } else { end };
            return (unicode_letter(v), after);
        }
    }
    if is_destination_word(b, i + 1, word_end) {
        (Token::Destination, end)
    } else {
        (Token::Ignored, end)
    }
}

fn hex_of(b: u8) -> (r: Option<u8>)
    ensures
        match r {
            Some(v) => hex_digit(b) && v == hex_value(b) && v < 16,
            None => !hex_digit(b),
        },
{
    if 0x30 <= b && b <= 0x39 {
        Some(b - 0x30)
    } else if 0x41 <= b && b <= 0x46 {
        Some(b - 0x41 + 10)
    } else if 0x61 <= b && b <= 0x66 {
        Some(b - 0x61 + 10)
    } else {
        None
    }
}

fn read_token(b: &[u8], i: usize) -> (r: (Token, usize))
    requires
        i < b@.len(),
    ensures
        r.0 == token_at(b@, i as int).0,
        r.1 == token_at(b@, i as int).1,
{
    let n: usize = b.len();
    let c: u8 = b[i];
    if c == 0x7b {
        (Token::Open, i + 1)
    } else if c == 0x7d {
        (Token::Close, i + 1)
    } else if c == 0x5c && i + 1 < n {
        let m: u8 = b[i + 1];
        if m == 0x5c || m == 0x7b || m == 0x7d {
            (Token::Letter(m as char), i + 2)
        } else if m == 0x27 && n - i > 3 {
            match hex_of(b[i + 2]) {
                Some(x) => match hex_of(b[i + 3]) {
                    Some(y) => (Token::Letter(windows_1252_char(x * 16 + y)), i + 4),
                    None => (Token::Ignored, i + 4),
                },
                None => (Token::Ignored, i + 4),
            }
        } else {
            read_control(b, i)
        }
    } else if c == 0x0d || c == 0x0a {
        (Token::Ignored, i + 1)
    } else {
        (Token::Letter(c as char), i + 1)
    }
}

fn tidy(s: &str) -> (r: String)
    ensures
        r@ == tidied(s@),
{
    let lines: Vec<String> = split(s, '\n');
    let n: usize = lines.len();
    let mut out: Vec<String> = Vec::new();
    let ghost all = lines_trimmed(views(lines@));
    for i in 0..n
        invariant
            n == lines@.len(),
            all == lines_trimmed(views(lines@)),
            views(out@) =~= all.take(i as int),
    {
        let t = trim_end_of(lines[i].as_str(), ' ');
        proof {
            lemma_views_push(out@, t);
            assert(all[i as int] == t@);
            assert(all.take(i + 1) =~= all.take(i as int).push(t@));
        }
        out.push(t);
    }
    proof {
        assert(all.take(n as int) =~= all);
        reveal_strlit("\n");
        assert("\n"@ =~= seq!['\n']);
    }
    let j = join(&out, "\n");
    trim(j.as_str())
}

/// The plain text of an RTF source: paragraph, line and tab controls, `\'hh` and
/// `\uN` characters; font tables and other data groups are skipped.
pub fn rtf_to_plain(src: &str) -> (r: String)
    ensures
        r@ == rtf_text(encode_utf8(src@)),
{
    let b: &[u8] = src.as_bytes();
    let n: usize = b.len();
    let mut out: String = String::new();
    let mut depth: usize = 0;
    let mut skip: Option<usize> = None;
    let mut i: usize = 0;
    let ghost mut st = Rtf { out: Seq::empty(), depth: 0, skip: None };
    let ghost end = rtf_read(b@, 0, st);
    while i < n
        invariant
            n == b@.len(),
            i <= n,
            depth <= i,
            st.out == out@,
            st.depth == depth,
            st.skip == (match skip {
                Some(d) => Some(d as int),
                None => None,
            }),
            rtf_read(b@, i as int, st) == end,
        decreases n - i,
    {
        proof {
            lemma_token_at(b@, i as int);
        }
        let (t, next) = read_token(b, i);
        proof {
            st = rtf_step(st, t);
        }
        match t {
            Token::Open => {
                depth = depth + 1;
            },
            Token::Close => {
                if let Some(d) = skip {
                    if depth <= d {
                        skip = None;
                    }
                }
                if depth > 0 {
                    depth = depth - 1;
                }
            },
            Token::Letter(c) => {
                if skip.is_none() {
                    out.push(c);
                }
            },
            Token::Destination => {
                if skip.is_none() {
                    skip = Some(depth);
                }
            },
            Token::Ignored => {},
        }
        i = next;
    }
    tidy(out.as_str())
}

/// Whether a tag is open after `s`.
pub open spec fn in_tag(s: Seq<char>) -> bool
    decreases s.len(),
{
    if s.len() == 0 {
        false
    } else if s.last() == '<' {
        true
    } else if s.last() == '>' {
        false
    } else {
        in_tag(s.drop_last())
    }
}

/// The characters of `s` outside its tags.
pub open spec fn outside_tags(s: Seq<char>) -> Seq<char>
    decreases s.len(),
{
    if s.len() == 0 {
        Seq::empty()
    } else if s.last() == '<' || s.last() == '>' || in_tag(s.drop_last()) {
        outside_tags(s.drop_last())
    } else {
        outside_tags(s.drop_last()).push(s.last())
    }
}

/// A text with the common HTML entities replaced, one kind after the other.
pub open spec fn without_entities(s: Seq<char>) -> Seq<char> {
    let a = replaced(s, "&nbsp;"@, " "@);
    let b = replaced(a, "&amp;"@, "&"@);
    let c = replaced(b, "&lt;"@, "<"@);
    let d = replaced(c, "&gt;"@, ">"@);
    let e = replaced(d, "&quot;"@, "\""@);
    replaced(e, "&#39;"@, "'"@)
}

/// The text of an HTML source.
pub open spec fn html_text(s: Seq<char>) -> Seq<char> {
    trimmed(without_entities(outside_tags(s)))
}

/// The plain text of an HTML source: tags are dropped and entities replaced.
pub fn strip_html(src: &str) -> (r: String)
    ensures
        r@ == html_text(src@),
{
    let v: Vec<char> = chars_of(src);
    let n: usize = v.len();
    let mut out: String = String::new();
    let mut tag: bool = false;
    for i in 0..n
        invariant
            n == v@.len(),
            tag == in_tag(v@.take(i as int)),
            out@ == outside_tags(v@.take(i as int)),
    {
        let c = v[i];
        proof {
            let t = v@.take(i + 1);
            assert(t.drop_last() =~= v@.take(i as int));
            assert(t.last() == c);
        }
        if c == '<' {
            tag = true;
        } else if c == '>' {
            tag = false;
        } else if !tag {
            out.push(c);
        }
    }
    proof {
        assert(v@.take(n as int) =~= src@);
        reveal_strlit("&nbsp;");
        reveal_strlit("&amp;");
        reveal_strlit("&lt;");
        reveal_strlit("&gt;");
        reveal_strlit("&quot;");
        reveal_strlit("&#39;");
    }
    let a = replace(out.as_str(), "&nbsp;", " ");
    let b = replace(a.as_str(), "&amp;", "&");
    let c = replace(b.as_str(), "&lt;", "<");
    let d = replace(c.as_str(), "&gt;", ">");
    let e = replace(d.as_str(), "&quot;", "\"");
    let f = replace(e.as_str(), "&#39;", "'");
    trim(f.as_str())
}

/// Whether the head of a text, in lower case, says that it is HTML.
pub open spec fn html_head(head: Seq<char>) -> bool {
    occurs(head, "<html"@) || occurs(head, "<!doctype html"@) || "<p>"@.is_prefix_of(head)
}

/// The first 200 characters of a text.
pub open spec fn head_of(s: Seq<char>) -> Seq<char> {
    if s.len() <= 200 {
        s
    } else {
        s.take(200)
    }
}

/// A body without its byte order marks and outer white space, and without the
/// RTF or HTML around it.
pub open spec fn clean_body(s: Seq<char>) -> Seq<char> {
    let t = trimmed(strip_front(s, exactly('\u{feff}')));
    if "{\\rtf"@.is_prefix_of(t) {
        rtf_text(encode_utf8(t))
    } else if html_head(lowercase_text(head_of(t))) {
        html_text(t)
    } else {
        t
    }
}

/// Strips the RTF or HTML wrapper of a body down to plain text.
pub fn cleanup_body(s: &str) -> (r: String)
    ensures
        r@ == clean_body(s@),
{
    let a = trim_start_of(s, '\u{feff}');
    let t = trim(a.as_str());
    if starts_with(t.as_str(), "{\\rtf") {
        return rtf_to_plain(t.as_str());
    }
    let v: Vec<char> = chars_of(t.as_str());
    let k: usize = if v.len() <= 200 { v.len() } else { 200 };
    let head = text_between(&v, 0, k);
    assert(v@.subrange(0, k as int) =~= head_of(t@));
    let low = str_to_lowercase(head.as_str());
    if contains(low.as_str(), "<html") || contains(low.as_str(), "<!doctype html") || starts_with(
        low.as_str(),
        "<p>",
    ) {
        return strip_html(t.as_str());
    }
    t
}

proof fn lemma_outside_joins(p: Seq<char>, b: Seq<char>)
    requires
        !in_tag(p),
    ensures
        outside_tags(p + b) == outside_tags(p) + outside_tags(b),
        in_tag(p + b) == in_tag(b),
    decreases b.len(),
{
    if b.len() == 0 {
        assert(p + b =~= p);
        assert(outside_tags(p) + outside_tags(b) =~= outside_tags(p));
    } else {
        lemma_outside_joins(p, b.drop_last());
        assert((p + b).drop_last() =~= p + b.drop_last());
        assert(outside_tags(p + b) =~= outside_tags(p) + outside_tags(b));
    }
}

proof fn lemma_inside_tag(a: Seq<char>, x: Seq<char>)
    requires
        !x.contains('>'),
    ensures
        in_tag(a + seq!['<'] + x),
        outside_tags(a + seq!['<'] + x) == outside_tags(a),
    decreases x.len(),
{
    let w = a + seq!['<'] + x;
    if x.len() == 0 {
        assert(w.drop_last() =~= a);
        assert(w.last() == '<');
    } else {
        let t = x.drop_last();
        assert(!t.contains('>')) by {
            if t.contains('>') {
                let i = choose|i: int| 0 <= i < t.len() && t[i] == '>';
                assert(x[i] == '>');
            }
        }
        lemma_inside_tag(a, t);
        assert(w.drop_last() =~= a + seq!['<'] + t);
        assert(x.contains(x[x.len() - 1]));
    }
}

/// A tag is dropped with all that it holds, and what stands before and behind it is kept.
pub proof fn law_tags_are_dropped(a: Seq<char>, tag: Seq<char>, b: Seq<char>)
    requires
        !a.contains('<'),
        !a.contains('>'),
        !tag.contains('>'),
    ensures
        outside_tags(a) == a,
        outside_tags(a + seq!['<'] + tag + seq!['>'] + b) == a + outside_tags(b),
        html_text(a + seq!['<'] + tag + seq!['>'] + b) == trimmed(
            without_entities(a + outside_tags(b)),
        ),
{
    let e = Seq::<char>::empty();
    lemma_no_tags(a);
    lemma_inside_tag(a, tag);
    let p = a + seq!['<'] + tag + seq!['>'];
    assert(p.drop_last() =~= a + seq!['<'] + tag);
    lemma_outside_joins(p, b);
}

proof fn lemma_no_tags(a: Seq<char>)
    requires
        !a.contains('<'),
        !a.contains('>'),
    ensures
        outside_tags(a) == a,
        !in_tag(a),
    decreases a.len(),
{
    if a.len() > 0 {
        let t = a.drop_last();
        assert(a.contains(a[a.len() - 1]));
        assert(!t.contains('<') && !t.contains('>')) by {
            if t.contains('<') {
                let i = choose|i: int| 0 <= i < t.len() && t[i] == '<';
                assert(a[i] == '<');
            }
            if t.contains('>') {
                let i = choose|i: int| 0 <= i < t.len() && t[i] == '>';
                assert(a[i] == '>');
            }
        }
        lemma_no_tags(t);
        assert(t.push(a.last()) =~= a);
    }
}

/// Whether an ampersand stands at one place only.
spec fn one_ampersand(s: Seq<char>, k: int) -> bool {
    forall|i: int| 0 <= i < s.len() && i != k ==> #[trigger] s[i] != '&'
}

proof fn lemma_entity_elsewhere(s: Seq<char>, k: int, entity: Seq<char>, to: Seq<char>)
    requires
        one_ampersand(s, k),
        entity.len() > 0,
        entity[0] == '&',
        !stands_at(s, entity, k),
    ensures
        replaced(s, entity, to) == s,
{
    assert forall|j: int| 0 <= j < s.len() implies !stands_at(s, entity, j) by {
        if stands_at(s, entity, j) {
            assert(s.subrange(j, j + entity.len())[0] == s[j]);
        }
    }
    lemma_replaced_absent(s, entity, to, 0);
    assert(s.skip(0) =~= s);
}

proof fn lemma_entity_here(a: Seq<char>, entity: Seq<char>, b: Seq<char>, to: Seq<char>)
    requires
        entity.len() > 0,
        entity[0] == '&',
        !a.contains('&'),
        !b.contains('&'),
    ensures
        replaced(a + entity + b, entity, to) == a + to + b,
{
    let s = a + entity + b;
    assert forall|j: int| 0 <= j < a.len() implies !#[trigger] stands_at(s, entity, j) by {
        if stands_at(s, entity, j) {
            assert(s.subrange(j, j + entity.len())[0] == s[j]);
            assert(s[j] == a[j]);
            assert(a.contains(a[j]));
        }
    }
    assert(!occurs(b, entity)) by {
        if occurs(b, entity) {
            let j = choose|j: int| stands_at(b, entity, j);
            assert(b.subrange(j, j + entity.len())[0] == b[j]);
            assert(b.contains(b[j]));
        }
    }
    law_occurrences_are_replaced(a, entity, b, to);
}

proof fn lemma_other_entity(s: Seq<char>, k: int, entity: Seq<char>, i: int)
    requires
        0 <= k,
        0 <= i < entity.len(),
        k + i < s.len() ==> s[k + i] != entity[i],
    ensures
        !stands_at(s, entity, k),
{
    if stands_at(s, entity, k) {
        assert(s.subrange(k, k + entity.len())[i] == s[k + i]);
    }
}

/// The marks that stand for a character in a page are read as it: a space that does not break,
/// an ampersand, the angle brackets and the two quotes.
pub proof fn law_character_marks_are_read(a: Seq<char>, b: Seq<char>)
    requires
        !a.contains('&'),
        !b.contains('&'),
    ensures
        without_entities(a + b) == a + b,
        without_entities(a + "&nbsp;"@ + b) == a + seq![' '] + b,
        without_entities(a + "&lt;"@ + b) == a + seq!['<'] + b,
        without_entities(a + "&gt;"@ + b) == a + seq!['>'] + b,
        without_entities(a + "&quot;"@ + b) == a + seq!['"'] + b,
        without_entities(a + "&#39;"@ + b) == a + seq!['\''] + b,
        b.len() == 0 || b[0] == ' ' ==> without_entities(a + "&amp;"@ + b) == a + seq!['&'] + b,
{
    reveal_strlit("&nbsp;");
    reveal_strlit("&amp;");
    reveal_strlit("&lt;");
    reveal_strlit("&gt;");
    reveal_strlit("&quot;");
    reveal_strlit("&#39;");
    reveal_strlit(" ");
    reveal_strlit("&");
    reveal_strlit("<");
    reveal_strlit(">");
    reveal_strlit("\"");
    reveal_strlit("'");
    assert(" "@ =~= seq![' ']);
    assert("&"@ =~= seq!['&']);
    assert("<"@ =~= seq!['<']);
    assert(">"@ =~= seq!['>']);
    assert("\""@ =~= seq!['"']);
    assert("'"@ =~= seq!['\'']);
    let k = a.len() as int;
    lemma_plain_stays(a, a + b, b);
    lemma_marked(a, "&nbsp;"@, b, 0);
    lemma_marked(a, "&lt;"@, b, 2);
    lemma_marked(a, "&gt;"@, b, 3);
    lemma_marked(a, "&quot;"@, b, 4);
    lemma_marked(a, "&#39;"@, b, 5);
    if b.len() == 0 || b[0] == ' ' {
        let s = a + "&amp;"@ + b;
        lemma_one_ampersand(a, "&amp;"@, b);
        lemma_other_entity(s, k, "&nbsp;"@, 1);
        lemma_entity_elsewhere(s, k, "&nbsp;"@, " "@);
        lemma_entity_here(a, "&amp;"@, b, "&"@);
        let t = a + "&"@ + b;
        lemma_one_ampersand(a, "&"@, b);
        lemma_other_entity(t, k, "&lt;"@, 1);
        lemma_other_entity(t, k, "&gt;"@, 1);
        lemma_other_entity(t, k, "&quot;"@, 1);
        lemma_other_entity(t, k, "&#39;"@, 1);
        lemma_entity_elsewhere(t, k, "&lt;"@, "<"@);
        lemma_entity_elsewhere(t, k, "&gt;"@, ">"@);
        lemma_entity_elsewhere(t, k, "&quot;"@, "\""@);
        lemma_entity_elsewhere(t, k, "&#39;"@, "'"@);
    }
}

proof fn lemma_one_ampersand(a: Seq<char>, m: Seq<char>, b: Seq<char>)
    requires
        !a.contains('&'),
        !b.contains('&'),
        m.len() > 0,
        forall|i: int| 0 < i < m.len() ==> #[trigger] m[i] != '&',
    ensures
        one_ampersand(a + m + b, a.len() as int),
{
    let s = a + m + b;
    assert forall|i: int| 0 <= i < s.len() && i != a.len() implies #[trigger] s[i] != '&' by {
        if i < a.len() {
            assert(s[i] == a[i]);
            assert(a.contains(a[i]));
        } else if i < a.len() + m.len() {
            assert(s[i] == m[i - a.len()]);
        } else {
            assert(s[i] == b[i - a.len() - m.len()]);
            assert(b.contains(b[i - a.len() - m.len()]));
        }
    }
}

proof fn lemma_plain_stays(a: Seq<char>, s: Seq<char>, b: Seq<char>)
    requires
        s == a + b,
        !a.contains('&'),
        !b.contains('&'),
    ensures
        without_entities(s) == s,
{
    reveal_strlit("&nbsp;");
    reveal_strlit("&amp;");
    reveal_strlit("&lt;");
    reveal_strlit("&gt;");
    reveal_strlit("&quot;");
    reveal_strlit("&#39;");
    assert forall|i: int| 0 <= i < s.len() && i != -1 implies #[trigger] s[i] != '&' by {
        if i < a.len() {
            assert(s[i] == a[i]);
            assert(a.contains(a[i]));
        } else {
            assert(s[i] == b[i - a.len()]);
            assert(b.contains(b[i - a.len()]));
        }
    }
    lemma_entity_elsewhere(s, -1, "&nbsp;"@, " "@);
    lemma_entity_elsewhere(s, -1, "&amp;"@, "&"@);
    lemma_entity_elsewhere(s, -1, "&lt;"@, "<"@);
    lemma_entity_elsewhere(s, -1, "&gt;"@, ">"@);
    lemma_entity_elsewhere(s, -1, "&quot;"@, "\""@);
    lemma_entity_elsewhere(s, -1, "&#39;"@, "'"@);
}

proof fn lemma_marked(a: Seq<char>, mark: Seq<char>, b: Seq<char>, turn: int)
    requires
        !a.contains('&'),
        !b.contains('&'),
        turn == 0 && mark == "&nbsp;"@ || turn == 2 && mark == "&lt;"@ || turn == 3 && mark
            == "&gt;"@ || turn == 4 && mark == "&quot;"@ || turn == 5 && mark == "&#39;"@,
    ensures
        without_entities(a + mark + b) == a + (if turn == 0 {
            " "@
        } else if turn == 2 {
            "<"@
        } else if turn == 3 {
            ">"@
        } else if turn == 4 {
            "\""@
        } else {
            "'"@
        }) + b,
{
    reveal_strlit("&nbsp;");
    reveal_strlit("&amp;");
    reveal_strlit("&lt;");
    reveal_strlit("&gt;");
    reveal_strlit("&quot;");
    reveal_strlit("&#39;");
    reveal_strlit(" ");
    reveal_strlit("<");
    reveal_strlit(">");
    reveal_strlit("\"");
    reveal_strlit("'");
    let s = a + mark + b;
    let k = a.len() as int;
    let to = if turn == 0 {
        " "@
    } else if turn == 2 {
        "<"@
    } else if turn == 3 {
        ">"@
    } else if turn == 4 {
        "\""@
    } else {
        "'"@
    };
    let r = a + to + b;
    lemma_one_ampersand(a, mark, b);
    lemma_one_ampersand(a, to, b);
    assert(s[k + 1] == mark[1]);
    assert(r[k] == to[0]);
    assert forall|j: int| 0 <= j < r.len() implies #[trigger] r[j] != '&' by {}
    lemma_entity_here(a, mark, b, to);
    if turn != 0 {
        lemma_other_entity(s, k, "&nbsp;"@, 1);
        lemma_entity_elsewhere(s, k, "&nbsp;"@, " "@);
        lemma_other_entity(s, k, "&amp;"@, 1);
        lemma_entity_elsewhere(s, k, "&amp;"@, "&"@);
    } else {
        lemma_other_entity(r, k, "&amp;"@, 0);
        lemma_entity_elsewhere(r, k, "&amp;"@, "&"@);
    }
    if turn > 2 {
        lemma_other_entity(s, k, "&lt;"@, 1);
        lemma_entity_elsewhere(s, k, "&lt;"@, "<"@);
    } else if turn < 2 {
        lemma_other_entity(r, k, "&lt;"@, 0);
        lemma_entity_elsewhere(r, k, "&lt;"@, "<"@);
    }
    if turn > 3 {
        lemma_other_entity(s, k, "&gt;"@, 1);
        lemma_entity_elsewhere(s, k, "&gt;"@, ">"@);
    } else if turn < 3 {
        lemma_other_entity(r, k, "&gt;"@, 0);
        lemma_entity_elsewhere(r, k, "&gt;"@, ">"@);
    }
    if turn > 4 {
        lemma_other_entity(s, k, "&quot;"@, 1);
        lemma_entity_elsewhere(s, k, "&quot;"@, "\""@);
    } else if turn < 4 {
        lemma_other_entity(r, k, "&quot;"@, 0);
        lemma_entity_elsewhere(r, k, "&quot;"@, "\""@);
    }
    if turn < 5 {
        lemma_other_entity(r, k, "&#39;"@, 0);
        lemma_entity_elsewhere(r, k, "&#39;"@, "'"@);
    }
}

/// A text that is neither RTF nor a page is taken as it is, without its outer blanks, and a
/// byte order mark before it does not count.
pub proof fn law_plain_bodies_are_kept(a: Seq<char>, s: Seq<char>, b: Seq<char>)
    requires
        all_blank(a),
        all_blank(b),
        s.len() > 0,
        !white_space(s[0]),
        !white_space(s.last()),
        s[0] != '\u{feff}',
        a.len() > 0 ==> a[0] != '\u{feff}',
    ensures
        clean_body(seq!['\u{feff}'] + (a + s + b)) == clean_body(a + s + b),
        "{\\rtf"@.is_prefix_of(s) ==> clean_body(a + s + b) == rtf_text(encode_utf8(s)),
        !"{\\rtf"@.is_prefix_of(s) && page_head(s) ==> clean_body(a + s + b) == html_text(s),
        !"{\\rtf"@.is_prefix_of(s) && !page_head(s) ==> clean_body(a + s + b) == s,
{
    let w = a + s + b;
    let m = seq!['\u{feff}'] + w;
    let p = exactly('\u{feff}');
    assert(w[0] != '\u{feff}') by {
        if a.len() > 0 {
            assert(w[0] == a[0]);
        } else {
            assert(w[0] == s[0]);
        }
    }
    lemma_strip_front_unique(w, p, 0);
    assert(w.skip(0) =~= w);
    assert(m[1] == w[0]);
    lemma_strip_front_unique(m, p, 1);
    assert(m.skip(1) =~= w);
    law_outer_blanks_are_trimmed(a, s, b);
    assert(head_of(s) =~= s.take(
        if s.len() < 200 {
            s.len() as int
        } else {
            200
        },
    ));
}

/// Whether a text begins as a page does: its first two hundred characters, in lower case, hold
/// the tag or the declaration of one, or begin with a paragraph.
pub open spec fn page_head(s: Seq<char>) -> bool {
    let head = lowercase_text(
        s.take(
            if s.len() < 200 {
                s.len() as int
            } else {
                200
            },
        ),
    );
    occurs(head, "<html"@) || occurs(head, "<!doctype html"@) || "<p>"@.is_prefix_of(head)
}

} // verus!
