//! What the text of an RTF source is, by the pieces that the source is made of.
use vstd::prelude::*;

verus! {

use crate::decimal::{
    decimal,
    digits_value,
    is_digit,
    law_decimal_reads_back,
    lemma_decimal_digits,
};
use crate::encoding::{scalar, windows_1252};
use crate::rtf::{
    control_at,
    digits_end,
    hex_digit,
    hex_value,
    is_word,
    lemma_run_ends,
    lemma_token_at,
    letter,
    letters_end,
    lines_trimmed,
    number_digit,
    number_end,
    number_value,
    rtf_read,
    rtf_step,
    rtf_text,
    run_value,
    tidied,
    token_at,
    Rtf,
    Token,
};
use crate::trim::{
    exactly,
    joined,
    law_split_undoes_join,
    lemma_strip_back_unique,
    strip_back,
    trimmed,
};

/// A piece of an RTF source.
pub enum Piece {
    /// A character of the text: as it is where it is printable ASCII, behind a backslash
    /// where it is a backslash or a brace, as `\par` or `\tab` where it is a line break or a
    /// tab, and by its number elsewhere.
    Letter(char),
    /// A character by its byte in Windows-1252.
    Byte(u8),
    /// A control word that only formats, with its number. A space ends it, unless what
    /// follows does.
    Format { word: Seq<char>, number: Option<nat>, tight: bool },
    /// Pieces in braces.
    Group(Seq<Piece>),
    /// Pieces in braces that hold a table or other data, as the word before them says. A
    /// space ends the word, unless what follows does.
    Data { word: Seq<char>, tight: bool, inside: Seq<Piece> },
}

/// ASCII characters as bytes.
pub open spec fn ascii(s: Seq<char>) -> Seq<u8> {
    Seq::new(s.len(), |i: int| s[i] as u8)
}

/// A digit of sixteen.
pub open spec fn hex_of_value(v: int) -> u8 {
    if v < 10 {
        (0x30 + v) as u8
    } else {
        (0x57 + v) as u8
    }
}

/// How a character of the text is written.
pub open spec fn letter_source(c: char) -> Seq<u8> {
    if c == '\n' {
        seq![0x5cu8, 0x70u8, 0x61u8, 0x72u8, 0x20u8]
    } else if c == '\t' {
        seq![0x5cu8, 0x74u8, 0x61u8, 0x62u8, 0x20u8]
    } else if c == '\\' || c == '{' || c == '}' {
        seq![0x5cu8, c as u8]
    } else if ' ' <= c <= '~' {
        seq![c as u8]
    } else {
        seq![0x5cu8, 0x75u8] + ascii(decimal(c as nat)) + seq![0x3fu8]
    }
}

/// A control word as it is written.
pub open spec fn word_source(word: Seq<char>, number: Option<nat>, tight: bool) -> Seq<u8> {
    seq![0x5cu8] + ascii(word) + (match number {
        Some(n) => ascii(decimal(n)),
        None => Seq::empty(),
    }) + (if tight {
        Seq::empty()
    } else {
        seq![0x20u8]
    })
}

/// A piece as it is written.
pub open spec fn piece_source(p: Piece) -> Seq<u8>
    decreases p,
{
    match p {
        Piece::Letter(c) => letter_source(c),
        Piece::Byte(b) => seq![
            0x5cu8,
            0x27u8,
            hex_of_value(b as int / 16),
            hex_of_value(b as int % 16),
        ],
        Piece::Format { word, number, tight } => word_source(word, number, tight),
        Piece::Group(l) => seq![0x7bu8] + pieces_source(l) + seq![0x7du8],
        Piece::Data { word, tight, inside } => seq![0x7bu8] + word_source(word, None, tight)
            + pieces_source(inside) + seq![0x7du8],
    }
}

/// Pieces as they are written.
pub open spec fn pieces_source(l: Seq<Piece>) -> Seq<u8>
    decreases l,
{
    if l.len() == 0 {
        Seq::empty()
    } else {
        pieces_source(l.drop_last()) + piece_source(l.last())
    }
}

/// The text of a piece. Formatting and data have none.
pub open spec fn piece_text(p: Piece) -> Seq<char>
    decreases p,
{
    match p {
        Piece::Letter(c) => seq![c],
        Piece::Byte(b) => seq![windows_1252(b)],
        Piece::Format { word, number, tight } => Seq::empty(),
        Piece::Group(l) => pieces_text(l),
        Piece::Data { word, tight, inside } => Seq::empty(),
    }
}

/// The text of pieces.
pub open spec fn pieces_text(l: Seq<Piece>) -> Seq<char>
    decreases l,
{
    if l.len() == 0 {
        Seq::empty()
    } else {
        pieces_text(l.drop_last()) + piece_text(l.last())
    }
}

/// The words that say that a group holds data.
pub open spec fn data_word(w: Seq<char>) -> bool {
    w == "fonttbl"@ || w == "colortbl"@ || w == "stylesheet"@ || w == "pict"@ || w == "object"@ || w
        == "info"@ || w == "generator"@ || w == "themedata"@ || w == "colorschememapping"@ || w
        == "latentstyles"@ || w == "listtable"@ || w == "revtbl"@ || w == "rsidtbl"@ || w
        == "filetbl"@ || w == "xmlnstbl"@
}

/// A word of ASCII letters.
pub open spec fn letters_only(w: Seq<char>) -> bool {
    w.len() > 0 && forall|i: int|
        0 <= i < w.len() ==> ('a' <= #[trigger] w[i] <= 'z' || 'A' <= w[i] <= 'Z')
}

/// The words that only format: those that stand for no character and for no data.
pub open spec fn format_word(w: Seq<char>) -> bool {
    letters_only(w) && !data_word(w) && w != "par"@ && w != "line"@ && w != "sect"@ && w != "page"@
        && w != "tab"@ && w != "u"@
}

/// Whether a piece starts with a backslash or a brace, and so ends a word before it.
pub open spec fn ends_word(p: Piece) -> bool {
    match p {
        Piece::Letter(c) => !(' ' <= c <= '~') || c == '\\' || c == '{' || c == '}',
        _ => true,
    }
}

/// Whether a piece is a word that what follows has to end.
pub open spec fn is_tight(p: Piece) -> bool {
    p matches Piece::Format { tight, .. } && tight
}

/// Whether a piece is well formed.
pub open spec fn piece_ok(p: Piece) -> bool
    decreases p,
{
    match p {
        Piece::Letter(_) => true,
        Piece::Byte(_) => true,
        Piece::Format { word, number, tight } => format_word(word) && (number matches Some(n) ==> n
            <= i32::MAX),
        Piece::Group(l) => pieces_ok(l),
        Piece::Data { word, tight, inside } => data_word(word) && pieces_ok(inside) && (tight
            && inside.len() > 0 ==> ends_word(inside[0])),
    }
}

/// Whether pieces are well formed, and each word among them that has no space behind it is
/// ended by the piece after it.
pub open spec fn pieces_ok(l: Seq<Piece>) -> bool
    decreases l,
{
    if l.len() == 0 {
        true
    } else {
        &&& pieces_ok(l.drop_last())
        &&& piece_ok(l.last())
        &&& l.len() > 1 && is_tight(l[l.len() - 2]) ==> ends_word(l.last())
    }
}

/// Whether the byte at `i` ends a word: a backslash or a brace.
spec fn hard_at(s: Seq<u8>, i: int) -> bool {
    0 <= i < s.len() && (s[i] == 0x5c || s[i] == 0x7b || s[i] == 0x7d)
}

proof fn lemma_letters_end(b: Seq<u8>, i: int, k: int)
    requires
        0 <= i <= k <= b.len(),
        forall|j: int| i <= j < k ==> letter(#[trigger] b[j]),
        k == b.len() || !letter(b[k]),
    ensures
        letters_end(b, i) == k,
    decreases k - i,
{
    if i < k {
        assert(letter(b[i]));
        lemma_letters_end(b, i + 1, k);
    }
}

proof fn lemma_digits_end(b: Seq<u8>, i: int, k: int)
    requires
        0 <= i <= k <= b.len(),
        forall|j: int| i <= j < k ==> number_digit(#[trigger] b[j]),
        k == b.len() || !number_digit(b[k]),
    ensures
        digits_end(b, i) == k,
    decreases k - i,
{
    if i < k {
        assert(number_digit(b[i]));
        lemma_digits_end(b, i + 1, k);
    }
}

proof fn lemma_run_value(s: Seq<char>)
    requires
        forall|i: int| 0 <= i < s.len() ==> is_digit(#[trigger] s[i]),
    ensures
        run_value(ascii(s)) == digits_value(s),
        forall|i: int| 0 <= i < s.len() ==> number_digit(#[trigger] ascii(s)[i]),
    decreases s.len(),
{
    if s.len() > 0 {
        let p = s.drop_last();
        assert forall|i: int| 0 <= i < p.len() implies is_digit(#[trigger] p[i]) by {
            assert(p[i] == s[i]);
        }
        lemma_run_value(p);
        assert(ascii(s).drop_last() =~= ascii(p));
        assert(is_digit(s[s.len() - 1]));
        assert forall|i: int| 0 <= i < s.len() implies number_digit(#[trigger] ascii(s)[i]) by {
            assert(is_digit(s[i]));
        }
    }
}

proof fn lemma_is_word(word: Seq<char>, other: Seq<char>)
    requires
        letters_only(word),
    ensures
        is_word(ascii(word), other) == (word == other),
        forall|i: int| 0 <= i < word.len() ==> letter(#[trigger] ascii(word)[i]),
{
    let w = ascii(word);
    assert forall|i: int| 0 <= i < word.len() implies letter(#[trigger] w[i]) && w[i] as char
        == word[i] by {
        assert('a' <= word[i] <= 'z' || 'A' <= word[i] <= 'Z');
    }
    if is_word(w, other) {
        assert(word =~= other) by {
            assert forall|i: int| 0 <= i < word.len() implies word[i] == other[i] by {
                assert(w[i] as char == other[i]);
            }
        }
    }
}

/// What a control word means: of letters, with its number, and ended by a space or by what
/// follows.
spec fn word_token(word: Seq<char>) -> Token {
    if word == "par"@ || word == "line"@ || word == "sect"@ || word == "page"@ {
        Token::Letter('\n')
    } else if word == "tab"@ {
        Token::Letter('\t')
    } else if data_word(word) {
        Token::Destination
    } else {
        Token::Ignored
    }
}

proof fn lemma_word_lengths()
    ensures
        letters_only("par"@) && letters_only("tab"@) && letters_only("u"@),
        "u"@ != "par"@ && "u"@ != "line"@ && "u"@ != "sect"@ && "u"@ != "page"@ && "u"@ != "tab"@,
        "tab"@ != "par"@ && "tab"@ != "line"@ && "tab"@ != "sect"@ && "tab"@ != "page"@,
        !data_word("u"@),
        ascii("par"@) == seq![0x70u8, 0x61u8, 0x72u8],
        ascii("tab"@) == seq![0x74u8, 0x61u8, 0x62u8],
        ascii("u"@) == seq![0x75u8],
{
    reveal_strlit("par");
    reveal_strlit("line");
    reveal_strlit("sect");
    reveal_strlit("page");
    reveal_strlit("tab");
    reveal_strlit("u");
    assert("par"@[0] != "tab"@[0]);
    assert(ascii("par"@) =~= seq![0x70u8, 0x61u8, 0x72u8]);
    assert(ascii("tab"@) =~= seq![0x74u8, 0x61u8, 0x62u8]);
    assert(ascii("u"@) =~= seq![0x75u8]);
    if data_word("u"@) {
        lemma_data_words("u"@);
    }
}

proof fn lemma_data_words(w: Seq<char>)
    requires
        data_word(w),
    ensures
        letters_only(w),
        w.len() > 3,
        w != "par"@ && w != "line"@ && w != "sect"@ && w != "page"@ && w != "tab"@ && w != "u"@,
{
    reveal_strlit("par");
    reveal_strlit("line");
    reveal_strlit("sect");
    reveal_strlit("page");
    reveal_strlit("tab");
    reveal_strlit("u");
    reveal_strlit("fonttbl");
    reveal_strlit("colortbl");
    reveal_strlit("stylesheet");
    reveal_strlit("pict");
    reveal_strlit("object");
    reveal_strlit("info");
    reveal_strlit("generator");
    reveal_strlit("themedata");
    reveal_strlit("colorschememapping");
    reveal_strlit("latentstyles");
    reveal_strlit("listtable");
    reveal_strlit("revtbl");
    reveal_strlit("rsidtbl");
    reveal_strlit("filetbl");
    reveal_strlit("xmlnstbl");
    assert(w.len() == 4 ==> w[3] == 't' || w[3] == 'o');
    assert("line"@[3] == 'e' && "page"@[3] == 'e');
    assert("sect"@[0] == 's');
    assert(w.len() == 4 ==> w[0] == 'p' || w[0] == 'i');
}

/// The control word at a backslash, where it is of letters, has this number, and ends at `e`.
proof fn lemma_control(s: Seq<u8>, i: int, word: Seq<char>, number: Option<nat>, e: int)
    requires
        letters_only(word),
        0 <= i,
        number matches Some(n) ==> n <= i32::MAX,
        e == i + 1 + word.len() + (match number {
            Some(n) => decimal(n).len(),
            None => 0,
        }),
        e < s.len(),
        s.subrange(i, e) == word_source(word, number, true),
        !letter(s[e]) && !number_digit(s[e]) && s[e] != 0x2d,
    ensures
        s[i] == 0x5c,
        s[i + 1] == word[0] as u8,
        letters_end(s, i + 1) == i + 1 + word.len(),
        number_end(s, i + 1 + word.len()) == e,
        s.subrange(i + 1, i + 1 + word.len()) == ascii(word),
        number_value(s.subrange(i + 1 + word.len(), e)) == (match number {
            Some(n) => Some(n as int),
            None => None,
        }),
{
    let x = word_source(word, number, true);
    let k = i + 1 + word.len();
    lemma_is_word(word, word);
    assert forall|j: int| 0 <= j < x.len() implies #[trigger] s[i + j] == x[j] by {
        assert(s.subrange(i, e)[j] == s[i + j]);
    }
    assert(s[i + 0] == x[0]);
    assert(s[i + 1] == x[1]);
    assert(x[1] == ascii(word)[0]);
    assert forall|j: int| i + 1 <= j < k implies letter(#[trigger] s[j]) by {
        assert(s[i + (j - i)] == x[j - i]);
        assert(x[j - i] == ascii(word)[j - i - 1]);
    }
    assert(s.subrange(i + 1, k) =~= ascii(word)) by {
        assert forall|j: int| 0 <= j < word.len() implies s.subrange(i + 1, k)[j] == ascii(
            word,
        )[j] by {
            assert(s[i + (j + 1)] == x[j + 1]);
        }
    }
    match number {
        Some(n) => {
            let d = ascii(decimal(n));
            lemma_decimal_digits(n);
            lemma_run_value(decimal(n));
            law_decimal_reads_back(n);
            assert forall|j: int| k <= j < e implies number_digit(#[trigger] s[j]) by {
                assert(s[i + (j - i)] == x[j - i]);
                assert(x[j - i] == d[j - k]);
            }
            assert(number_digit(s[k]));
            lemma_letters_end(s, i + 1, k);
            lemma_digits_end(s, k + 1, e);
            let t = s.subrange(k, e);
            assert(t =~= d) by {
                assert forall|j: int| 0 <= j < d.len() implies t[j] == d[j] by {
                    assert(s[i + (k - i + j)] == x[k - i + j]);
                }
            }
            assert(number_digit(t[0]));
        },
        None => {
            lemma_letters_end(s, i + 1, k);
            assert(s.subrange(k, e).len() == 0);
        },
    }
}

/// A control word is read as what it means, up to its end.
proof fn lemma_word_token(
    s: Seq<u8>,
    i: int,
    word: Seq<char>,
    number: Option<nat>,
    tight: bool,
    e: int,
)
    requires
        letters_only(word),
        word != "u"@,
        0 <= i,
        number matches Some(n) ==> n <= i32::MAX,
        e == i + word_source(word, number, tight).len(),
        e <= s.len(),
        s.subrange(i, e) == word_source(word, number, tight),
        tight ==> hard_at(s, e),
    ensures
        token_at(s, i) == (word_token(word), e),
{
    let x = word_source(word, number, tight);
    let y = word_source(word, number, true);
    let f = i + y.len();
    if tight {
        assert(x =~= y);
    } else {
        assert(x =~= y + seq![0x20u8]);
        assert(s.subrange(i, e)[f - i] == s[f]);
        assert(s.subrange(i, f) =~= y) by {
            assert forall|j: int| 0 <= j < y.len() implies s.subrange(i, f)[j] == y[j] by {
                assert(s.subrange(i, e)[j] == x[j]);
            }
        }
    }
    lemma_control(s, i, word, number, f);
    assert('a' <= word[0] <= 'z' || 'A' <= word[0] <= 'Z');
    lemma_words_read(word);
    assert(token_at(s, i) == control_at(s, i));
}

/// Each of the words that mean something is told from every other.
proof fn lemma_words_read(word: Seq<char>)
    requires
        letters_only(word),
    ensures
        crate::rtf::break_word(ascii(word)) == (word == "par"@ || word == "line"@ || word == "sect"@
            || word == "page"@),
        is_word(ascii(word), "tab"@) == (word == "tab"@),
        is_word(ascii(word), "u"@) == (word == "u"@),
        crate::rtf::destination_word(ascii(word)) == data_word(word),
{
    lemma_is_word(word, "par"@);
    lemma_is_word(word, "line"@);
    lemma_is_word(word, "sect"@);
    lemma_is_word(word, "page"@);
    lemma_is_word(word, "tab"@);
    lemma_is_word(word, "u"@);
    lemma_is_word(word, "fonttbl"@);
    lemma_is_word(word, "colortbl"@);
    lemma_is_word(word, "stylesheet"@);
    lemma_is_word(word, "pict"@);
    lemma_is_word(word, "object"@);
    lemma_is_word(word, "info"@);
    lemma_is_word(word, "generator"@);
    lemma_is_word(word, "themedata"@);
    lemma_is_word(word, "colorschememapping"@);
    lemma_is_word(word, "latentstyles"@);
    lemma_is_word(word, "listtable"@);
    lemma_is_word(word, "revtbl"@);
    lemma_is_word(word, "rsidtbl"@);
    lemma_is_word(word, "filetbl"@);
    lemma_is_word(word, "xmlnstbl"@);
}

/// A character is read as itself, however it is written.
proof fn lemma_letter_token(s: Seq<u8>, i: int, c: char)
    requires
        0 <= i,
        i + letter_source(c).len() <= s.len(),
        s.subrange(i, i + letter_source(c).len()) == letter_source(c),
    ensures
        token_at(s, i) == (Token::Letter(c), i + letter_source(c).len()),
{
    let x = letter_source(c);
    let e = i + x.len();
    lemma_word_lengths();
    assert forall|j: int| 0 <= j < x.len() implies #[trigger] s[i + j] == x[j] by {
        assert(s.subrange(i, e)[j] == s[i + j]);
    }
    if c == '\n' {
        assert(x =~= word_source("par"@, None, false));
        lemma_word_token(s, i, "par"@, None, false, e);
    } else if c == '\t' {
        assert(x =~= word_source("tab"@, None, false));
        lemma_word_token(s, i, "tab"@, None, false, e);
    } else if c == '\\' || c == '{' || c == '}' {
        assert(s[i + 0] == x[0]);
        assert(s[i + 1] == x[1]);
    } else if ' ' <= c <= '~' {
        assert(s[i + 0] == x[0]);
    } else {
        let n = c as nat;
        let y = word_source("u"@, Some(n), true);
        assert(x =~= y + seq![0x3fu8]);
        let f = i + y.len();
        assert(s[i + (f - i)] == x[f - i]);
        assert(s.subrange(i, f) =~= y) by {
            assert forall|j: int| 0 <= j < y.len() implies s.subrange(i, f)[j] == y[j] by {
                assert(s[i + j] == x[j]);
            }
        }
        lemma_control(s, i, "u"@, Some(n), f);
        lemma_words_read("u"@);
        assert(scalar(n as int));
        assert(token_at(s, i) == control_at(s, i));
    }
}

/// What reading a text does to the reader: it is added, unless a group is being skipped.
spec fn with_text(st: Rtf, t: Seq<char>) -> Rtf {
    if st.skip is None {
        Rtf { out: st.out + t, ..st }
    } else {
        st
    }
}

/// Whether a reader is inside the group that it skips, if it skips one.
spec fn within(st: Rtf) -> bool {
    st.depth >= 0 && (st.skip matches Some(d) ==> st.depth >= d)
}

proof fn lemma_first_byte(p: Piece)
    requires
        ends_word(p),
    ensures
        piece_source(p).len() > 0,
        piece_source(p)[0] == 0x5c || piece_source(p)[0] == 0x7b,
{
}

proof fn lemma_some_byte(p: Piece)
    ensures
        piece_source(p).len() > 0,
{
}

proof fn lemma_read_piece(s: Seq<u8>, i: int, p: Piece, st: Rtf)
    requires
        0 <= i,
        i + piece_source(p).len() <= s.len(),
        s.subrange(i, i + piece_source(p).len()) == piece_source(p),
        piece_ok(p),
        is_tight(p) ==> hard_at(s, i + piece_source(p).len()),
        within(st),
    ensures
        rtf_read(s, i, st) == rtf_read(s, i + piece_source(p).len(), with_text(st, piece_text(p))),
    decreases p, 0nat,
{
    let x = piece_source(p);
    let e = i + x.len();
    assert forall|j: int| 0 <= j < x.len() implies #[trigger] s[i + j] == x[j] by {
        assert(s.subrange(i, e)[j] == s[i + j]);
    }
    lemma_some_byte(p);
    assert(s[i + 0] == x[0]);
    match p {
        Piece::Letter(c) => {
            lemma_letter_token(s, i, c);
            assert(st.out.push(c) =~= st.out + seq![c]);
            let st1 = rtf_step(st, Token::Letter(c));
            assert(piece_text(p) == seq![c]);
            assert(st1 == with_text(st, piece_text(p)));
            assert(token_at(s, i) == (Token::Letter(c), e));
            assert(rtf_read(s, i, st) == rtf_read(s, token_at(s, i).1, rtf_step(st, token_at(s, i).0)));
            assert(rtf_read(s, i, st) == rtf_read(s, e, with_text(st, piece_text(p))));
        },
        Piece::Byte(b) => {
            assert(s[i + 1] == x[1] && s[i + 2] == x[2] && s[i + 3] == x[3]);
            let (h, l) = (b as int / 16, b as int % 16);
            assert(0 <= h < 16 && 0 <= l < 16 && h * 16 + l == b);
            assert(hex_digit(x[2]) && hex_value(x[2]) == h);
            assert(hex_digit(x[3]) && hex_value(x[3]) == l);
            let c = windows_1252(b);
            assert(token_at(s, i) == (Token::Letter(c), e));
            assert(st.out.push(c) =~= st.out + seq![c]);
        },
        Piece::Format { word, number, tight } => {
            lemma_word_token(s, i, word, number, tight, e);
            assert(st.out + Seq::<char>::empty() =~= st.out);
        },
        Piece::Group(l) => {
            let inner = pieces_source(l);
            assert(token_at(s, i) == (Token::Open, i + 1));
            let st1 = rtf_step(st, Token::Open);
            assert(s.subrange(i + 1, e - 1) =~= inner) by {
                assert forall|j: int| 0 <= j < inner.len() implies s.subrange(i + 1, e - 1)[j]
                    == inner[j] by {
                    assert(s[i + (j + 1)] == x[j + 1]);
                }
            }
            assert(s[i + (e - 1 - i)] == x[e - 1 - i]);
            assert(s[e - 1] == 0x7d);
            lemma_read_pieces(s, i + 1, l, st1);
            let st2 = with_text(st1, pieces_text(l));
            assert(token_at(s, e - 1) == (Token::Close, e));
            assert(rtf_step(st2, Token::Close) == with_text(st, pieces_text(l)));
        },
        Piece::Data { word, tight, inside } => {
            let w = word_source(word, None, tight);
            let inner = pieces_source(inside);
            let k = i + 1 + w.len();
            assert(token_at(s, i) == (Token::Open, i + 1));
            let st1 = rtf_step(st, Token::Open);
            assert(s.subrange(i + 1, k) =~= w) by {
                assert forall|j: int| 0 <= j < w.len() implies s.subrange(i + 1, k)[j] == w[j] by {
                    assert(s[i + (j + 1)] == x[j + 1]);
                }
            }
            assert(s.subrange(k, e - 1) =~= inner) by {
                assert forall|j: int| 0 <= j < inner.len() implies s.subrange(k, e - 1)[j]
                    == inner[j] by {
                    assert(s[i + (k - i + j)] == x[k - i + j]);
                }
            }
            assert(s[i + (e - 1 - i)] == x[e - 1 - i]);
            assert(s[e - 1] == 0x7d);
            if tight {
                if inside.len() > 0 {
                    lemma_front_byte(inside);
                    assert(s.subrange(k, e - 1)[0] == s[k]);
                } else {
                    assert(k == e - 1);
                }
            }
            lemma_data_words(word);
            lemma_word_token(s, i + 1, word, None, tight, k);
            let st2 = rtf_step(st1, Token::Destination);
            assert(word_token(word) == Token::Destination);
            assert(within(st2));
            assert(st2.skip is Some);
            lemma_read_pieces(s, k, inside, st2);
            assert(with_text(st2, pieces_text(inside)) == st2);
            assert(token_at(s, e - 1) == (Token::Close, e));
            let st3 = rtf_step(st2, Token::Close);
            assert(st3 == st);
            assert(st.out + Seq::<char>::empty() =~= st.out);
        },
    }
}

/// The first byte of pieces is that of the first piece.
proof fn lemma_front_byte(l: Seq<Piece>)
    requires
        l.len() > 0,
        ends_word(l[0]),
    ensures
        pieces_source(l).len() > 0,
        pieces_source(l)[0] == 0x5c || pieces_source(l)[0] == 0x7b,
    decreases l.len(),
{
    if l.len() == 1 {
        lemma_first_byte(l[0]);
        assert(pieces_source(l.drop_last()) =~= Seq::<u8>::empty());
        assert(pieces_source(l) =~= piece_source(l[0]));
    } else {
        lemma_front_byte(l.drop_last());
    }
}

proof fn lemma_read_pieces(s: Seq<u8>, i: int, l: Seq<Piece>, st: Rtf)
    requires
        0 <= i,
        i + pieces_source(l).len() <= s.len(),
        s.subrange(i, i + pieces_source(l).len()) == pieces_source(l),
        pieces_ok(l),
        l.len() > 0 && is_tight(l.last()) ==> hard_at(s, i + pieces_source(l).len()),
        within(st),
    ensures
        rtf_read(s, i, st) == rtf_read(
            s,
            i + pieces_source(l).len(),
            with_text(st, pieces_text(l)),
        ),
    decreases l, 1nat,
{
    if l.len() == 0 {
        assert(st.out + Seq::<char>::empty() =~= st.out);
    } else {
        let front = l.drop_last();
        let last = l.last();
        let a = pieces_source(front);
        let b = piece_source(last);
        let k = i + a.len();
        let e = k + b.len();
        let x = pieces_source(l);
        assert(x == a + b);
        assert forall|j: int| 0 <= j < x.len() implies #[trigger] s[i + j] == x[j] by {
            assert(s.subrange(i, e)[j] == s[i + j]);
        }
        assert(s.subrange(i, k) =~= a) by {
            assert forall|j: int| 0 <= j < a.len() implies s.subrange(i, k)[j] == a[j] by {
                assert(s[i + j] == x[j]);
            }
        }
        assert(s.subrange(k, e) =~= b) by {
            assert forall|j: int| 0 <= j < b.len() implies s.subrange(k, e)[j] == b[j] by {
                assert(s[i + (k - i + j)] == x[k - i + j]);
            }
        }
        if front.len() > 0 && is_tight(front.last()) {
            assert(front.last() == l[l.len() - 2]);
            lemma_first_byte(last);
            assert(s[i + (k - i)] == x[k - i]);
        }
        lemma_read_pieces(s, i, front, st);
        let mid = with_text(st, pieces_text(front));
        lemma_read_piece(s, k, last, mid);
        assert(with_text(mid, piece_text(last)) == with_text(st, pieces_text(l))) by {
            assert((st.out + pieces_text(front)) + piece_text(last) =~= st.out + pieces_text(l));
        }
    }
}

/// The text of an RTF source is that of its pieces: every character that it writes, in
/// order, and nothing of its formatting, its tables and its other data. Blanks at line ends
/// and around it all are dropped.
pub proof fn law_rtf_text_is_that_of_its_pieces(l: Seq<Piece>)
    requires
        pieces_ok(l),
    ensures
        rtf_text(piece_source(Piece::Group(l))) == tidied(pieces_text(l)),
{
    let s = piece_source(Piece::Group(l));
    let st = Rtf { out: Seq::empty(), depth: 0, skip: None };
    assert(s.subrange(0, s.len() as int) =~= s);
    lemma_read_piece(s, 0, Piece::Group(l), st);
    assert(st.out + pieces_text(l) =~= pieces_text(l));
}

/// The reader stands as it did before a group of data once it has read it, wherever in a
/// source the group is.
pub proof fn law_data_leaves_no_trace(
    s: Seq<u8>,
    i: int,
    word: Seq<char>,
    tight: bool,
    inside: Seq<Piece>,
    st: Rtf,
)
    requires
        data_word(word),
        pieces_ok(inside),
        tight && inside.len() > 0 ==> ends_word(inside[0]),
        0 <= i,
        ({
            let x = piece_source(Piece::Data { word, tight, inside });
            i + x.len() <= s.len() && s.subrange(i, i + x.len()) == x
        }),
        st.depth >= 0,
        st.skip matches Some(d) ==> st.depth >= d,
    ensures
        rtf_read(s, i, st) == rtf_read(
            s,
            i + piece_source(Piece::Data { word, tight, inside }).len(),
            st,
        ),
{
    lemma_read_piece(s, i, Piece::Data { word, tight, inside }, st);
    assert(st.out + Seq::<char>::empty() =~= st.out);
}

proof fn lemma_ends_shift(x: Seq<u8>, b: Seq<u8>, i: int)
    requires
        0 <= i,
    ensures
        letters_end(x + b, x.len() + i) == x.len() + letters_end(b, i),
        digits_end(x + b, x.len() + i) == x.len() + digits_end(b, i),
    decreases b.len() - i,
{
    let s = x + b;
    if i < b.len() {
        assert(s[x.len() + i] == b[i]);
        lemma_ends_shift(x, b, i + 1);
    }
}

proof fn lemma_token_shift(x: Seq<u8>, b: Seq<u8>, i: int)
    requires
        0 <= i < b.len(),
    ensures
        token_at(x + b, x.len() + i) == (token_at(b, i).0, x.len() + token_at(b, i).1),
{
    let s = x + b;
    let n = x.len() as int;
    assert(s[n + i] == b[i]);
    if i + 1 < b.len() {
        assert(s[n + i + 1] == b[i + 1]);
        if i + 3 < b.len() {
            assert(s[n + i + 2] == b[i + 2]);
            assert(s[n + i + 3] == b[i + 3]);
        }
        lemma_run_ends(b, i + 1);
        lemma_ends_shift(x, b, i + 1);
        let w = letters_end(b, i + 1);
        if w < b.len() {
            assert(s[n + w] == b[w]);
            lemma_run_ends(b, w + 1);
        }
        lemma_ends_shift(x, b, w + 1);
        assert(number_end(s, n + w) == n + number_end(b, w));
        let e = number_end(b, w);
        assert(s.subrange(n + i + 1, n + w) =~= b.subrange(i + 1, w));
        assert(s.subrange(n + w, n + e) =~= b.subrange(w, e));
        if e < b.len() {
            assert(s[n + e] == b[e]);
            if e + 1 < b.len() {
                assert(s[n + e + 1] == b[e + 1]);
            }
        }
        assert(control_at(s, n + i) == (control_at(b, i).0, n + control_at(b, i).1));
    }
}

proof fn lemma_read_shift(x: Seq<u8>, b: Seq<u8>, i: int, st: Rtf)
    requires
        0 <= i <= b.len(),
    ensures
        rtf_read(x + b, x.len() + i, st) == rtf_read(b, i, st),
    decreases b.len() - i,
{
    if i < b.len() {
        lemma_token_shift(x, b, i);
        lemma_token_at(b, i);
        lemma_read_shift(x, b, token_at(b, i).1, rtf_step(st, token_at(b, i).0));
    }
}

/// The beginning of a source: groups inside each other that are still open, with the pieces
/// that stand in each before the next one opens.
pub open spec fn opened_source(levels: Seq<Seq<Piece>>) -> Seq<u8>
    decreases levels.len(),
{
    if levels.len() == 0 {
        Seq::empty()
    } else {
        opened_source(levels.drop_last()) + seq![0x7bu8] + pieces_source(levels.last())
    }
}

/// The text that the beginning of a source has.
pub open spec fn opened_text(levels: Seq<Seq<Piece>>) -> Seq<char>
    decreases levels.len(),
{
    if levels.len() == 0 {
        Seq::empty()
    } else {
        opened_text(levels.drop_last()) + pieces_text(levels.last())
    }
}

proof fn lemma_read_opened(s: Seq<u8>, levels: Seq<Seq<Piece>>)
    requires
        forall|i: int| 0 <= i < levels.len() ==> pieces_ok(#[trigger] levels[i]),
        opened_source(levels).len() <= s.len(),
        s.subrange(0, opened_source(levels).len() as int) == opened_source(levels),
        levels.len() > 0 && levels.last().len() > 0 && is_tight(levels.last().last()) ==> hard_at(
            s,
            opened_source(levels).len() as int,
        ),
    ensures
        rtf_read(s, 0, Rtf { out: Seq::empty(), depth: 0, skip: None }) == rtf_read(
            s,
            opened_source(levels).len() as int,
            Rtf { out: opened_text(levels), depth: levels.len() as int, skip: None },
        ),
    decreases levels.len(),
{
    if levels.len() > 0 {
        let front = levels.drop_last();
        let l = levels[levels.len() - 1];
        let a = opened_source(front);
        let c = pieces_source(l);
        let whole = opened_source(levels);
        let k = a.len() as int;
        let e = whole.len() as int;
        assert forall|j: int| 0 <= j < e implies #[trigger] s[j] == whole[j] by {
            assert(s.subrange(0, e)[j] == s[j]);
        }
        assert(s.subrange(0, k) =~= a) by {
            assert forall|j: int| 0 <= j < k implies s.subrange(0, k)[j] == a[j] by {
                assert(s[j] == whole[j]);
            }
        }
        assert(s[k] == whole[k] && whole[k] == 0x7b);
        assert(s.subrange(k + 1, e) =~= c) by {
            assert forall|j: int| 0 <= j < c.len() implies s.subrange(k + 1, e)[j] == c[j] by {
                assert(s[k + 1 + j] == whole[k + 1 + j]);
            }
        }
        assert forall|i: int| 0 <= i < front.len() implies pieces_ok(#[trigger] front[i]) by {
            assert(front[i] == levels[i]);
        }
        lemma_read_opened(s, front);
        let st = Rtf { out: opened_text(front), depth: front.len() as int, skip: None };
        let deeper = Rtf { depth: levels.len() as int, ..st };
        assert(token_at(s, k) == (Token::Open, k + 1));
        assert(rtf_read(s, k, st) == rtf_read(s, k + 1, rtf_step(st, Token::Open)));
        assert(rtf_step(st, Token::Open) == deeper);
        assert(pieces_ok(l));
        lemma_read_pieces(s, k + 1, l, deeper);
    }
}

/// A group of data can be put into a source, or taken out of it, without a change to the text,
/// whatever follows it.
pub proof fn law_data_can_be_put_in(
    levels: Seq<Seq<Piece>>,
    word: Seq<char>,
    tight: bool,
    inside: Seq<Piece>,
    rest: Seq<u8>,
)
    requires
        forall|i: int| 0 <= i < levels.len() ==> pieces_ok(#[trigger] levels[i]),
        levels.len() > 0 && levels.last().len() > 0 && is_tight(levels.last().last()) ==> rest.len()
            > 0 && (rest[0] == 0x5c || rest[0] == 0x7b || rest[0] == 0x7d),
        data_word(word),
        pieces_ok(inside),
        tight && inside.len() > 0 ==> ends_word(inside[0]),
    ensures
        rtf_text(opened_source(levels) + piece_source(Piece::Data { word, tight, inside }) + rest)
            == rtf_text(opened_source(levels) + rest),
{
    let a = opened_source(levels);
    let d = piece_source(Piece::Data { word, tight, inside });
    let s = a + d + rest;
    let t = a + rest;
    let start = Rtf { out: Seq::empty(), depth: 0, skip: None };
    let st = Rtf { out: opened_text(levels), depth: levels.len() as int, skip: None };
    let k = a.len() as int;
    assert(s.subrange(0, k) =~= a);
    assert(t.subrange(0, k) =~= a);
    assert(d[0] == 0x7b);
    assert(s[k] == d[0]);
    if rest.len() > 0 {
        assert(t[k] == rest[0]);
    }
    lemma_read_opened(s, levels);
    lemma_read_opened(t, levels);
    assert(s.subrange(k, k + d.len()) =~= d);
    law_data_leaves_no_trace(s, k, word, tight, inside, st);
    lemma_read_shift(a + d, rest, 0, st);
    lemma_read_shift(a, rest, 0, st);
}

/// Where the reader of a source stands after so many tokens, and how it stands there.
pub open spec fn after(s: Seq<u8>, i: int, st: Rtf, n: nat) -> (int, Rtf)
    decreases n,
{
    if n == 0 {
        (i, st)
    } else {
        let (k, x) = after(s, i, st, (n - 1) as nat);
        if 0 <= k < s.len() {
            (token_at(s, k).1, rtf_step(x, token_at(s, k).0))
        } else {
            (k, x)
        }
    }
}

/// How many more groups have been opened than closed after so many tokens.
pub open spec fn opened_by(s: Seq<u8>, i: int, st: Rtf, n: nat) -> int
    decreases n,
{
    if n == 0 {
        0
    } else {
        let k = after(s, i, st, (n - 1) as nat).0;
        opened_by(s, i, st, (n - 1) as nat) + (if 0 <= k < s.len() && token_at(s, k).0
            == Token::Open {
            1int
        } else if 0 <= k < s.len() && token_at(s, k).0 == Token::Close {
            -1
        } else {
            0
        })
    }
}

/// Whatever a source holds, nothing of a group is kept from the word on that makes it one of
/// data, up to the brace that closes it.
pub proof fn law_nothing_of_a_data_group_is_kept(s: Seq<u8>, i: int, st: Rtf, n: nat)
    requires
        st.skip == Some(st.depth),
        st.depth > 0,
        forall|m: nat| 0 < m < n ==> #[trigger] opened_by(s, i, st, m) >= 0,
        n > 0 ==> opened_by(s, i, st, n) >= -1,
    ensures
        after(s, i, st, n).1.out == st.out,
        opened_by(s, i, st, n) >= 0 ==> after(s, i, st, n).1.skip == st.skip,
        opened_by(s, i, st, n) < 0 ==> after(s, i, st, n).1.skip is None,
        after(s, i, st, n).1.depth == st.depth + opened_by(s, i, st, n),
        0 <= i && i <= s.len() ==> rtf_read(s, i, st) == rtf_read(
            s,
            after(s, i, st, n).0,
            after(s, i, st, n).1,
        ) && 0 <= after(s, i, st, n).0 <= s.len(),
    decreases n,
{
    if n > 0 {
        let m = (n - 1) as nat;
        if m > 0 {
            assert(opened_by(s, i, st, m) >= 0);
        }
        law_nothing_of_a_data_group_is_kept(s, i, st, m);
        let k = after(s, i, st, m).0;
        if 0 <= k < s.len() {
            lemma_token_at(s, k);
        }
    }
}

/// The word of a table or of data makes the group that it stands in one of data.
pub proof fn law_data_words_silence_their_group(
    s: Seq<u8>,
    i: int,
    word: Seq<char>,
    tight: bool,
    st: Rtf,
)
    requires
        data_word(word),
        0 <= i,
        i + word_source(word, None, tight).len() <= s.len(),
        s.subrange(i, i + word_source(word, None, tight).len()) == word_source(word, None, tight),
        tight ==> i + word_source(word, None, tight).len() < s.len() && {
            let c = s[i + word_source(word, None, tight).len()];
            c == 0x5c || c == 0x7b || c == 0x7d
        },
        st.skip is None,
    ensures
        token_at(s, i).1 == i + word_source(word, None, tight).len(),
        rtf_step(st, token_at(s, i).0) == (Rtf { skip: Some(st.depth), ..st }),
{
    lemma_data_words(word);
    lemma_word_token(s, i, word, None, tight, i + word_source(word, None, tight).len());
    lemma_words_read(word);
}

/// Lines lose the spaces at their end, and the text its outer blanks.
pub proof fn law_lines_lose_their_last_spaces(lines: Seq<Seq<char>>, pads: Seq<nat>)
    requires
        lines.len() >= 1,
        pads.len() == lines.len(),
        forall|i: int|
            0 <= i < lines.len() ==> !(#[trigger] lines[i]).contains('\n') && (lines[i].len() > 0
                ==> lines[i].last() != ' '),
    ensures
        tidied(
            joined(
                Seq::new(
                    lines.len(),
                    |i: int| lines[i] + Seq::new(pads[i], |k: int| ' '),
                ),
                seq!['\n'],
            ),
        ) == trimmed(joined(lines, seq!['\n'])),
{
    let l = Seq::new(lines.len(), |i: int| lines[i] + Seq::new(pads[i], |k: int| ' '));
    assert forall|i: int, j: int| 0 <= i < l.len() && 0 <= j < l[i].len() implies #[trigger] l[i][j]
        != '\n' by {
        if j < lines[i].len() {
            assert(l[i][j] == lines[i][j]);
            assert(lines[i].contains(lines[i][j]));
        }
    }
    law_split_undoes_join(l, '\n');
    assert forall|i: int| 0 <= i < l.len() implies strip_back(#[trigger] l[i], exactly(' '))
        == lines[i] by {
        let x = lines[i];
        assert forall|j: int| x.len() <= j < l[i].len() implies exactly(' ')(
            #[trigger] l[i][j],
        ) by {
        }
        if x.len() > 0 {
            assert(l[i][x.len() - 1] == x.last());
        }
        lemma_strip_back_unique(l[i], exactly(' '), x.len() as int);
        assert(l[i].take(x.len() as int) =~= x);
    }
    assert(lines_trimmed(l) =~= lines);
}

} // verus!
