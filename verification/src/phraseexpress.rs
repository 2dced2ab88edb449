//! Import of PhraseExpress files: an XML export, or the program's own database.
//!
//! The layouts vary between versions. Entries of an unexpected shape are left out
//! rather than failing the import.
use crate::csv::eq_ignore_ascii_case;
use crate::text::{char_bytes, chars_of, str_to_lowercase, text_between};
use crate::trim::{is_blank, split, trim};
use vstd::prelude::*;

pub mod pexdb;
pub mod xml;

verus! {

use crate::csv::ascii_lowered;
use crate::text::{byte_count, lowercase_text};
use crate::paths::lemma_pieces_concat;
use crate::trim::{lemma_pieces_nonempty, lemma_pieces_of_plain, pieces, trimmed};

/// What a file with a database begins with: `SQLite format 3` and a zero.
pub open spec fn database_magic() -> Seq<u8> {
    seq![83u8, 81, 76, 105, 116, 101, 32, 102, 111, 114, 109, 97, 116, 32, 51, 0]
}

fn starts_with_bytes(b: &[u8], p: &[u8]) -> (r: bool)
    ensures
        r == p@.is_prefix_of(b@),
{
    if p.len() > b.len() {
        return false;
    }
    let n: usize = p.len();
    for i in 0..n
        invariant
            n == p@.len(),
            n <= b@.len(),
            forall|j: int| 0 <= j < i ==> p@[j] == b@[j],
    {
        if p[i] != b[i] {
            return false;
        }
    }
    true
}

/// Whether a file's first bytes are those of a database.
pub fn is_database(header: &[u8]) -> (r: bool)
    ensures
        r == database_magic().is_prefix_of(header@),
{
    let magic: [u8; 16] = [83, 81, 76, 105, 116, 101, 32, 102, 111, 114, 109, 97, 116, 32, 51, 0];
    assert(magic@ =~= database_magic());
    starts_with_bytes(header, magic.as_slice())
}

/// A byte of plain text.
pub open spec fn printable(b: u8) -> bool {
    0x20 <= b <= 0x7e || b == 13 || b == 10 || b == 9
}

/// How many bytes are plain text.
pub open spec fn printable_count(h: Seq<u8>) -> nat {
    h.filter(|b: u8| printable(b)).len()
}

/// Whether the first bytes look like a text file's: a tag, white space, or a byte
/// order mark.
pub open spec fn text_start(h: Seq<u8>) -> bool {
    h.len() > 0 && (h[0] == 60 || h[0] == 13 || h[0] == 10 || h[0] == 32 || h[0] == 9 || seq![
        0xefu8,
        0xbb,
        0xbf,
    ].is_prefix_of(h) || seq![0xffu8, 0xfe].is_prefix_of(h) || seq![0xfeu8, 0xff].is_prefix_of(h))
}

/// Whether the first bytes look encrypted: no text start, and less than half of
/// them plain text.
pub open spec fn looks_encrypted(h: Seq<u8>) -> bool {
    h.len() > 0 && !text_start(h) && printable_count(h) < h.len() / 2
}

/// Whether a file's first bytes look encrypted.
pub fn is_likely_encrypted(header: &[u8]) -> (r: bool)
    ensures
        r == looks_encrypted(header@),
{
    if header.len() == 0 {
        return false;
    }
    let first: u8 = header[0];
    if first == 60 || first == 13 || first == 10 || first == 32 || first == 9 {
        return false;
    }
    let utf8: [u8; 3] = [0xef, 0xbb, 0xbf];
    let little: [u8; 2] = [0xff, 0xfe];
    let big: [u8; 2] = [0xfe, 0xff];
    assert(utf8@ =~= seq![0xefu8, 0xbb, 0xbf]);
    assert(little@ =~= seq![0xffu8, 0xfe]);
    assert(big@ =~= seq![0xfeu8, 0xff]);
    if starts_with_bytes(header, utf8.as_slice()) || starts_with_bytes(header, little.as_slice())
        || starts_with_bytes(header, big.as_slice()) {
        return false;
    }
    let n: usize = header.len();
    let mut count: usize = 0;
    let ghost p = |b: u8| printable(b);
    assert(header@.take(0).filter(p).len() == 0) by {
        reveal(Seq::filter);
        assert(header@.take(0).len() == 0);
    }
    for i in 0..n
        invariant
            n == header@.len(),
            p == (|b: u8| printable(b)),
            count == header@.take(i as int).filter(p).len(),
            count <= i,
    {
        let b: u8 = header[i];
        proof {
            crate::library::lemma_filter_take_succ(header@, p, i as int);
        }
        if (0x20 <= b && b <= 0x7e) || b == 13 || b == 10 || b == 9 {
            count = count + 1;
        }
    }
    assert(header@.take(n as int) =~= header@);
    count < n / 2
}

/// How a file is read.
#[derive(Debug, Clone, Copy, PartialEq, Eq, Structural)]
pub enum PexFormat {
    Database,
    Encrypted,
    Xml,
}

/// How a file is read, by its first bytes and its extension.
pub fn pex_format(header: &[u8], extension: &str) -> (r: PexFormat)
    ensures
        r == (if database_magic().is_prefix_of(header@) {
            PexFormat::Database
        } else if ascii_lowered(extension@) == ascii_lowered("pexdb"@) && looks_encrypted(header@) {
            PexFormat::Encrypted
        } else {
            PexFormat::Xml
        }),
{
    if is_database(header) {
        PexFormat::Database
    } else if eq_ignore_ascii_case(extension, "pexdb") && is_likely_encrypted(header) {
        PexFormat::Encrypted
    } else {
        PexFormat::Xml
    }
}

/// What is said of an encrypted database.
pub const ENCRYPTED_PEXDB_ERROR: &'static str =
    "This .pexdb file is encrypted (modern PhraseExpress encrypts its database by default) \
         and can't be read directly. In PhraseExpress, go to File → Export → 'Phrase file (*.pex)' \
         and import the resulting .pex XML file here instead.";

/// The longest start of `s` that takes up at most `limit` bytes.
pub open spec fn start_within(s: Seq<char>, limit: nat) -> Seq<char>
    decreases s.len(),
{
    if byte_count(s) <= limit || s.len() == 0 {
        s
    } else {
        start_within(s.drop_last(), limit)
    }
}

/// The first line of a text, trimmed.
pub open spec fn first_line(body: Seq<char>) -> Seq<char> {
    trimmed(pieces(body, '\n')[0])
}

/// A title made of a text: its first line, cut after at most sixty bytes.
pub open spec fn summary(body: Seq<char>) -> Seq<char> {
    let line = first_line(body);
    if byte_count(line) <= 60 {
        line
    } else {
        start_within(line, 60) + "…"@
    }
}

proof fn lemma_start_within(s: Seq<char>, limit: nat, k: int)
    requires
        0 <= k < s.len(),
        byte_count(s.take(k)) <= limit,
        byte_count(s.take(k + 1)) > limit,
    ensures
        start_within(s, limit) == s.take(k),
    decreases s.len(),
{
    lemma_byte_count_grows(s, k + 1);
    assert(s.take(s.len() as int) =~= s);
    let t = s.drop_last();
    if k == t.len() {
        assert(s.take(k) =~= t);
        reveal_with_fuel(start_within, 2);
    } else {
        assert(t.take(k) =~= s.take(k));
        assert(t.take(k + 1) =~= s.take(k + 1));
        lemma_start_within(t, limit, k);
    }
}

proof fn lemma_byte_count_grows(s: Seq<char>, k: int)
    requires
        0 <= k <= s.len(),
    ensures
        byte_count(s.take(k)) <= byte_count(s),
    decreases s.len() - k,
{
    if k == s.len() {
        assert(s.take(k) =~= s);
    } else {
        let t = s.take(k + 1);
        assert(t.drop_last() =~= s.take(k));
        lemma_byte_count_grows(s, k + 1);
    }
}

/// A title made of a text: its first line, cut after at most sixty bytes.
pub fn summarize(body: &str) -> (r: String)
    ensures
        r@ == summary(body@),
{
    let lines: Vec<String> = split(body, '\n');
    proof {
        lemma_pieces_nonempty(body@, '\n');
        assert(crate::text::views(lines@)[0] == lines@[0]@);
        assert(crate::text::views(lines@).len() == lines@.len());
    }
    let line = trim(lines[0].as_str());
    let v: Vec<char> = chars_of(line.as_str());
    let n: usize = v.len();
    let mut used: usize = 0;
    assert(v@.take(0) =~= Seq::<char>::empty());
    for i in 0..n
        invariant
            n == v@.len(),
            v@ == line@,
            line@ == first_line(body@),
            used == byte_count(v@.take(i as int)),
            used <= 60,
    {
        let w: usize = char_bytes(v[i]);
        proof {
            let t = v@.take(i + 1);
            assert(t.drop_last() =~= v@.take(i as int));
            assert(t.last() == v@[i as int]);
        }
        if used + w > 60 {
            proof {
                lemma_start_within(line@, 60, i as int);
                lemma_byte_count_grows(line@, i + 1);
                assert(v@.subrange(0, i as int) =~= line@.take(i as int));
            }
            let mut out: String = text_between(&v, 0, i);
            out.push_str("…");
            return out;
        }
        used = used + w;
    }
    assert(v@.take(n as int) =~= line@);
    line
}

/// The tags of an entry: one for its shortcut, where it has one.
pub open spec fn shortcut_tags(autotext: Option<Seq<char>>) -> Seq<Seq<char>> {
    match autotext {
        Some(a) => if trimmed(a).len() == 0 {
            Seq::empty()
        } else {
            seq!["shortcut:"@ + lowercase_text(trimmed(a))]
        },
        None => Seq::empty(),
    }
}

/// The tags of an entry: one for its shortcut, where it has one.
pub fn tags_of_shortcut(autotext: &Option<String>) -> (r: Vec<String>)
    ensures
        crate::text::views(r@) == shortcut_tags(crate::text::opt_view(*autotext)),
{
    let mut out: Vec<String> = Vec::new();
    if let Some(a) = autotext {
        if !is_blank(a.as_str()) {
            let t = trim(a.as_str());
            let l = str_to_lowercase(t.as_str());
            let mut s: String = "shortcut:".to_owned();
            s.push_str(l.as_str());
            out.push(s);
        }
    }
    assert(crate::text::views(out@) =~= shortcut_tags(crate::text::opt_view(*autotext)));
    out
}

/// A title made of a text is the first line of it, without outer blanks, where that takes up
/// at most sixty bytes.
pub proof fn law_short_lines_become_titles(line: Seq<char>, rest: Seq<char>)
    requires
        !line.contains('\n'),
        byte_count(trimmed(line)) <= 60,
    ensures
        summary(line) == trimmed(line),
        summary(line + seq!['\n'] + rest) == trimmed(line),
{
    lemma_first_line(line, rest);
}

/// A longer first line is cut before the character with which it would take up more than sixty
/// bytes, and ends in an ellipsis.
pub proof fn law_long_lines_are_cut(line: Seq<char>, rest: Seq<char>, k: int)
    requires
        !line.contains('\n'),
        0 <= k < trimmed(line).len(),
        byte_count(trimmed(line).take(k)) <= 60,
        byte_count(trimmed(line).take(k + 1)) > 60,
    ensures
        summary(line) == trimmed(line).take(k) + "…"@,
        summary(line + seq!['\n'] + rest) == trimmed(line).take(k) + "…"@,
{
    lemma_first_line(line, rest);
    lemma_start_within(trimmed(line), 60, k);
    lemma_byte_count_grows(trimmed(line), k + 1);
}

proof fn lemma_first_line(line: Seq<char>, rest: Seq<char>)
    requires
        !line.contains('\n'),
    ensures
        first_line(line) == trimmed(line),
        first_line(line + seq!['\n'] + rest) == trimmed(line),
{
    let e = Seq::<char>::empty();
    assert forall|j: int| 0 <= j < line.len() implies line[j] != '\n' by {
        if line[j] == '\n' {
            assert(line.contains('\n'));
        }
    }
    lemma_pieces_of_plain(e, line, '\n');
    assert(e + line =~= line);
    assert(pieces(e, '\n') =~= seq![e]);
    assert(pieces(line, '\n') =~= seq![line]);
    lemma_pieces_concat(line, rest, '\n');
}

/// How many bytes are those of a plain text: visible ones, spaces, tabs and line ends.
pub open spec fn plain_bytes(h: Seq<u8>) -> nat
    decreases h.len(),
{
    if h.len() == 0 {
        0
    } else {
        let b = h.last();
        plain_bytes(h.drop_last()) + (if (32 <= b && b <= 126) || b == 9 || b == 10 || b == 13 {
            1nat
        } else {
            0nat
        })
    }
}

/// A file is taken for encrypted where less than half of its first bytes are those of a plain
/// text, unless it begins with a tag, white space or a byte order mark.
pub proof fn law_encrypted_files_are_known(h: Seq<u8>)
    requires
        h.len() > 2,
    ensures
        looks_encrypted(h) <==> {
            &&& plain_bytes(h) < h.len() / 2
            &&& h[0] != '<' as u8 && h[0] != '\r' as u8 && h[0] != '\n' as u8 && h[0] != ' ' as u8
                && h[0] != '\t' as u8
            &&& !(h[0] == 0xef && h[1] == 0xbb && h[2] == 0xbf)
            &&& !(h[0] == 0xff && h[1] == 0xfe)
            &&& !(h[0] == 0xfe && h[1] == 0xff)
        },
{
    lemma_plain_bytes(h);
    let a = seq![0xefu8, 0xbb, 0xbf];
    let b = seq![0xffu8, 0xfe];
    let c = seq![0xfeu8, 0xff];
    assert(a.is_prefix_of(h) <==> h[0] == 0xef && h[1] == 0xbb && h[2] == 0xbf) by {
        let t = h.subrange(0, 3);
        assert(t[0] == h[0] && t[1] == h[1] && t[2] == h[2]);
        if h[0] == 0xef && h[1] == 0xbb && h[2] == 0xbf {
            assert(t =~= a);
        }
    }
    assert(b.is_prefix_of(h) <==> h[0] == 0xff && h[1] == 0xfe) by {
        let t = h.subrange(0, 2);
        assert(t[0] == h[0] && t[1] == h[1]);
        if h[0] == 0xff && h[1] == 0xfe {
            assert(t =~= b);
        }
    }
    assert(c.is_prefix_of(h) <==> h[0] == 0xfe && h[1] == 0xff) by {
        let t = h.subrange(0, 2);
        assert(t[0] == h[0] && t[1] == h[1]);
        if h[0] == 0xfe && h[1] == 0xff {
            assert(t =~= c);
        }
    }
}

proof fn lemma_plain_bytes(h: Seq<u8>)
    ensures
        printable_count(h) == plain_bytes(h),
    decreases h.len(),
{
    reveal(Seq::filter);
    if h.len() > 0 {
        lemma_plain_bytes(h.drop_last());
    }
}

} // verus!
