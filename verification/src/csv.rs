//! The library as CSV: export and import.
use crate::entries::entries_of_json;
use crate::library::LibraryRow;
use crate::tags::decode_tags;
use crate::text::{chars_of, copy_text};
use crate::trim::{is_blank, join, split, trim, trim_parts, trim_start};
use vstd::prelude::*;

verus! {

use crate::entries::json_entries;
use crate::library::folder_of;
use crate::paths::lemma_pieces_concat;
use crate::tags::decoded_tags;
use crate::text::{lemma_views_push, opt_view, views};
use crate::trim::{
    all_blank,
    blank,
    joined,
    law_blank_texts,
    law_split_undoes_join,
    lemma_empty_part,
    lemma_pieces_of_plain,
    lemma_pieces_without_separator,
    lemma_strip_back_unique,
    lemma_strip_front_unique,
    lemma_trimmed,
    lemma_trimmed_parts,
    lemma_trimmed_parts_concat,
    lemma_trimmed_parts_keep,
    pieces,
    trimmed,
    trimmed_parts,
    trimmed_start,
};

/// One entry of an uploaded file.
#[derive(Debug)]
pub struct ImportFileEntry {
    pub title: String,
    pub body: String,
    pub tags: Vec<String>,
    pub folder_path: Option<String>,
}

/// What an entry holds.
#[verifier::ext_equal]
pub struct EntryView {
    pub title: Seq<char>,
    pub body: Seq<char>,
    pub tags: Seq<Seq<char>>,
    pub folder_path: Option<Seq<char>>,
}

impl View for ImportFileEntry {
    type V = EntryView;

    open spec fn view(&self) -> EntryView {
        EntryView {
            title: self.title@,
            body: self.body@,
            tags: views(self.tags@),
            folder_path: opt_view(self.folder_path),
        }
    }
}

/// What a list of entries holds.
pub open spec fn entry_views(l: Seq<ImportFileEntry>) -> Seq<EntryView> {
    Seq::new(l.len(), |i: int| l[i]@)
}

/// A character that has a meaning of its own in a file.
pub open spec fn special(c: char) -> bool {
    c == ',' || c == '"' || c == '\n' || c == '\r'
}

/// Whether a field has to be quoted.
pub open spec fn needs_quotes(s: Seq<char>) -> bool {
    s.contains(',') || s.contains('"') || s.contains('\n') || s.contains('\r')
}

/// `s` with every quote written twice.
pub open spec fn doubled(s: Seq<char>) -> Seq<char>
    decreases s.len(),
{
    if s.len() == 0 {
        Seq::empty()
    } else if s.last() == '"' {
        doubled(s.drop_last()) + seq!['"', '"']
    } else {
        doubled(s.drop_last()).push(s.last())
    }
}

/// A text as a CSV field.
pub open spec fn field(s: Seq<char>) -> Seq<char> {
    if needs_quotes(s) {
        seq!['"'] + doubled(s) + seq!['"']
    } else {
        s
    }
}

/// Writes a text as a CSV field: in quotes, with its own quotes doubled, where
/// it holds a comma, a quote, a line feed or a carriage return.
pub fn csv_field(s: &str) -> (r: String)
    ensures
        r@ == field(s@),
{
    let v: Vec<char> = chars_of(s);
    let n: usize = v.len();
    let mut quote: bool = false;
    for i in 0..n
        invariant
            n == v@.len(),
            quote <==> exists|j: int| 0 <= j < i && special(#[trigger] v@[j]),
    {
        if v[i] == ',' || v[i] == '"' || v[i] == '\n' || v[i] == '\r' {
            assert(special(v@[i as int]));
            quote = true;
        }
    }
    proof {
        if quote {
            let j = choose|j: int| 0 <= j < n && special(#[trigger] v@[j]);
            assert(s@.contains(s@[j]));
        } else if needs_quotes(s@) {
            let j = choose|j: int| 0 <= j < n && special(#[trigger] s@[j]);
            assert(special(v@[j]));
        }
    }
    if !quote {
        return copy_text(s);
    }
    let mut inner: String = String::new();
    for i in 0..n
        invariant
            n == v@.len(),
            inner@ == doubled(v@.take(i as int)),
    {
        proof {
            let t = v@.take(i + 1);
            assert(t.drop_last() =~= v@.take(i as int));
            assert(t.last() == v@[i as int]);
            assert(inner@.push('"').push('"') =~= inner@ + seq!['"', '"']);
        }
        if v[i] == '"' {
            inner.push('"');
            inner.push('"');
        } else {
            inner.push(v[i]);
        }
    }
    assert(v@.take(n as int) =~= s@);
    let mut out: String = String::new();
    out.push('"');
    out.push_str(inner.as_str());
    out.push('"');
    assert(out@ =~= field(s@));
    out
}

/// One line of four fields.
pub open spec fn line(a: Seq<char>, b: Seq<char>, c: Seq<char>, d: Seq<char>) -> Seq<char> {
    field(a) + seq![','] + field(b) + seq![','] + field(c) + seq![','] + field(d) + seq!['\n']
}

/// The tags of a row as one field.
pub open spec fn tags_field(tags: Seq<char>) -> Seq<char> {
    joined(decoded_tags(tags), seq![';'])
}

/// A row of the library as a line.
pub open spec fn row_line(r: LibraryRow) -> Seq<char> {
    line(r.title@, r.body@, tags_field(r.tags@), folder_of(r))
}

/// Rows as lines, one after the other.
pub open spec fn row_lines(rows: Seq<LibraryRow>) -> Seq<char>
    decreases rows.len(),
{
    if rows.len() == 0 {
        Seq::empty()
    } else {
        row_lines(rows.drop_last()) + row_line(rows.last())
    }
}

/// The byte order mark, the header and a line for each row. The mark has
/// spreadsheets read the file as UTF-8.
pub open spec fn exported(rows: Seq<LibraryRow>) -> Seq<char> {
    "\u{feff}title,body,tags,folder_path\n"@ + row_lines(rows)
}

fn push_line(out: &mut String, a: &str, b: &str, c: &str, d: &str)
    ensures
        final(out)@ == old(out)@ + line(a@, b@, c@, d@),
{
    let ghost before = out@;
    let fa = csv_field(a);
    let fb = csv_field(b);
    let fc = csv_field(c);
    let fd = csv_field(d);
    out.push_str(fa.as_str());
    out.push(',');
    out.push_str(fb.as_str());
    out.push(',');
    out.push_str(fc.as_str());
    out.push(',');
    out.push_str(fd.as_str());
    out.push('\n');
    assert(out@ =~= before + line(a@, b@, c@, d@));
}

/// The library as a CSV file.
pub fn export_csv(rows: &Vec<&LibraryRow>) -> (r: String)
    ensures
        r@ == exported(rows@.unref()),
{
    let mut out: String = "\u{feff}title,body,tags,folder_path\n".to_owned();
    let n: usize = rows.len();
    let ghost all = rows@.unref();
    let ghost head = out@;
    assert(all.take(0) =~= Seq::<LibraryRow>::empty());
    assert(head + row_lines(all.take(0)) =~= head);
    proof {
        reveal_strlit(";");
        assert(";"@ =~= seq![';']);
        reveal_strlit("");
        assert(""@ =~= Seq::<char>::empty());
    }
    for i in 0..n
        invariant
            n == rows@.len(),
            all == rows@.unref(),
            ";"@ == seq![';'],
            ""@ == Seq::<char>::empty(),
            out@ == head + row_lines(all.take(i as int)),
    {
        let r = rows[i];
        let tags: Vec<String> = decode_tags(r.tags.as_str());
        let joined_tags = join(&tags, ";");
        let folder: &str = match &r.folder_path {
            Some(f) => f.as_str(),
            None => "",
        };
        push_line(&mut out, r.title.as_str(), r.body.as_str(), joined_tags.as_str(), folder);
        proof {
            let t = all.take(i + 1);
            assert(t.drop_last() =~= all.take(i as int));
            assert(t.last() == *r);
            let lines = row_lines(all.take(i as int));
            assert(head + lines + row_line(*r) =~= head + (lines + row_line(*r)));
        }
    }
    assert(all.take(n as int) =~= all);
    out
}

/// The state of a CSV reader.
#[verifier::ext_equal]
pub struct CsvState {
    /// The rows that have ended.
    pub rows: Seq<Seq<Seq<char>>>,
    /// The fields of the current row that have ended.
    pub row: Seq<Seq<char>>,
    /// The current field so far.
    pub cur: Seq<char>,
    /// Whether the reader is between quotes.
    pub quoted: bool,
}

/// Where a reader starts.
pub open spec fn csv_start() -> CsvState {
    CsvState { rows: Seq::empty(), row: Seq::empty(), cur: Seq::empty(), quoted: false }
}

/// The reader after one more character of the current field.
pub open spec fn with_char(st: CsvState, c: char) -> CsvState {
    CsvState { cur: st.cur.push(c), ..st }
}

/// The state after reading `s`. Between quotes a doubled quote is a quote and a
/// single one ends the quoting; elsewhere carriage returns are dropped.
pub open spec fn csv_read(s: Seq<char>, st: CsvState) -> CsvState
    decreases s.len(),
{
    if s.len() == 0 {
        st
    } else {
        let c = s[0];
        if st.quoted {
            if c == '"' {
                if s.len() > 1 && s[1] == '"' {
                    csv_read(s.skip(2), with_char(st, '"'))
                } else {
                    csv_read(s.skip(1), CsvState { quoted: false, ..st })
                }
            } else {
                csv_read(s.skip(1), with_char(st, c))
            }
        } else if c == '"' {
            csv_read(s.skip(1), CsvState { quoted: true, ..st })
        } else if c == ',' {
            csv_read(s.skip(1), CsvState { row: st.row.push(st.cur), cur: Seq::empty(), ..st })
        } else if c == '\n' {
            csv_read(
                s.skip(1),
                CsvState {
                    rows: st.rows.push(st.row.push(st.cur)),
                    row: Seq::empty(),
                    cur: Seq::empty(),
                    quoted: false,
                },
            )
        } else if c == '\r' {
            csv_read(s.skip(1), st)
        } else {
            csv_read(s.skip(1), with_char(st, c))
        }
    }
}

/// The rows of a CSV text; a last line need not end in a line break.
pub open spec fn csv_rows(s: Seq<char>) -> Seq<Seq<Seq<char>>> {
    let st = csv_read(s, csv_start());
    if st.cur.len() > 0 || st.row.len() > 0 {
        st.rows.push(st.row.push(st.cur))
    } else {
        st.rows
    }
}

/// What a table holds.
pub open spec fn table_view(t: Seq<Vec<String>>) -> Seq<Seq<Seq<char>>> {
    Seq::new(t.len(), |i: int| views(t[i]@))
}

/// Splits a CSV text into rows of fields.
fn read_rows(v: &Vec<char>) -> (out: Vec<Vec<String>>)
    ensures
        table_view(out@) == csv_rows(v@),
{
    let n: usize = v.len();
    let mut rows: Vec<Vec<String>> = Vec::new();
    let mut row: Vec<String> = Vec::new();
    let mut cur: String = String::new();
    let mut quoted: bool = false;
    let mut i: usize = 0;
    let ghost end = csv_read(v@, csv_start());
    let ghost mut st = csv_start();
    proof {
        assert(v@.skip(0) =~= v@);
        assert(table_view(rows@) =~= Seq::<Seq<Seq<char>>>::empty());
        assert(views(row@) =~= Seq::<Seq<char>>::empty());
    }
    while i < n
        invariant
            n == v@.len(),
            i <= n,
            st.rows == table_view(rows@),
            st.row == views(row@),
            st.cur == cur@,
            st.quoted == quoted,
            csv_read(v@.skip(i as int), st) == end,
        decreases n - i,
    {
        let c = v[i];
        let ghost s = v@.skip(i as int);
        assert(s.skip(1) =~= v@.skip(i + 1));
        assert(s[0] == c);
        if quoted {
            if c == '"' {
                if i + 1 < n && v[i + 1] == '"' {
                    assert(s[1] == v@[i + 1]);
                    assert(s.skip(2) =~= v@.skip(i + 2));
                    cur.push('"');
                    i = i + 2;
                    proof {
                        st = with_char(st, '"');
                    }
                } else {
                    proof {
                        if s.len() > 1 {
                            assert(s[1] == v@[i + 1]);
                        }
                        st = CsvState { quoted: false, ..st };
                    }
                    quoted = false;
                    i = i + 1;
                }
            } else {
                cur.push(c);
                i = i + 1;
                proof {
                    st = with_char(st, c);
                }
            }
        } else if c == '"' {
            quoted = true;
            i = i + 1;
            proof {
                st = CsvState { quoted: true, ..st };
            }
        } else if c == ',' {
            proof {
                lemma_views_push(row@, cur);
                st = CsvState { row: st.row.push(st.cur), cur: Seq::empty(), ..st };
            }
            row.push(cur);
            cur = String::new();
            i = i + 1;
        } else if c == '\n' {
            let ghost old_rows = rows@;
            proof {
                lemma_views_push(row@, cur);
                st = CsvState {
                    rows: st.rows.push(st.row.push(st.cur)),
                    row: Seq::empty(),
                    cur: Seq::empty(),
                    quoted: false,
                };
            }
            row.push(cur);
            cur = String::new();
            rows.push(row);
            assert(table_view(rows@) =~= table_view(old_rows).push(views(row@)));
            row = Vec::new();
            assert(views(row@) =~= Seq::<Seq<char>>::empty());
            i = i + 1;
        } else if c == '\r' {
            i = i + 1;
        } else {
            cur.push(c);
            i = i + 1;
            proof {
                st = with_char(st, c);
            }
        }
    }
    assert(v@.skip(n as int) =~= Seq::<char>::empty());
    if cur.as_str().unicode_len() > 0 || row.len() > 0 {
        let ghost old_rows = rows@;
        proof {
            lemma_views_push(row@, cur);
        }
        row.push(cur);
        rows.push(row);
        assert(table_view(rows@) =~= table_view(old_rows).push(views(row@)));
    }
    rows
}

/// A character in lower case, as far as ASCII goes.
pub open spec fn ascii_lower(c: char) -> char {
    if 'A' <= c <= 'Z' {
        (c as u8 + 32) as char
    } else {
        c
    }
}

/// A text in lower case, as far as ASCII goes.
pub open spec fn ascii_lowered(s: Seq<char>) -> Seq<char> {
    Seq::new(s.len(), |i: int| ascii_lower(s[i]))
}

fn ascii_lower_of(c: char) -> (r: char)
    ensures
        r == ascii_lower(c),
{
    if 'A' <= c && c <= 'Z' {
        ((c as u8) + 32) as char
    } else {
        c
    }
}

/// Whether two texts are the same but for the case of ASCII letters.
pub fn eq_ignore_ascii_case(a: &str, b: &str) -> (r: bool)
    ensures
        r == (ascii_lowered(a@) == ascii_lowered(b@)),
{
    let x: Vec<char> = chars_of(a);
    let y: Vec<char> = chars_of(b);
    if x.len() != y.len() {
        assert(ascii_lowered(a@).len() != ascii_lowered(b@).len());
        return false;
    }
    let n: usize = x.len();
    for i in 0..n
        invariant
            n == x@.len() == y@.len(),
            x@ == a@,
            y@ == b@,
            forall|j: int| 0 <= j < i ==> ascii_lower(x@[j]) == ascii_lower(#[trigger] y@[j]),
    {
        if ascii_lower_of(x[i]) != ascii_lower_of(y[i]) {
            assert(ascii_lowered(a@)[i as int] != ascii_lowered(b@)[i as int]);
            return false;
        }
    }
    assert(ascii_lowered(a@) =~= ascii_lowered(b@));
    true
}

/// The first column from `i` on with this name, ignoring case and outer blanks.
pub open spec fn column(header: Seq<Seq<char>>, name: Seq<char>, i: int) -> Option<int>
    decreases header.len() - i,
{
    if i < 0 || i >= header.len() {
        None
    } else if ascii_lowered(trimmed(header[i])) == ascii_lowered(name) {
        Some(i)
    } else {
        column(header, name, i + 1)
    }
}

fn find_column(header: &Vec<String>, name: &str) -> (r: Option<usize>)
    ensures
        match r {
            Some(k) => column(views(header@), name@, 0) == Some(k as int),
            None => column(views(header@), name@, 0) is None,
        },
{
    let n: usize = header.len();
    for i in 0..n
        invariant
            n == header@.len(),
            column(views(header@), name@, 0) == column(views(header@), name@, i as int),
    {
        let h = trim(header[i].as_str());
        assert(views(header@)[i as int] == header@[i as int]@);
        if eq_ignore_ascii_case(h.as_str(), name) {
            return Some(i);
        }
    }
    None
}

/// The field at `i`; empty where the row is too short.
pub open spec fn cell(row: Seq<Seq<char>>, i: int) -> Seq<char> {
    if 0 <= i < row.len() {
        row[i]
    } else {
        Seq::empty()
    }
}

/// The field of a column that may be missing.
pub open spec fn opt_cell(row: Seq<Seq<char>>, i: Option<int>) -> Option<Seq<char>> {
    match i {
        Some(k) => if 0 <= k < row.len() {
            Some(row[k])
        } else {
            None
        },
        None => None,
    }
}

/// `s` with its semicolons written as commas.
pub open spec fn semicolons_as_commas(s: Seq<char>) -> Seq<char> {
    Seq::new(
        s.len(),
        |i: int|
            if s[i] == ';' {
                ','
            } else {
                s[i]
            },
    )
}

/// The tags of a field; semicolons and commas separate them.
pub open spec fn tags_of_field(s: Seq<char>) -> Seq<Seq<char>> {
    trimmed_parts(pieces(semicolons_as_commas(s), ','))
}

/// A trimmed text, or none where nothing is left of it.
pub open spec fn trimmed_or_none(s: Seq<char>) -> Option<Seq<char>> {
    if trimmed(s).len() == 0 {
        None
    } else {
        Some(trimmed(s))
    }
}

/// The columns of a file.
#[verifier::ext_equal]
pub struct Columns {
    pub title: int,
    pub body: int,
    pub tags: Option<int>,
    pub folder: Option<int>,
}

/// The entry of a row; none where its title is blank.
pub open spec fn row_entry(row: Seq<Seq<char>>, cols: Columns) -> Option<EntryView> {
    let title = cell(row, cols.title);
    if trimmed(title).len() == 0 {
        None
    } else {
        Some(
            EntryView {
                title,
                body: cell(row, cols.body),
                tags: match opt_cell(row, cols.tags) {
                    Some(s) => tags_of_field(s),
                    None => Seq::empty(),
                },
                folder_path: match opt_cell(row, cols.folder) {
                    Some(s) => trimmed_or_none(s),
                    None => None,
                },
            },
        )
    }
}

/// The entries of rows, in order.
pub open spec fn row_entries(rows: Seq<Seq<Seq<char>>>, cols: Columns) -> Seq<EntryView>
    decreases rows.len(),
{
    if rows.len() == 0 {
        Seq::empty()
    } else {
        match row_entry(rows.last(), cols) {
            Some(e) => row_entries(rows.drop_last(), cols).push(e),
            None => row_entries(rows.drop_last(), cols),
        }
    }
}

/// What a CSV file says, or what is wrong with it. The first row names the
/// columns; a title and a body column are required.
pub open spec fn parsed_csv(s: Seq<char>) -> Result<Seq<EntryView>, Seq<char>> {
    let rows = csv_rows(s);
    if rows.len() == 0 {
        Ok(Seq::empty())
    } else {
        let header = rows[0];
        match column(header, "title"@, 0) {
            None => Err("CSV is missing a 'title' column"@),
            Some(t) => match column(header, "body"@, 0) {
                None => Err("CSV is missing a 'body' column"@),
                Some(b) => Ok(
                    row_entries(
                        rows.skip(1),
                        Columns {
                            title: t,
                            body: b,
                            tags: column(header, "tags"@, 0),
                            folder: column(header, "folder_path"@, 0),
                        },
                    ),
                ),
            },
        }
    }
}

fn split_tags(s: &str) -> (r: Vec<String>)
    ensures
        views(r@) == tags_of_field(s@),
{
    let v: Vec<char> = chars_of(s);
    let n: usize = v.len();
    let mut flat: String = String::new();
    for i in 0..n
        invariant
            n == v@.len(),
            v@ == s@,
            flat@ =~= semicolons_as_commas(s@).take(i as int),
    {
        if v[i] == ';' {
            flat.push(',');
        } else {
            flat.push(v[i]);
        }
        assert(semicolons_as_commas(s@).take(i + 1) =~= semicolons_as_commas(s@).take(
            i as int,
        ).push(semicolons_as_commas(s@)[i as int]));
    }
    assert(semicolons_as_commas(s@).take(n as int) =~= semicolons_as_commas(s@));
    let parts: Vec<String> = split(flat.as_str(), ',');
    trim_parts(&parts)
}

/// A trimmed copy; none where nothing is left.
pub fn trim_or_none(s: &str) -> (r: Option<String>)
    ensures
        opt_view(r) == trimmed_or_none(s@),
{
    let t = trim(s);
    if t.as_str().unicode_len() == 0 {
        None
    } else {
        Some(t)
    }
}

fn cell_text(row: &Vec<String>, i: usize) -> (r: String)
    ensures
        r@ == cell(views(row@), i as int),
{
    if i < row.len() {
        copy_text(row[i].as_str())
    } else {
        String::new()
    }
}

/// The optional column index as a mathematical one.
spec fn opt_index(i: Option<usize>) -> Option<int> {
    match i {
        Some(k) => Some(k as int),
        None => None,
    }
}

fn entry_of_row(
    row: &Vec<String>,
    title_idx: usize,
    body_idx: usize,
    tags_idx: Option<usize>,
    folder_idx: Option<usize>,
) -> (r: Option<ImportFileEntry>)
    ensures
        row_entry(
            views(row@),
            Columns {
                title: title_idx as int,
                body: body_idx as int,
                tags: opt_index(tags_idx),
                folder: opt_index(folder_idx),
            },
        ) == (match r {
            Some(e) => Some(e@),
            None => None,
        }),
{
    let title = cell_text(row, title_idx);
    if is_blank(title.as_str()) {
        return None;
    }
    let ghost rv = views(row@);
    let tags: Vec<String> = match tags_idx {
        Some(k) => if k < row.len() {
            assert(rv[k as int] == row@[k as int]@);
            split_tags(row[k].as_str())
        } else {
            Vec::new()
        },
        None => Vec::new(),
    };
    let folder_path: Option<String> = match folder_idx {
        Some(k) => if k < row.len() {
            assert(rv[k as int] == row@[k as int]@);
            trim_or_none(row[k].as_str())
        } else {
            None
        },
        None => None,
    };
    let body = cell_text(row, body_idx);
    proof {
        if opt_cell(rv, opt_index(tags_idx)) is None {
            assert(views(tags@) =~= Seq::<Seq<char>>::empty());
        }
    }
    let e = ImportFileEntry { title, body, tags, folder_path };
    assert(e@.tags == views(tags@));
    Some(e)
}

/// Reads a CSV file: quoted fields, columns named by the header, tags separated
/// by semicolons or commas. Rows without a title are left out.
pub fn parse_import_csv(contents: &str) -> (r: Result<Vec<ImportFileEntry>, String>)
    ensures
        match r {
            Ok(l) => parsed_csv(contents@) == Ok::<Seq<EntryView>, Seq<char>>(entry_views(l@)),
            Err(e) => parsed_csv(contents@) == Err::<Seq<EntryView>, Seq<char>>(e@),
        },
{
    let v: Vec<char> = chars_of(contents);
    let rows: Vec<Vec<String>> = read_rows(&v);
    let n: usize = rows.len();
    let ghost table = table_view(rows@);
    let mut out: Vec<ImportFileEntry> = Vec::new();
    assert(entry_views(out@) =~= Seq::<EntryView>::empty());
    if n == 0 {
        return Ok(out);
    }
    assert(table[0] == views(rows@[0]@));
    let title_idx: usize = match find_column(&rows[0], "title") {
        Some(k) => k,
        None => {
            return Err("CSV is missing a 'title' column".to_owned());
        },
    };
    let body_idx: usize = match find_column(&rows[0], "body") {
        Some(k) => k,
        None => {
            return Err("CSV is missing a 'body' column".to_owned());
        },
    };
    let tags_idx: Option<usize> = find_column(&rows[0], "tags");
    let folder_idx: Option<usize> = find_column(&rows[0], "folder_path");
    let ghost cols = Columns {
        title: title_idx as int,
        body: body_idx as int,
        tags: opt_index(tags_idx),
        folder: opt_index(folder_idx),
    };
    let ghost body_rows = table.skip(1);
    assert(body_rows.take(0) =~= Seq::<Seq<Seq<char>>>::empty());
    for i in 1..n
        invariant
            n == rows@.len(),
            n >= 1,
            table == table_view(rows@),
            body_rows == table.skip(1),
            cols == (Columns {
                title: title_idx as int,
                body: body_idx as int,
                tags: opt_index(tags_idx),
                folder: opt_index(folder_idx),
            }),
            entry_views(out@) == row_entries(body_rows.take(i - 1), cols),
    {
        let e = entry_of_row(&rows[i], title_idx, body_idx, tags_idx, folder_idx);
        proof {
            let t = body_rows.take(i as int);
            assert(t.drop_last() =~= body_rows.take(i - 1));
            assert(t.last() == table[i as int]);
            assert(table[i as int] == views(rows@[i as int]@));
        }
        if let Some(entry) = e {
            let ghost before = out@;
            out.push(entry);
            assert(entry_views(out@) =~= entry_views(before).push(entry@));
        }
    }
    assert(body_rows.take(n - 1) =~= body_rows);
    Ok(out)
}

/// What an uploaded file is.
#[derive(Debug)]
pub enum ImportFile {
    /// A text that looks like JSON, without a byte order mark, but is no list of entries.
    Json(String),
    /// The entries of a file.
    Entries(Vec<ImportFileEntry>),
}

/// `s` without a byte order mark at its start.
pub open spec fn without_bom(s: Seq<char>) -> Seq<char> {
    if s.len() > 0 && s[0] == '\u{feff}' {
        s.skip(1)
    } else {
        s
    }
}

/// Whether a text starts like a JSON array or object.
pub open spec fn looks_like_json(s: Seq<char>) -> bool {
    trimmed_start(s).len() > 0 && (trimmed_start(s)[0] == '[' || trimmed_start(s)[0] == '{')
}

/// `s` without a byte order mark at its start.
pub fn strip_bom(s: &str) -> (r: String)
    ensures
        r@ == without_bom(s@),
{
    let v: Vec<char> = chars_of(s);
    let n: usize = v.len();
    if n > 0 && v[0] == '\u{feff}' {
        assert(v@.subrange(1, n as int) =~= v@.skip(1));
        crate::text::text_between(&v, 1, n)
    } else {
        copy_text(s)
    }
}

/// Reads an uploaded file: JSON where it starts like an array or an object, CSV elsewhere.
/// A byte order mark at the start is dropped. A JSON text that is no list of entries is
/// handed back.
pub fn parse_import_file(content: &str) -> (r: Result<ImportFile, String>)
    ensures
        looks_like_json(without_bom(content@)) ==> match json_entries(without_bom(content@)) {
            Some(l) => r matches Ok(ImportFile::Entries(e)) && entry_views(e@) == l,
            None => r matches Ok(ImportFile::Json(t)) && t@ == without_bom(content@),
        },
        !looks_like_json(without_bom(content@)) ==> match r {
            Ok(f) => f matches ImportFile::Entries(l) && parsed_csv(without_bom(content@)) == Ok::<
                Seq<EntryView>,
                Seq<char>,
            >(entry_views(l@)),
            Err(e) => parsed_csv(without_bom(content@)) == Err::<Seq<EntryView>, Seq<char>>(e@),
        },
{
    let text = strip_bom(content);
    let t = trim_start(text.as_str());
    let v: Vec<char> = chars_of(t.as_str());
    if v.len() > 0 && (v[0] == '[' || v[0] == '{') {
        return match entries_of_json(text.as_str()) {
            Some(l) => Ok(ImportFile::Entries(l)),
            None => Ok(ImportFile::Json(text)),
        };
    }
    match parse_import_csv(text.as_str()) {
        Ok(l) => Ok(ImportFile::Entries(l)),
        Err(e) => Err(e),
    }
}

/// A reader with `s` added to its current field.
spec fn with_text(st: CsvState, s: Seq<char>) -> CsvState {
    CsvState { cur: st.cur + s, ..st }
}

proof fn lemma_read_plain(s: Seq<char>, tail: Seq<char>, st: CsvState)
    requires
        !st.quoted,
        forall|i: int|
            0 <= i < s.len() ==> #[trigger] s[i] != ',' && s[i] != '"' && s[i] != '\n' && s[i]
                != '\r',
    ensures
        csv_read(s + tail, st) == csv_read(tail, with_text(st, s)),
    decreases s.len(),
{
    if s.len() == 0 {
        assert(s + tail =~= tail);
        assert(with_text(st, s) =~= st);
    } else {
        let r = s.skip(1);
        assert((s + tail).skip(1) =~= r + tail);
        assert((s + tail)[0] == s[0]);
        assert forall|i: int| 0 <= i < r.len() implies #[trigger] r[i] != ',' && r[i] != '"' && r[i]
            != '\n' && r[i] != '\r' by {
            assert(r[i] == s[i + 1]);
        }
        lemma_read_plain(r, tail, with_char(st, s[0]));
        assert(with_text(with_char(st, s[0]), r) =~= with_text(st, s));
    }
}

proof fn lemma_read_doubled(s: Seq<char>, tail: Seq<char>, st: CsvState)
    requires
        st.quoted,
    ensures
        csv_read(doubled(s) + tail, st) == csv_read(tail, with_text(st, s)),
    decreases s.len(),
{
    if s.len() == 0 {
        assert(doubled(s) + tail =~= tail);
        assert(with_text(st, s) =~= st);
    } else {
        let g = s.drop_last();
        let c = s.last();
        let mid = with_text(st, g);
        if c == '"' {
            let t = seq!['"', '"'] + tail;
            assert(doubled(s) + tail =~= doubled(g) + t);
            lemma_read_doubled(g, t, st);
            assert(t.skip(2) =~= tail);
            assert(t[0] == '"' && t[1] == '"');
            assert(csv_read(t, mid) == csv_read(tail, with_char(mid, '"')));
        } else {
            let t = seq![c] + tail;
            assert(doubled(s) + tail =~= doubled(g) + t);
            lemma_read_doubled(g, t, st);
            assert(t.skip(1) =~= tail);
            assert(t[0] == c);
            assert(csv_read(t, mid) == csv_read(tail, with_char(mid, c)));
        }
        assert(with_char(mid, c) =~= with_text(st, s));
    }
}

/// A field is read back as it was written, whatever follows it but a quote.
proof fn lemma_read_field(s: Seq<char>, tail: Seq<char>, st: CsvState)
    requires
        !st.quoted,
        tail.len() > 0,
        tail[0] != '"',
    ensures
        csv_read(field(s) + tail, st) == csv_read(tail, with_text(st, s)),
{
    if needs_quotes(s) {
        let open = CsvState { quoted: true, ..st };
        let all = field(s) + tail;
        let rest = doubled(s) + (seq!['"'] + tail);
        assert(all.skip(1) =~= rest);
        assert(all[0] == '"');
        lemma_read_doubled(s, seq!['"'] + tail, open);
        let close = seq!['"'] + tail;
        let full = with_text(open, s);
        assert(close.skip(1) =~= tail);
        assert(close[0] == '"' && close[1] == tail[0]);
        assert(csv_read(close, full) == csv_read(tail, CsvState { quoted: false, ..full }));
        assert((CsvState { quoted: false, ..full }) =~= with_text(st, s));
    } else {
        assert forall|i: int| 0 <= i < s.len() implies #[trigger] s[i] != ',' && s[i] != '"' && s[i]
            != '\n' && s[i] != '\r' by {
            assert(s.contains(s[i]));
        }
        lemma_read_plain(s, tail, st);
    }
}

/// A reader at the start of a field.
spec fn between(rows: Seq<Seq<Seq<char>>>, row: Seq<Seq<char>>) -> CsvState {
    CsvState { rows, row, cur: Seq::empty(), quoted: false }
}

proof fn lemma_read_cell(
    s: Seq<char>,
    tail: Seq<char>,
    rows: Seq<Seq<Seq<char>>>,
    row: Seq<Seq<char>>,
)
    ensures
        csv_read(field(s) + (seq![','] + tail), between(rows, row)) == csv_read(
            tail,
            between(rows, row.push(s)),
        ),
{
    let st = between(rows, row);
    let t = seq![','] + tail;
    lemma_read_field(s, t, st);
    assert(t.skip(1) =~= tail);
    assert(Seq::<char>::empty() + s =~= s);
}

proof fn lemma_read_last_cell(
    s: Seq<char>,
    tail: Seq<char>,
    rows: Seq<Seq<Seq<char>>>,
    row: Seq<Seq<char>>,
)
    ensures
        csv_read(field(s) + (seq!['\n'] + tail), between(rows, row)) == csv_read(
            tail,
            (CsvState { rows: rows.push(row.push(s)), ..csv_start() }),
        ),
{
    let st = between(rows, row);
    let t = seq!['\n'] + tail;
    lemma_read_field(s, t, st);
    assert(t.skip(1) =~= tail);
    assert(Seq::<char>::empty() + s =~= s);
}

proof fn lemma_line_shape(
    a: Seq<char>,
    b: Seq<char>,
    c: Seq<char>,
    d: Seq<char>,
    tail: Seq<char>,
)
    ensures
        a + seq![','] + b + seq![','] + c + seq![','] + d + seq!['\n'] + tail == a + (seq![','] + (b
            + (seq![','] + (c + (seq![','] + (d + (seq!['\n'] + tail))))))),
{
    assert(a + seq![','] + b + seq![','] + c + seq![','] + d + seq!['\n'] + tail =~= a + (seq![',']
        + (b + (seq![','] + (c + (seq![','] + (d + (seq!['\n'] + tail))))))));
}

/// A line is read back as one row of its four fields.
proof fn lemma_read_line(
    a: Seq<char>,
    b: Seq<char>,
    c: Seq<char>,
    d: Seq<char>,
    tail: Seq<char>,
    rows: Seq<Seq<Seq<char>>>,
)
    ensures
        csv_read(line(a, b, c, d) + tail, (CsvState { rows, ..csv_start() })) == csv_read(
            tail,
            (CsvState { rows: rows.push(seq![a, b, c, d]), ..csv_start() }),
        ),
{
    let none = Seq::<Seq<char>>::empty();
    let t4 = seq!['\n'] + tail;
    let t3 = field(d) + t4;
    let t2 = field(c) + (seq![','] + t3);
    let t1 = field(b) + (seq![','] + t2);
    lemma_line_shape(field(a), field(b), field(c), field(d), tail);
    assert(between(rows, none) =~= (CsvState { rows, ..csv_start() }));
    lemma_read_cell(a, t1, rows, none);
    assert(none.push(a) =~= seq![a]);
    lemma_read_cell(b, t2, rows, seq![a]);
    assert(seq![a].push(b) =~= seq![a, b]);
    lemma_read_cell(c, t3, rows, seq![a, b]);
    assert(seq![a, b].push(c) =~= seq![a, b, c]);
    lemma_read_last_cell(d, tail, rows, seq![a, b, c]);
    assert(seq![a, b, c].push(d) =~= seq![a, b, c, d]);
}

/// The fields of a row as they stand in the file.
pub open spec fn row_cells(r: LibraryRow) -> Seq<Seq<char>> {
    seq![r.title@, r.body@, tags_field(r.tags@), folder_of(r)]
}

/// Whether a row keeps its fields through a file: no tag has a semicolon.
pub open spec fn row_survives(r: LibraryRow) -> bool {
    !r.tags@.contains(';')
}

/// The entry that a row comes back as; none where its title is blank.
pub open spec fn exported_entry(r: LibraryRow) -> Option<EntryView> {
    if trimmed(r.title@).len() == 0 {
        None
    } else {
        Some(
            EntryView {
                title: r.title@,
                body: r.body@,
                tags: decoded_tags(r.tags@),
                folder_path: trimmed_or_none(folder_of(r)),
            },
        )
    }
}

/// The entries that rows come back as.
pub open spec fn exported_entries(rows: Seq<LibraryRow>) -> Seq<EntryView>
    decreases rows.len(),
{
    if rows.len() == 0 {
        Seq::empty()
    } else {
        match exported_entry(rows.last()) {
            Some(e) => exported_entries(rows.drop_last()).push(e),
            None => exported_entries(rows.drop_last()),
        }
    }
}

proof fn lemma_read_row_lines(rows: Seq<LibraryRow>, tail: Seq<char>, before: Seq<Seq<Seq<char>>>)
    requires
        forall|i: int| 0 <= i < rows.len() ==> row_survives(#[trigger] rows[i]),
    ensures
        csv_read(row_lines(rows) + tail, (CsvState { rows: before, ..csv_start() })) == csv_read(
            tail,
            (CsvState {
                rows: before + Seq::new(rows.len(), |i: int| row_cells(rows[i])),
                ..csv_start()
            }),
        ),
    decreases rows.len(),
{
    let cells = Seq::new(rows.len(), |i: int| row_cells(rows[i]));
    if rows.len() == 0 {
        assert(row_lines(rows) + tail =~= tail);
        assert(before + cells =~= before);
    } else {
        let p = rows.drop_last();
        let r = rows.last();
        assert(rows[rows.len() - 1] == r);
        assert forall|i: int| 0 <= i < p.len() implies row_survives(#[trigger] p[i]) by {
            assert(p[i] == rows[i]);
        }
        lemma_read_row_lines(p, row_line(r) + tail, before);
        assert(row_lines(rows) + tail =~= row_lines(p) + (row_line(r) + tail));
        let pc = Seq::new(p.len(), |i: int| row_cells(p[i]));
        lemma_read_line(r.title@, r.body@, tags_field(r.tags@), folder_of(r), tail, before + pc);
        assert((before + pc).push(row_cells(r)) =~= before + cells);
    }
}

proof fn lemma_plain_name(s: Seq<char>)
    requires
        s.len() > 0,
        forall|i: int| 0 <= i < s.len() ==> 'a' <= #[trigger] s[i] <= 'z' || s[i] == '_',
    ensures
        trimmed(s) == s,
        field(s) == s,
{
    lemma_strip_front_unique(s, blank(), 0);
    assert(s.skip(0) =~= s);
    lemma_strip_back_unique(s, blank(), s.len() as int);
    assert(s.take(s.len() as int) =~= s);
    assert forall|c: char| c == ',' || c == '"' || c == '\n' || c == '\r' implies !s.contains(c) by {
        if s.contains(c) {
            let i = choose|i: int| 0 <= i < s.len() && s[i] == c;
            assert('a' <= s[i] <= 'z' || s[i] == '_');
        }
    }
}

/// The header line, as the reader sees it.
proof fn lemma_header()
    ensures
        "\u{feff}title,body,tags,folder_path\n"@ == seq!['\u{feff}'] + line(
            "title"@,
            "body"@,
            "tags"@,
            "folder_path"@,
        ),
        ({
            let h = seq!["title"@, "body"@, "tags"@, "folder_path"@];
            &&& column(h, "title"@, 0) == Some(0int)
            &&& column(h, "body"@, 0) == Some(1int)
            &&& column(h, "tags"@, 0) == Some(2int)
            &&& column(h, "folder_path"@, 0) == Some(3int)
        }),
{
    reveal_strlit("\u{feff}title,body,tags,folder_path\n");
    reveal_strlit("title");
    reveal_strlit("body");
    reveal_strlit("tags");
    reveal_strlit("folder_path");
    lemma_plain_name("title"@);
    lemma_plain_name("body"@);
    lemma_plain_name("tags"@);
    lemma_plain_name("folder_path"@);
    assert("\u{feff}title,body,tags,folder_path\n"@ =~= seq!['\u{feff}'] + line(
        "title"@,
        "body"@,
        "tags"@,
        "folder_path"@,
    ));
    reveal_with_fuel(column, 5);
    let h = seq!["title"@, "body"@, "tags"@, "folder_path"@];
    assert(ascii_lowered("title"@).len() == 5);
    assert(ascii_lowered("body"@).len() == 4);
    assert(ascii_lowered("tags"@).len() == 4);
    assert(ascii_lowered("folder_path"@).len() == 11);
    assert(ascii_lowered("body"@)[0] == 'b');
    assert(ascii_lowered("tags"@)[0] == 't');
}

proof fn lemma_tags_come_back(tags: Seq<char>)
    requires
        !tags.contains(';'),
    ensures
        tags_of_field(tags_field(tags)) == decoded_tags(tags),
{
    let l = decoded_tags(tags);
    let parts = pieces(tags, ',');
    lemma_trimmed_parts(parts);
    lemma_pieces_without_separator(tags, ',');
    crate::trim::law_join_undoes_split(tags, ',');
    assert forall|i: int, j: int| 0 <= i < l.len() && 0 <= j < l[i].len() implies #[trigger] l[i][j]
        != ',' && l[i][j] != ';' by {
        let k = choose|k: int| 0 <= k < parts.len() && trimmed(#[trigger] parts[k]) == l[i];
        lemma_trimmed(parts[k]);
        assert(parts[k].contains(trimmed(parts[k])[j]));
        let m = choose|m: int| 0 <= m < parts[k].len() && parts[k][m] == l[i][j];
        assert(parts[k][m] != ',');
        lemma_piece_chars(tags, ',', k, m);
    }
    if l.len() == 0 {
        assert(tags_field(tags) =~= Seq::<char>::empty());
        let e = Seq::<char>::empty();
        assert(semicolons_as_commas(e) =~= e);
        assert(pieces(e, ',') =~= seq![e]);
        lemma_empty_part();
    } else {
        lemma_commas_in_join(l);
        law_split_undoes_join(l, ',');
        lemma_trimmed_parts_keep(l);
    }
}

/// Every character of a piece is a character of the text.
proof fn lemma_piece_chars(s: Seq<char>, c: char, k: int, m: int)
    requires
        0 <= k < pieces(s, c).len(),
        0 <= m < pieces(s, c)[k].len(),
    ensures
        s.contains(pieces(s, c)[k][m]),
    decreases s.len(),
{
    if s.len() > 0 {
        let t = s.drop_last();
        let before = pieces(t, c);
        crate::trim::lemma_pieces_nonempty(t, c);
        if k < before.len() && m < before[k].len() {
            lemma_piece_chars(t, c, k, m);
            let x = pieces(s, c)[k][m];
            assert(x == before[k][m]);
            let i = choose|i: int| 0 <= i < t.len() && t[i] == before[k][m];
            assert(s[i] == x);
        } else {
            assert(s[s.len() - 1] == s.last());
        }
    }
}

proof fn lemma_commas_in_join(l: Seq<Seq<char>>)
    requires
        l.len() >= 1,
        forall|i: int, j: int|
            0 <= i < l.len() && 0 <= j < l[i].len() ==> #[trigger] l[i][j] != ',' && l[i][j] != ';',
    ensures
        semicolons_as_commas(joined(l, seq![';'])) == joined(l, seq![',']),
    decreases l.len(),
{
    if l.len() == 1 {
        assert forall|j: int| 0 <= j < l[0].len() implies l[0][j] != ';' by {}
        assert(semicolons_as_commas(l[0]) =~= l[0]);
    } else {
        let p = l.drop_last();
        assert forall|i: int, j: int| 0 <= i < p.len() && 0 <= j < p[i].len() implies
            #[trigger] p[i][j] != ',' && p[i][j] != ';' by {
            assert(p[i] == l[i]);
            assert(l[i][j] != ',');
        }
        lemma_commas_in_join(p);
        let last = l.last();
        assert(last == l[l.len() - 1]);
        assert forall|j: int| 0 <= j < last.len() implies last[j] != ';' by {
            assert(l[l.len() - 1][j] != ',');
        }
        assert(semicolons_as_commas(joined(p, seq![';']) + seq![';'] + last)
            =~= semicolons_as_commas(joined(p, seq![';'])) + seq![','] + last);
    }
}

/// Importing an exported file gives back every snippet that has a title, in
/// order: title, body and tags as they were, the folder trimmed. Rows with a
/// semicolon in a tag are left out of the statement.
pub proof fn law_export_reads_back(rows: Seq<LibraryRow>)
    requires
        forall|i: int| 0 <= i < rows.len() ==> row_survives(#[trigger] rows[i]),
    ensures
        !looks_like_json(without_bom(exported(rows))),
        parsed_csv(without_bom(exported(rows))) == Ok::<Seq<EntryView>, Seq<char>>(
            exported_entries(rows),
        ),
{
    lemma_header();
    let head = line("title"@, "body"@, "tags"@, "folder_path"@);
    let e = Seq::<char>::empty();
    let text = head + row_lines(rows);
    assert(exported(rows) =~= seq!['\u{feff}'] + text);
    assert(exported(rows).skip(1) =~= text);
    let none = Seq::<Seq<Seq<char>>>::empty();
    let h = seq!["title"@, "body"@, "tags"@, "folder_path"@];
    assert((CsvState { rows: none, ..csv_start() }) =~= csv_start());
    lemma_read_line("title"@, "body"@, "tags"@, "folder_path"@, row_lines(rows), none);
    assert(none.push(h) =~= seq![h]);
    lemma_read_row_lines(rows, e, seq![h]);
    assert(row_lines(rows) + e =~= row_lines(rows));
    let cells = Seq::new(rows.len(), |i: int| row_cells(rows[i]));
    assert(csv_rows(text) == seq![h] + cells);
    assert((seq![h] + cells).skip(1) =~= cells);
    let cols = Columns { title: 0, body: 1, tags: Some(2int), folder: Some(3int) };
    lemma_entries_come_back(rows, cols);
    assert(text[0] == 't') by {
        reveal_strlit("\u{feff}title,body,tags,folder_path\n");
        assert(exported(rows)[1] == 't');
    }
    lemma_strip_front_unique(text, blank(), 0);
    assert(text.skip(0) =~= text);
}

proof fn lemma_entries_come_back(rows: Seq<LibraryRow>, cols: Columns)
    requires
        forall|i: int| 0 <= i < rows.len() ==> row_survives(#[trigger] rows[i]),
        cols == (Columns { title: 0, body: 1, tags: Some(2int), folder: Some(3int) }),
    ensures
        row_entries(Seq::new(rows.len(), |i: int| row_cells(rows[i])), cols) == exported_entries(
            rows,
        ),
    decreases rows.len(),
{
    let cells = Seq::new(rows.len(), |i: int| row_cells(rows[i]));
    if rows.len() > 0 {
        let p = rows.drop_last();
        let r = rows.last();
        assert(rows[rows.len() - 1] == r);
        assert forall|i: int| 0 <= i < p.len() implies row_survives(#[trigger] p[i]) by {
            assert(p[i] == rows[i]);
        }
        lemma_entries_come_back(p, cols);
        assert(cells.drop_last() =~= Seq::new(p.len(), |i: int| row_cells(p[i])));
        lemma_tags_come_back(r.tags@);
        assert(cells.last() == row_cells(r));
    }
}

/// A file with a title and a body column and one row gives that row back, whatever
/// stands in the two fields, as long as the title is not blank.
pub proof fn law_a_row_reads_back(title: Seq<char>, body: Seq<char>)
    requires
        trimmed(title).len() > 0,
    ensures
        parsed_csv(
            "title,body\n"@ + field(title) + seq![','] + field(body) + seq!['\n'],
        ) == Ok::<Seq<EntryView>, Seq<char>>(
            seq![EntryView { title, body, tags: Seq::empty(), folder_path: None }],
        ),
{
    let text = "title,body\n"@ + field(title) + seq![','] + field(body) + seq!['\n'];
    let none = Seq::<Seq<char>>::empty();
    let no_rows = Seq::<Seq<Seq<char>>>::empty();
    let e = Seq::<char>::empty();
    let h = seq!["title"@, "body"@];
    lemma_header();
    reveal_strlit("title,body\n");
    reveal_strlit("title");
    reveal_strlit("body");
    reveal_strlit("tags");
    reveal_strlit("folder_path");
    lemma_plain_name("title"@);
    lemma_plain_name("body"@);
    let row = field(title) + (seq![','] + (field(body) + (seq!['\n'] + e)));
    let head = field("title"@) + (seq![','] + (field("body"@) + (seq!['\n'] + row)));
    assert(text =~= head);
    assert(between(no_rows, none) =~= csv_start());
    lemma_read_cell("title"@, field("body"@) + (seq!['\n'] + row), no_rows, none);
    assert(none.push("title"@) =~= seq!["title"@]);
    lemma_read_last_cell("body"@, row, no_rows, seq!["title"@]);
    assert(seq!["title"@].push("body"@) =~= h);
    assert(no_rows.push(h) =~= seq![h]);
    assert(between(seq![h], none) =~= (CsvState { rows: seq![h], ..csv_start() }));
    lemma_read_cell(title, field(body) + (seq!['\n'] + e), seq![h], none);
    assert(none.push(title) =~= seq![title]);
    lemma_read_last_cell(body, e, seq![h], seq![title]);
    let cells = seq![title, body];
    assert(seq![title].push(body) =~= cells);
    assert(seq![h].push(cells) =~= seq![h, cells]);
    assert(csv_rows(text) == seq![h, cells]);
    assert(seq![h, cells].skip(1) =~= seq![cells]);
    reveal_with_fuel(column, 3);
    assert(ascii_lowered("title"@).len() == 5);
    assert(ascii_lowered("body"@).len() == 4);
    assert(ascii_lowered("tags"@).len() == 4);
    assert(ascii_lowered("folder_path"@).len() == 11);
    assert(ascii_lowered("body"@)[0] == 'b');
    assert(ascii_lowered("tags"@)[0] == 't');
    let cols = Columns { title: 0, body: 1, tags: None, folder: None };
    assert(seq![cells].drop_last() =~= no_rows);
    reveal_with_fuel(row_entries, 2);
    assert(row_entries(seq![cells], cols) =~= seq![
        EntryView { title, body, tags: Seq::empty(), folder_path: None },
    ]);
}

/// A cell as it may be written: as it stands, or between quotes.
pub struct Written {
    pub text: Seq<char>,
    pub quoted: bool,
}

/// A row as it may be written: cells with commas between them, and a line feed behind them,
/// with or without a carriage return before it.
pub struct WrittenRow {
    pub cells: Seq<Written>,
    pub returned: bool,
}

/// A text with every quote twice.
pub open spec fn quotes_twice(s: Seq<char>) -> Seq<char>
    decreases s.len(),
{
    if s.len() == 0 {
        Seq::empty()
    } else {
        quotes_twice(s.drop_last()) + (if s.last() == '"' {
            seq!['"', '"']
        } else {
            seq![s.last()]
        })
    }
}

/// What stands for a cell. One that holds a comma, a quote or a line end has to be quoted.
pub open spec fn cell_source(w: Written) -> Seq<char> {
    if w.quoted {
        seq!['"'] + quotes_twice(w.text) + seq!['"']
    } else {
        w.text
    }
}

pub open spec fn cell_ok(w: Written) -> bool {
    w.quoted || forall|i: int|
        0 <= i < w.text.len() ==> #[trigger] w.text[i] != ',' && w.text[i] != '"' && w.text[i]
            != '\n' && w.text[i] != '\r'
}

/// What stands for cells, one after the other.
pub open spec fn cells_source(l: Seq<Written>) -> Seq<char>
    decreases l.len(),
{
    if l.len() == 0 {
        Seq::empty()
    } else if l.len() == 1 {
        cell_source(l[0])
    } else {
        cells_source(l.drop_last()) + seq![','] + cell_source(l.last())
    }
}

pub open spec fn cells_ok(l: Seq<Written>) -> bool {
    l.len() > 0 && forall|i: int| 0 <= i < l.len() ==> cell_ok(#[trigger] l[i])
}

/// What the cells of a row say.
pub open spec fn cell_texts(l: Seq<Written>) -> Seq<Seq<char>> {
    Seq::new(l.len(), |i: int| l[i].text)
}

/// What stands for rows, one after the other.
pub open spec fn rows_source(l: Seq<WrittenRow>) -> Seq<char>
    decreases l.len(),
{
    if l.len() == 0 {
        Seq::empty()
    } else {
        rows_source(l.drop_last()) + cells_source(l.last().cells) + (if l.last().returned {
            seq!['\r', '\n']
        } else {
            seq!['\n']
        })
    }
}

proof fn lemma_quotes_twice(s: Seq<char>)
    ensures
        quotes_twice(s) == doubled(s),
    decreases s.len(),
{
    if s.len() > 0 {
        lemma_quotes_twice(s.drop_last());
        assert(doubled(s.drop_last()) + seq![s.last()] =~= doubled(s.drop_last()).push(s.last()));
    } else {
        assert(quotes_twice(s) =~= doubled(s));
    }
}

proof fn lemma_read_written(w: Written, tail: Seq<char>, st: CsvState)
    requires
        cell_ok(w),
        !st.quoted,
        tail.len() > 0 ==> tail[0] != '"',
    ensures
        csv_read(cell_source(w) + tail, st) == csv_read(tail, with_text(st, w.text)),
{
    if w.quoted {
        lemma_quotes_twice(w.text);
        let open = CsvState { quoted: true, ..st };
        let all = cell_source(w) + tail;
        let rest = doubled(w.text) + (seq!['"'] + tail);
        assert(all.skip(1) =~= rest);
        assert(all[0] == '"');
        lemma_read_doubled(w.text, seq!['"'] + tail, open);
        let close = seq!['"'] + tail;
        let full = with_text(open, w.text);
        assert(close.skip(1) =~= tail);
        assert(close[0] == '"');
        if tail.len() > 0 {
            assert(close[1] == tail[0]);
        }
        assert(csv_read(close, full) == csv_read(tail, CsvState { quoted: false, ..full }));
        assert((CsvState { quoted: false, ..full }) =~= with_text(st, w.text));
    } else {
        lemma_read_plain(w.text, tail, st);
    }
}

proof fn lemma_read_cells(
    l: Seq<Written>,
    tail: Seq<char>,
    rows: Seq<Seq<Seq<char>>>,
)
    requires
        cells_ok(l),
        tail.len() > 0 ==> tail[0] != '"',
    ensures
        csv_read(cells_source(l) + tail, (CsvState { rows, ..csv_start() })) == csv_read(
            tail,
            (CsvState {
                rows,
                row: cell_texts(l.drop_last()),
                cur: l.last().text,
                quoted: false,
            }),
        ),
    decreases l.len(),
{
    let e = Seq::<char>::empty();
    let st = CsvState { rows, ..csv_start() };
    let t = l.drop_last();
    assert(cell_ok(l[l.len() - 1]));
    if l.len() == 1 {
        lemma_read_written(l[0], tail, st);
        assert(e + l[0].text =~= l[0].text);
        assert(cell_texts(t) =~= Seq::<Seq<char>>::empty());
    } else {
        assert forall|i: int| 0 <= i < t.len() implies cell_ok(#[trigger] t[i]) by {
            assert(t[i] == l[i]);
        }
        let more = seq![','] + (cell_source(l.last()) + tail);
        assert(cells_source(l) + tail =~= cells_source(t) + more);
        lemma_read_cells(t, more, rows);
        let mid = CsvState {
            rows,
            row: cell_texts(t.drop_last()),
            cur: t.last().text,
            quoted: false,
        };
        let next = CsvState { rows, row: mid.row.push(mid.cur), cur: e, quoted: false };
        assert(more.skip(1) =~= cell_source(l.last()) + tail);
        assert(csv_read(more, mid) == csv_read(cell_source(l.last()) + tail, next));
        lemma_read_written(l.last(), tail, next);
        assert(e + l.last().text =~= l.last().text);
        assert(next.row =~= cell_texts(t));
    }
}

proof fn lemma_read_written_rows(l: Seq<WrittenRow>, tail: Seq<char>)
    requires
        forall|i: int| 0 <= i < l.len() ==> cells_ok((#[trigger] l[i]).cells),
    ensures
        csv_read(rows_source(l) + tail, csv_start()) == csv_read(
            tail,
            (CsvState {
                rows: Seq::new(l.len(), |i: int| cell_texts(l[i].cells)),
                ..csv_start()
            }),
        ),
    decreases l.len(),
{
    let none = Seq::<Seq<Seq<char>>>::empty();
    if l.len() == 0 {
        assert(rows_source(l) + tail =~= tail);
        assert(Seq::new(l.len(), |i: int| cell_texts(l[i].cells)) =~= none);
    } else {
        let t = l.drop_last();
        assert forall|i: int| 0 <= i < t.len() implies cells_ok((#[trigger] t[i]).cells) by {
            assert(t[i] == l[i]);
        }
        let x = l[l.len() - 1];
        assert(cells_ok(x.cells));
        let feed = seq!['\n'] + tail;
        let end = if x.returned {
            seq!['\r'] + feed
        } else {
            feed
        };
        let more = cells_source(x.cells) + end;
        assert(rows_source(l) + tail =~= rows_source(t) + more);
        lemma_read_written_rows(t, more);
        let before = Seq::new(t.len(), |i: int| cell_texts(t[i].cells));
        lemma_read_cells(x.cells, end, before);
        let full = CsvState {
            rows: before,
            row: cell_texts(x.cells.drop_last()),
            cur: x.cells.last().text,
            quoted: false,
        };
        if x.returned {
            assert(end.skip(1) =~= feed);
            assert(csv_read(end, full) == csv_read(feed, full));
        }
        assert(feed.skip(1) =~= tail);
        assert(full.row.push(full.cur) =~= cell_texts(x.cells));
        assert(before.push(cell_texts(x.cells)) =~= Seq::new(
            l.len(),
            |i: int| cell_texts(l[i].cells),
        ));
        assert(csv_read(feed, full) == csv_read(
            tail,
            (CsvState {
                rows: before.push(full.row.push(full.cur)),
                row: Seq::empty(),
                cur: Seq::empty(),
                quoted: false,
            }),
        ));
    }
}

/// A table reads as its cells, whether they are quoted or not and whichever way its lines end.
pub proof fn law_tables_read_as_their_cells(l: Seq<WrittenRow>)
    requires
        forall|i: int| 0 <= i < l.len() ==> cells_ok((#[trigger] l[i]).cells),
    ensures
        csv_rows(rows_source(l)) == Seq::new(l.len(), |i: int| cell_texts(l[i].cells)),
{
    let e = Seq::<char>::empty();
    lemma_read_written_rows(l, e);
    assert(rows_source(l) + e =~= rows_source(l));
}

/// The last row of a table counts though no line end follows it, unless it is empty.
pub proof fn law_the_last_line_needs_no_end(l: Seq<WrittenRow>, last: Seq<Written>)
    requires
        forall|i: int| 0 <= i < l.len() ==> cells_ok((#[trigger] l[i]).cells),
        cells_ok(last),
        last.len() > 1 || last[0].text.len() > 0,
    ensures
        csv_rows(rows_source(l) + cells_source(last)) == Seq::new(
            l.len(),
            |i: int| cell_texts(l[i].cells),
        ).push(cell_texts(last)),
{
    let e = Seq::<char>::empty();
    lemma_read_written_rows(l, cells_source(last));
    let rows = Seq::new(l.len(), |i: int| cell_texts(l[i].cells));
    lemma_read_cells(last, e, rows);
    assert(cells_source(last) + e =~= cells_source(last));
    assert(cell_texts(last.drop_last()).push(last.last().text) =~= cell_texts(last));
}

/// Whether a cell of the header reads as a name: without its outer blanks, and with capital
/// letters as small ones.
pub open spec fn reads_as(cell: Seq<char>, name: Seq<char>) -> bool {
    trimmed(cell).len() == name.len() && forall|i: int|
        0 <= i < name.len() ==> #[trigger] name[i] == trimmed(cell)[i] || ('A' <= trimmed(cell)[i]
            <= 'Z' && name[i] as u32 == trimmed(cell)[i] as u32 + 32)
}

/// Whether a column is the first that reads as a name.
pub open spec fn is_column(header: Seq<Seq<char>>, name: Seq<char>, k: int) -> bool {
    0 <= k < header.len() && reads_as(header[k], name) && forall|j: int|
        0 <= j < k ==> !reads_as(#[trigger] header[j], name)
}

proof fn lemma_reads_as(cell: Seq<char>, name: Seq<char>)
    requires
        forall|i: int| 0 <= i < name.len() ==> !('A' <= #[trigger] name[i] <= 'Z'),
    ensures
        reads_as(cell, name) <==> ascii_lowered(trimmed(cell)) == ascii_lowered(name),
{
    let a = ascii_lowered(trimmed(cell));
    let b = ascii_lowered(name);
    if reads_as(cell, name) {
        assert forall|i: int| 0 <= i < name.len() implies a[i] == b[i] by {
            assert(!('A' <= name[i] <= 'Z'));
        }
        assert(a =~= b);
    }
    if a == b {
        assert(a.len() == b.len());
        assert forall|i: int| 0 <= i < name.len() implies #[trigger] name[i] == trimmed(cell)[i]
            || ('A' <= trimmed(cell)[i] <= 'Z' && name[i] as u32 == trimmed(cell)[i] as u32
            + 32) by {
            assert(a[i] == b[i]);
            assert(!('A' <= name[i] <= 'Z'));
        }
    }
}

proof fn lemma_is_column(header: Seq<Seq<char>>, name: Seq<char>, from: int, k: int)
    requires
        forall|i: int| 0 <= i < name.len() ==> !('A' <= #[trigger] name[i] <= 'Z'),
        is_column(header, name, k),
        0 <= from <= k,
    ensures
        column(header, name, from) == Some(k),
    decreases k - from,
{
    lemma_reads_as(header[from], name);
    if from < k {
        assert(!reads_as(header[from], name));
        lemma_is_column(header, name, from + 1, k);
    }
}

/// What a row of a table with these four columns becomes: an entry with the title, the body,
/// the tags and the folder that stand in them, unless its title is blank.
pub proof fn law_rows_become_entries(s: Seq<char>, t: int, b: int, g: int, f: int, i: int)
    requires
        csv_rows(s).len() > 0,
        is_column(csv_rows(s)[0], "title"@, t),
        is_column(csv_rows(s)[0], "body"@, b),
        is_column(csv_rows(s)[0], "tags"@, g),
        is_column(csv_rows(s)[0], "folder_path"@, f),
        0 < i < csv_rows(s).len(),
        csv_rows(s)[i].len() == csv_rows(s)[0].len(),
    ensures
        parsed_csv(s) is Ok,
        !all_blank(csv_rows(s)[i][t]) ==> parsed_csv(s)->Ok_0.contains(
            EntryView {
                title: csv_rows(s)[i][t],
                body: csv_rows(s)[i][b],
                tags: tags_of_field(csv_rows(s)[i][g]),
                folder_path: if all_blank(csv_rows(s)[i][f]) {
                    None
                } else {
                    Some(trimmed(csv_rows(s)[i][f]))
                },
            },
        ),
{
    reveal_strlit("title");
    reveal_strlit("body");
    reveal_strlit("tags");
    reveal_strlit("folder_path");
    let rows = csv_rows(s);
    lemma_is_column(rows[0], "title"@, 0, t);
    lemma_is_column(rows[0], "body"@, 0, b);
    lemma_is_column(rows[0], "tags"@, 0, g);
    lemma_is_column(rows[0], "folder_path"@, 0, f);
    let cols = Columns { title: t, body: b, tags: Some(g), folder: Some(f) };
    law_blank_texts(rows[i][t]);
    law_blank_texts(rows[i][f]);
    assert(rows.skip(1)[i - 1] == rows[i]);
    lemma_row_is_kept(rows.skip(1), cols, i - 1);
}

proof fn lemma_row_is_kept(rows: Seq<Seq<Seq<char>>>, cols: Columns, i: int)
    requires
        0 <= i < rows.len(),
    ensures
        row_entry(rows[i], cols) matches Some(e) ==> row_entries(rows, cols).contains(e),
    decreases rows.len(),
{
    let t = rows.drop_last();
    let before = row_entries(t, cols);
    let all = row_entries(rows, cols);
    if let Some(e) = row_entry(rows[i], cols) {
        if i < t.len() {
            assert(t[i] == rows[i]);
            lemma_row_is_kept(t, cols, i);
            let k = choose|k: int| 0 <= k < before.len() && before[k] == e;
            assert(all[k] == e);
        } else {
            assert(all[all.len() - 1] == e);
        }
    }
}

/// Semicolons and commas part the tags of a cell; each counts without its outer blanks, and
/// blank ones not at all.
pub proof fn law_tags_of_a_cell(a: Seq<char>, b: Seq<char>, x: Seq<char>)
    requires
        !x.contains(';'),
        !x.contains(','),
    ensures
        tags_of_field(a + seq![';'] + b) == tags_of_field(a) + tags_of_field(b),
        tags_of_field(a + seq![','] + b) == tags_of_field(a) + tags_of_field(b),
        all_blank(x) ==> tags_of_field(x).len() == 0,
        !all_blank(x) ==> tags_of_field(x) == seq![trimmed(x)],
{
    let e = Seq::<char>::empty();
    let p = semicolons_as_commas(a);
    let q = semicolons_as_commas(b);
    assert(semicolons_as_commas(a + seq![';'] + b) =~= p + seq![','] + q);
    assert(semicolons_as_commas(a + seq![','] + b) =~= p + seq![','] + q);
    lemma_pieces_concat(p, q, ',');
    lemma_trimmed_parts_concat(pieces(p, ','), pieces(q, ','));
    assert(semicolons_as_commas(x) =~= x) by {
        assert forall|i: int| 0 <= i < x.len() implies semicolons_as_commas(x)[i] == x[i] by {
            assert(x.contains(x[i]));
        }
    }
    assert forall|j: int| 0 <= j < x.len() implies x[j] != ',' by {
        assert(x.contains(x[j]));
    }
    lemma_pieces_of_plain(e, x, ',');
    assert(e + x =~= x);
    assert(pieces(e, ',') =~= seq![e]);
    assert(pieces(x, ',') =~= seq![x]);
    let none = Seq::<Seq<char>>::empty();
    assert(seq![x].drop_last() =~= none);
    assert(trimmed_parts(none) =~= none);
    law_blank_texts(x);
    if !all_blank(x) {
        assert(tags_of_field(x) =~= seq![trimmed(x)]);
    }
}

} // verus!
