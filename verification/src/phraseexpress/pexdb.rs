//! The program's own database.
use crate::db::NewSnippet;
use crate::decimal::{count_text, i64_text};
use crate::encoding::decode_bytes;
use crate::phraseexpress::{summarize, tags_of_shortcut};
use crate::rtf::cleanup_body;
use crate::text::{copy_text, same_text, str_to_lowercase};
use crate::trim::{is_blank, trim};
use vstd::prelude::*;

verus! {

use crate::db::{new_snippet_views, NewSnippetView};
use crate::decimal::{decimal, decimal_int};
use crate::encoding::bytes_text;
use crate::phraseexpress::{shortcut_tags, summary};
use crate::phraseexpress::xml::name_views;
use crate::rtf::clean_body;
use crate::text::{lowercase_text, opt_view, views};
use crate::trim::{all_blank, law_blank_texts, trimmed};

/// The query that lists a database's tables.
pub const TABLES_QUERY: &'static str =
    "SELECT name FROM sqlite_master WHERE type='table' AND name NOT LIKE 'sqlite_%'";

/// A value in a row.
#[derive(Debug)]
pub enum PexCell {
    Null,
    Integer(i64),
    /// A floating-point number, written out.
    Real(String),
    /// A text or a blob.
    Bytes(Vec<u8>),
}

/// A table, by the names of its columns.
#[derive(Debug)]
pub struct PexTable {
    pub name: String,
    pub columns: Vec<String>,
}

/// The query that lists a table's columns.
pub fn columns_query(table: &str) -> (r: String)
    ensures
        r@ == "PRAGMA table_info(\""@ + table@ + "\")"@,
{
    let mut s: String = "PRAGMA table_info(\"".to_owned();
    s.push_str(table);
    s.push_str("\")");
    s
}

/// What a value says. Texts and blobs come in several encodings.
pub open spec fn cell_text(c: PexCell) -> Option<Seq<char>> {
    match c {
        PexCell::Null => None,
        PexCell::Integer(n) => Some(decimal_int(n as int)),
        PexCell::Real(s) => Some(s@),
        PexCell::Bytes(b) => bytes_text(b@),
    }
}

/// What a value says.
pub fn decode_cell(c: &PexCell) -> (r: Option<String>)
    ensures
        opt_view(r) == cell_text(*c),
{
    match c {
        PexCell::Null => None,
        PexCell::Integer(n) => Some(i64_text(*n)),
        PexCell::Real(s) => Some(copy_text(s.as_str())),
        PexCell::Bytes(b) => decode_bytes(b),
    }
}

/// The first column from `i` on with this name, whatever its case.
pub open spec fn column_from(columns: Seq<Seq<char>>, name: Seq<char>, i: int) -> Option<Seq<char>>
    decreases columns.len() - i,
{
    if i < 0 || i >= columns.len() {
        None
    } else if lowercase_text(columns[i]) == name {
        Some(columns[i])
    } else {
        column_from(columns, name, i + 1)
    }
}

/// The column with the first of these names that the table has.
pub open spec fn picked(columns: Seq<Seq<char>>, names: Seq<Seq<char>>) -> Option<Seq<char>>
    decreases names.len(),
{
    if names.len() == 0 {
        None
    } else {
        match column_from(columns, names[0], 0) {
            Some(c) => Some(c),
            None => picked(columns, names.skip(1)),
        }
    }
}

fn find_column(columns: &Vec<String>, name: &str) -> (r: Option<String>)
    ensures
        opt_view(r) == column_from(views(columns@), name@, 0),
{
    let n: usize = columns.len();
    for i in 0..n
        invariant
            n == columns@.len(),
            column_from(views(columns@), name@, 0) == column_from(
                views(columns@),
                name@,
                i as int,
            ),
    {
        assert(views(columns@)[i as int] == columns@[i as int]@);
        let l = str_to_lowercase(columns[i].as_str());
        if same_text(l.as_str(), name) {
            return Some(copy_text(columns[i].as_str()));
        }
    }
    None
}

/// The column with the first of these names that the table has.
pub fn pick_col(columns: &Vec<String>, candidates: &[&str]) -> (r: Option<String>)
    ensures
        opt_view(r) == picked(views(columns@), name_views(candidates@)),
{
    let n: usize = candidates.len();
    let ghost all = name_views(candidates@);
    assert(all.skip(0) =~= all);
    for i in 0..n
        invariant
            n == candidates@.len(),
            all == name_views(candidates@),
            picked(views(columns@), all) == picked(views(columns@), all.skip(i as int)),
    {
        assert(all.skip(i as int).skip(1) =~= all.skip(i + 1));
        assert(all.skip(i as int)[0] == candidates@[i as int]@);
        let c = find_column(columns, candidates[i]);
        if c.is_some() {
            return c;
        }
    }
    None
}

/// The names of a column with the text of a phrase.
pub open spec fn body_columns() -> Seq<Seq<char>> {
    seq![
        "phrasecontent"@,
        "phrase"@,
        "content"@,
        "body"@,
        "text"@,
        "value"@,
        "phrase_text"@,
        "rtf"@,
        "rtfcontent"@,
        "html"@,
        "htmlcontent"@,
        "data"@,
    ]
}

/// The names of a column with a title.
pub open spec fn title_columns() -> Seq<Seq<char>> {
    seq!["description"@, "name"@, "title"@, "shortname"@, "subject"@]
}

/// The names of a column with a shortcut.
pub open spec fn shortcut_columns() -> Seq<Seq<char>> {
    seq!["autotext"@, "shortcut"@, "abbreviation"@, "key"@]
}

/// The names of a column with the id of a folder.
pub open spec fn parent_columns() -> Seq<Seq<char>> {
    seq!["parent_id"@, "parentid"@, "folder_id"@, "folderid"@, "parent"@]
}

/// Which columns of a table are read: the text, and what else there is.
#[verifier::ext_equal]
pub struct PhraseColumns {
    pub body: Seq<char>,
    pub title: Option<Seq<char>>,
    pub shortcut: Option<Seq<char>>,
    pub parent: Option<Seq<char>>,
}

/// Which columns of a table are read; none where it holds no phrases.
pub open spec fn phrase_columns(columns: Seq<Seq<char>>) -> Option<PhraseColumns> {
    match picked(columns, body_columns()) {
        Some(body) => Some(
            PhraseColumns {
                body,
                title: picked(columns, title_columns()),
                shortcut: picked(columns, shortcut_columns()),
                parent: picked(columns, parent_columns()),
            },
        ),
        None => None,
    }
}

/// A further column of a query.
pub open spec fn more_column(c: Option<Seq<char>>) -> Seq<char> {
    match c {
        Some(n) => ", \""@ + n + "\""@,
        None => Seq::empty(),
    }
}

/// The query for the phrases of a table.
pub open spec fn phrase_sql(c: PhraseColumns, table: Seq<char>) -> Seq<char> {
    "SELECT \""@ + c.body + "\""@ + more_column(c.title) + more_column(c.shortcut) + more_column(
        c.parent,
    ) + " FROM \""@ + table + "\""@
}

/// One where a column is read, else zero.
pub open spec fn given_count(c: Option<Seq<char>>) -> int {
    if c is Some {
        1
    } else {
        0
    }
}

/// A query for phrases, and where in a row its columns stand. The text is first.
#[derive(Debug)]
pub struct PhraseQuery {
    pub sql: String,
    pub title: Option<usize>,
    pub shortcut: Option<usize>,
    pub parent: Option<usize>,
}

/// Where a column stands, after `before` others.
pub open spec fn place(c: Option<Seq<char>>, before: int) -> Option<usize> {
    if c is Some {
        Some(before as usize)
    } else {
        None
    }
}

fn push_column(sql: &mut String, c: &Option<String>)
    ensures
        final(sql)@ == old(sql)@ + more_column(opt_view(*c)),
{
    match c {
        Some(n) => {
            let ghost before = sql@;
            sql.push_str(", \"");
            sql.push_str(n.as_str());
            sql.push_str("\"");
            assert(sql@ =~= before + more_column(opt_view(*c)));
        },
        None => {
            assert(sql@ =~= sql@ + more_column(opt_view(*c)));
        },
    }
}

/// How the phrases of a table are read; none where it holds no phrases.
pub fn phrase_query(table: &PexTable) -> (r: Option<PhraseQuery>)
    ensures
        match r {
            None => phrase_columns(views(table.columns@)) is None,
            Some(q) => phrase_columns(views(table.columns@)) matches Some(c) && q.sql@
                == phrase_sql(c, table.name@) && q.title == place(c.title, 1) && q.shortcut
                == place(c.shortcut, 1 + given_count(c.title)) && q.parent == place(
                c.parent,
                1 + given_count(c.title) + given_count(c.shortcut),
            ),
        },
{
    let body_names: [&str; 12] = [
        "phrasecontent",
        "phrase",
        "content",
        "body",
        "text",
        "value",
        "phrase_text",
        "rtf",
        "rtfcontent",
        "html",
        "htmlcontent",
        "data",
    ];
    let title_names: [&str; 5] = ["description", "name", "title", "shortname", "subject"];
    let shortcut_names: [&str; 4] = ["autotext", "shortcut", "abbreviation", "key"];
    let parent_names: [&str; 5] = ["parent_id", "parentid", "folder_id", "folderid", "parent"];
    assert(name_views(body_names@) =~= body_columns());
    assert(name_views(title_names@) =~= title_columns());
    assert(name_views(shortcut_names@) =~= shortcut_columns());
    assert(name_views(parent_names@) =~= parent_columns());
    let body = pick_col(&table.columns, body_names.as_slice());
    let title = pick_col(&table.columns, title_names.as_slice());
    let shortcut = pick_col(&table.columns, shortcut_names.as_slice());
    let parent = pick_col(&table.columns, parent_names.as_slice());
    let body = match body {
        Some(b) => b,
        None => {
            return None;
        },
    };
    let mut sql: String = "SELECT \"".to_owned();
    sql.push_str(body.as_str());
    sql.push_str("\"");
    let mut next: usize = 1;
    push_column(&mut sql, &title);
    let title_at: Option<usize> = if title.is_some() {
        next = next + 1;
        Some(next - 1)
    } else {
        None
    };
    push_column(&mut sql, &shortcut);
    let shortcut_at: Option<usize> = if shortcut.is_some() {
        next = next + 1;
        Some(next - 1)
    } else {
        None
    };
    push_column(&mut sql, &parent);
    let parent_at: Option<usize> = if parent.is_some() {
        Some(next)
    } else {
        None
    };
    sql.push_str(" FROM \"");
    sql.push_str(table.name.as_str());
    sql.push_str("\"");
    Some(PhraseQuery { sql, title: title_at, shortcut: shortcut_at, parent: parent_at })
}

/// The names of a column with an id.
pub open spec fn id_columns() -> Seq<Seq<char>> {
    seq!["id"@, "folder_id"@, "folderid"@]
}

/// The names of a column with a folder's name.
pub open spec fn folder_name_columns() -> Seq<Seq<char>> {
    seq!["description"@, "name"@, "title"@]
}

/// The names of a column that a table of folders does not have.
pub open spec fn text_columns() -> Seq<Seq<char>> {
    seq!["phrasecontent"@, "phrase"@, "content"@, "body"@, "text"@, "phrase_text"@]
}

/// The query for the folders of a table; none where it holds no folders. Such a
/// table has ids and names, and no texts.
pub fn folder_query(table: &PexTable) -> (r: Option<String>)
    ensures
        ({
            let cols = views(table.columns@);
            let id = picked(cols, id_columns());
            let name = picked(cols, folder_name_columns());
            if id is Some && name is Some && picked(cols, text_columns()) is None {
                opt_view(r) == Some(
                    "SELECT \""@ + id->0 + "\", \""@ + name->0 + "\" FROM \""@ + table.name@ + "\""@,
                )
            } else {
                r is None
            }
        }),
{
    let id_names: [&str; 3] = ["id", "folder_id", "folderid"];
    let folder_names: [&str; 3] = ["description", "name", "title"];
    let text_names: [&str; 6] = [
        "phrasecontent",
        "phrase",
        "content",
        "body",
        "text",
        "phrase_text",
    ];
    assert(name_views(id_names@) =~= id_columns());
    assert(name_views(folder_names@) =~= folder_name_columns());
    assert(name_views(text_names@) =~= text_columns());
    let id = pick_col(&table.columns, id_names.as_slice());
    let name = pick_col(&table.columns, folder_names.as_slice());
    let text = pick_col(&table.columns, text_names.as_slice());
    if text.is_some() {
        return None;
    }
    match (id, name) {
        (Some(i), Some(n)) => {
            let mut sql: String = "SELECT \"".to_owned();
            sql.push_str(i.as_str());
            sql.push_str("\", \"");
            sql.push_str(n.as_str());
            sql.push_str("\" FROM \"");
            sql.push_str(table.name.as_str());
            sql.push_str("\"");
            Some(sql)
        },
        _ => None,
    }
}

/// The folder names of these rows, by id. A row without a number for its id is
/// left out; of two rows with one id the later counts.
pub open spec fn folder_map(rows: Seq<(PexCell, PexCell)>) -> Map<i64, Seq<char>>
    decreases rows.len(),
{
    if rows.len() == 0 {
        Map::empty()
    } else {
        let before = folder_map(rows.drop_last());
        match rows.last().0 {
            PexCell::Integer(id) => before.insert(
                id,
                match cell_text(rows.last().1) {
                    Some(s) => s,
                    None => Seq::empty(),
                },
            ),
            _ => before,
        }
    }
}

/// The name of a folder by its id, trimmed; none where there is none.
pub open spec fn folder_path(folders: Map<i64, Seq<char>>, parent: Option<i64>) -> Option<
    Seq<char>,
> {
    match parent {
        Some(id) => if folders.dom().contains(id) && trimmed(folders[id]).len() > 0 {
            Some(trimmed(folders[id]))
        } else {
            None
        },
        None => None,
    }
}

/// Looks a folder up among the rows of the folder tables.
pub fn find_folder(rows: &Vec<(PexCell, PexCell)>, parent: Option<i64>) -> (r: Option<String>)
    ensures
        opt_view(r) == folder_path(folder_map(rows@), parent),
{
    let want: i64 = match parent {
        Some(p) => p,
        None => {
            return None;
        },
    };
    let mut i: usize = rows.len();
    let ghost all = folder_map(rows@);
    assert(rows@.take(i as int) =~= rows@);
    while i > 0
        invariant
            i <= rows@.len(),
            all == folder_map(rows@),
            parent == Some(want),
            all.dom().contains(want) == folder_map(rows@.take(i as int)).dom().contains(want),
            all.dom().contains(want) ==> all[want] == folder_map(rows@.take(i as int))[want],
        decreases i,
    {
        proof {
            let t = rows@.take(i as int);
            assert(t.drop_last() =~= rows@.take(i - 1));
            assert(t.last() == rows@[i - 1]);
        }
        if let PexCell::Integer(id) = &rows[i - 1].0 {
            if *id == want {
                let name = match decode_cell(&rows[i - 1].1) {
                    Some(s) => s,
                    None => String::new(),
                };
                proof {
                    if cell_text(rows@[i - 1].1) is None {
                        assert(name@ =~= Seq::<char>::empty());
                    }
                }
                let t = trim(name.as_str());
                if t.as_str().unicode_len() == 0 {
                    return None;
                }
                return Some(t);
            }
        }
        i = i - 1;
    }
    None
}

/// What a row says at a place; none where the column is not read.
pub open spec fn text_at(row: Seq<PexCell>, i: Option<usize>) -> Option<Seq<char>> {
    match i {
        Some(k) => if k < row.len() {
            cell_text(row[k as int])
        } else {
            None
        },
        None => None,
    }
}

/// The number at a place of a row; none where there is no number.
pub open spec fn number_at(row: Seq<PexCell>, i: Option<usize>) -> Option<i64> {
    match i {
        Some(k) => if k < row.len() {
            match row[k as int] {
                PexCell::Integer(n) => Some(n),
                _ => None,
            }
        } else {
            None
        },
        None => None,
    }
}

fn read_text(row: &Vec<PexCell>, i: Option<usize>) -> (r: Option<String>)
    ensures
        opt_view(r) == text_at(row@, i),
{
    match i {
        Some(k) => if k < row.len() {
            decode_cell(&row[k])
        } else {
            None
        },
        None => None,
    }
}

fn read_number(row: &Vec<PexCell>, i: Option<usize>) -> (r: Option<i64>)
    ensures
        r == number_at(row@, i),
{
    match i {
        Some(k) => if k < row.len() {
            match &row[k] {
                PexCell::Integer(n) => Some(*n),
                _ => None,
            }
        } else {
            None
        },
        None => None,
    }
}

/// A text that is not blank; none where it is.
pub open spec fn unless_blank(s: Option<Seq<char>>) -> Option<Seq<char>> {
    match s {
        Some(t) => if trimmed(t).len() == 0 {
            None
        } else {
            Some(t)
        },
        None => None,
    }
}

/// The snippet of a row; none where it has no text.
pub open spec fn row_phrase(
    row: Seq<PexCell>,
    title: Option<usize>,
    shortcut: Option<usize>,
    parent: Option<usize>,
    folders: Map<i64, Seq<char>>,
) -> Option<NewSnippetView> {
    let autotext = text_at(row, shortcut);
    match text_at(row, Some(0)) {
        Some(raw) => {
            let body = clean_body(raw);
            if trimmed(body).len() == 0 {
                None
            } else {
                Some(
                    NewSnippetView {
                        title: trimmed(
                            match unless_blank(text_at(row, title)) {
                                Some(t) => t,
                                None => match unless_blank(autotext) {
                                    Some(a) => a,
                                    None => summary(body),
                                },
                            },
                        ),
                        body,
                        tags: shortcut_tags(autotext),
                        folder_path: folder_path(folders, number_at(row, parent)),
                    },
                )
            }
        },
        None => None,
    }
}

fn keep_filled(s: Option<String>) -> (r: Option<String>)
    ensures
        opt_view(r) == unless_blank(opt_view(s)),
{
    match s {
        Some(t) => if is_blank(t.as_str()) {
            None
        } else {
            Some(t)
        },
        None => None,
    }
}

/// The snippet of a row; none where it has no text.
pub fn phrase_from_row(
    row: &Vec<PexCell>,
    q: &PhraseQuery,
    folders: &Vec<(PexCell, PexCell)>,
) -> (r: Option<NewSnippet>)
    ensures
        match r {
            Some(s) => row_phrase(row@, q.title, q.shortcut, q.parent, folder_map(folders@))
                == Some(s@),
            None => row_phrase(row@, q.title, q.shortcut, q.parent, folder_map(folders@)) is None,
        },
{
    let body = match read_text(row, Some(0)) {
        Some(b) => cleanup_body(b.as_str()),
        None => {
            return None;
        },
    };
    if is_blank(body.as_str()) {
        return None;
    }
    let autotext = read_text(row, q.shortcut);
    let tags = tags_of_shortcut(&autotext);
    let folder_path = find_folder(folders, read_number(row, q.parent));
    let title = match keep_filled(read_text(row, q.title)) {
        Some(t) => t,
        None => match keep_filled(autotext) {
            Some(a) => a,
            None => summarize(body.as_str()),
        },
    };
    let title = trim(title.as_str());
    Some(NewSnippet { title, body, tags, folder_path })
}

/// A table with phrases: how it is read, and the rows that came. A table that
/// could not be read has none.
#[derive(Debug)]
pub struct PhraseTable {
    pub query: PhraseQuery,
    pub rows: Vec<Vec<PexCell>>,
}

/// The snippets of rows.
pub open spec fn rows_phrases(
    rows: Seq<Vec<PexCell>>,
    q: PhraseQuery,
    folders: Map<i64, Seq<char>>,
) -> Seq<NewSnippetView>
    decreases rows.len(),
{
    if rows.len() == 0 {
        Seq::empty()
    } else {
        let before = rows_phrases(rows.drop_last(), q, folders);
        match row_phrase(rows.last()@, q.title, q.shortcut, q.parent, folders) {
            Some(s) => before.push(s),
            None => before,
        }
    }
}

/// The snippets of tables.
pub open spec fn tables_phrases(tables: Seq<PhraseTable>, folders: Map<i64, Seq<char>>) -> Seq<
    NewSnippetView,
>
    decreases tables.len(),
{
    if tables.len() == 0 {
        Seq::empty()
    } else {
        tables_phrases(tables.drop_last(), folders) + rows_phrases(
            tables.last().rows@,
            tables.last().query,
            folders,
        )
    }
}


/// The snippets of a database's phrase tables, table by table and row by row.
pub fn parse_pexdb_tables(tables: &Vec<PhraseTable>, folders: &Vec<(PexCell, PexCell)>) -> (r: Vec<
    NewSnippet,
>)
    ensures
        new_snippet_views(r@) == tables_phrases(tables@, folder_map(folders@)),
{
    let mut out: Vec<NewSnippet> = Vec::new();
    let n: usize = tables.len();
    let ghost fm = folder_map(folders@);
    assert(tables@.take(0) =~= Seq::<PhraseTable>::empty());
    assert(new_snippet_views(out@) =~= Seq::<NewSnippetView>::empty());
    for i in 0..n
        invariant
            n == tables@.len(),
            fm == folder_map(folders@),
            new_snippet_views(out@) == tables_phrases(tables@.take(i as int), fm),
    {
        let ghost done = new_snippet_views(out@);
        let t = &tables[i];
        let m: usize = t.rows.len();
        assert(t.rows@.take(0) =~= Seq::<Vec<PexCell>>::empty());
        assert(done + Seq::<NewSnippetView>::empty() =~= done);
        for j in 0..m
            invariant
                m == t.rows@.len(),
                fm == folder_map(folders@),
                new_snippet_views(out@) == done + rows_phrases(t.rows@.take(j as int), t.query, fm),
        {
            proof {
                let u = t.rows@.take(j + 1);
                assert(u.drop_last() =~= t.rows@.take(j as int));
                assert(u.last() == t.rows@[j as int]);
            }
            let ghost before = new_snippet_views(out@);
            let ghost part = rows_phrases(t.rows@.take(j as int), t.query, fm);
            if let Some(s) = phrase_from_row(&t.rows[j], &t.query, folders) {
                let ghost o = out@;
                out.push(s);
                assert(new_snippet_views(out@) =~= new_snippet_views(o).push(s@));
                assert((done + part).push(s@) =~= done + part.push(s@));
            }
        }
        proof {
            assert(t.rows@.take(m as int) =~= t.rows@);
            let u = tables@.take(i + 1);
            assert(u.drop_last() =~= tables@.take(i as int));
            assert(u.last() == tables@[i as int]);
        }
    }
    assert(tables@.take(n as int) =~= tables@);
    out
}

proof fn lemma_rows_have_text(
    rows: Seq<Vec<PexCell>>,
    q: PhraseQuery,
    folders: Map<i64, Seq<char>>,
    i: int,
)
    requires
        0 <= i < rows_phrases(rows, q, folders).len(),
    ensures
        trimmed(rows_phrases(rows, q, folders)[i].body).len() > 0,
    decreases rows.len(),
{
    if rows.len() > 0 {
        let before = rows_phrases(rows.drop_last(), q, folders);
        if i < before.len() {
            lemma_rows_have_text(rows.drop_last(), q, folders, i);
        }
    }
}

/// Every snippet that is imported from a database holds some text.
pub proof fn law_imported_rows_have_text(
    tables: Seq<PhraseTable>,
    folders: Map<i64, Seq<char>>,
    i: int,
)
    requires
        0 <= i < tables_phrases(tables, folders).len(),
    ensures
        trimmed(tables_phrases(tables, folders)[i].body).len() > 0,
    decreases tables.len(),
{
    if tables.len() > 0 {
        let before = tables_phrases(tables.drop_last(), folders);
        if i < before.len() {
            law_imported_rows_have_text(tables.drop_last(), folders, i);
        } else {
            lemma_rows_have_text(
                tables.last().rows@,
                tables.last().query,
                folders,
                i - before.len(),
            );
        }
    }
}

/// What is reported of an import: the tables with phrases, the rows that became
/// snippets, and the rows in all.
pub fn scan_report(tables: usize, decoded: usize, rows: usize) -> (r: String)
    ensures
        r@ == "pexdb: scanned "@ + decimal(tables as nat) + " phrase-like tables, decoded "@
            + decimal(decoded as nat) + "/"@ + decimal(rows as nat) + " rows into snippets"@,
{
    let t = count_text(tables);
    let d = count_text(decoded);
    let n = count_text(rows);
    let mut s: String = "pexdb: scanned ".to_owned();
    s.push_str(t.as_str());
    s.push_str(" phrase-like tables, decoded ");
    s.push_str(d.as_str());
    s.push_str("/");
    s.push_str(n.as_str());
    s.push_str(" rows into snippets");
    s
}

/// The column that is picked has the first of the names that any column has, whatever its
/// case, and is the first with that name; without such a column none is picked.
pub proof fn law_columns_are_picked_by_name(
    columns: Seq<Seq<char>>,
    names: Seq<Seq<char>>,
    k: int,
    i: int,
)
    requires
        0 <= k < names.len(),
        0 <= i < columns.len(),
        lowercase_text(columns[i]) == names[k],
        forall|j: int| 0 <= j < i ==> lowercase_text(#[trigger] columns[j]) != names[k],
        forall|m: int, j: int|
            0 <= m < k && 0 <= j < columns.len() ==> lowercase_text(#[trigger] columns[j])
                != #[trigger] names[m],
    ensures
        picked(columns, names) == Some(columns[i]),
    decreases k,
{
    if k == 0 {
        lemma_column_from(columns, names[0], 0, i);
    } else {
        assert forall|j: int| 0 <= j < columns.len() implies lowercase_text(#[trigger] columns[j])
            != names[0] by {
            assert(names[0] == names[0]);
        }
        lemma_column_absent(columns, names[0], 0);
        let t = names.skip(1);
        assert forall|m: int, j: int| 0 <= m < k - 1 && 0 <= j < columns.len() implies lowercase_text(
            #[trigger] columns[j],
        ) != #[trigger] t[m] by {
            assert(t[m] == names[m + 1]);
        }
        law_columns_are_picked_by_name(columns, t, k - 1, i);
    }
}

proof fn lemma_column_from(columns: Seq<Seq<char>>, name: Seq<char>, from: int, i: int)
    requires
        0 <= from <= i < columns.len(),
        lowercase_text(columns[i]) == name,
        forall|j: int| from <= j < i ==> lowercase_text(#[trigger] columns[j]) != name,
    ensures
        column_from(columns, name, from) == Some(columns[i]),
    decreases i - from,
{
    if from < i {
        assert(lowercase_text(columns[from]) != name);
        lemma_column_from(columns, name, from + 1, i);
    }
}

proof fn lemma_column_absent(columns: Seq<Seq<char>>, name: Seq<char>, from: int)
    requires
        0 <= from <= columns.len(),
        forall|j: int| from <= j < columns.len() ==> lowercase_text(#[trigger] columns[j]) != name,
    ensures
        column_from(columns, name, from) is None,
    decreases columns.len() - from,
{
    if from < columns.len() {
        assert(lowercase_text(columns[from]) != name);
        lemma_column_absent(columns, name, from + 1);
    }
}

/// Whether a name is one of those.
pub open spec fn has_column(columns: Seq<Seq<char>>, names: Seq<Seq<char>>) -> bool {
    exists|i: int| 0 <= i < columns.len() && names.contains(lowercase_text(#[trigger] columns[i]))
}

proof fn lemma_picked(columns: Seq<Seq<char>>, names: Seq<Seq<char>>)
    ensures
        picked(columns, names) is Some <==> has_column(columns, names),
    decreases names.len(),
{
    if names.len() > 0 {
        let t = names.skip(1);
        lemma_picked(columns, t);
        if has_column(columns, names) {
            let i = choose|i: int|
                0 <= i < columns.len() && names.contains(lowercase_text(#[trigger] columns[i]));
            let k = choose|k: int| 0 <= k < names.len() && names[k] == lowercase_text(columns[i]);
            if k > 0 {
                assert(t[k - 1] == names[k]);
                assert(t.contains(lowercase_text(columns[i])));
                assert(has_column(columns, t));
            } else {
                lemma_some_column(columns, names[0], 0, i);
            }
        }
        if picked(columns, names) is Some {
            if column_from(columns, names[0], 0) is Some {
                if !has_column(columns, names) {
                    assert forall|j: int| 0 <= j < columns.len() implies lowercase_text(
                        #[trigger] columns[j],
                    ) != names[0] by {
                        if lowercase_text(columns[j]) == names[0] {
                            assert(names.contains(lowercase_text(columns[j])));
                        }
                    }
                    lemma_column_absent(columns, names[0], 0);
                }
            } else {
                let i = choose|i: int|
                    0 <= i < columns.len() && t.contains(lowercase_text(#[trigger] columns[i]));
                let k = choose|k: int| 0 <= k < t.len() && t[k] == lowercase_text(columns[i]);
                assert(names[k + 1] == t[k]);
                assert(names.contains(lowercase_text(columns[i])));
            }
        }
    }
}

proof fn lemma_some_column(columns: Seq<Seq<char>>, name: Seq<char>, from: int, i: int)
    requires
        0 <= from <= i < columns.len(),
        lowercase_text(columns[i]) == name,
    ensures
        column_from(columns, name, from) is Some,
    decreases i - from,
{
    if from < i && lowercase_text(columns[from]) != name {
        lemma_some_column(columns, name, from + 1, i);
    }
}

/// A table holds phrases exactly where a column has a name that texts go by, and its titles,
/// shortcuts and folders come from columns with the names that those go by.
pub proof fn law_tables_of_phrases_are_known(columns: Seq<Seq<char>>)
    ensures
        phrase_columns(columns) is Some <==> has_column(
            columns,
            seq!["phrasecontent"@, "phrase"@, "content"@, "body"@, "text"@, "value"@, "phrase_text"@, "rtf"@, "rtfcontent"@, "html"@, "htmlcontent"@, "data"@],
        ),
        phrase_columns(columns) matches Some(c) ==> {
            &&& c.title is Some <==> has_column(
                columns,
                seq!["description"@, "name"@, "title"@, "shortname"@, "subject"@],
            )
            &&& c.shortcut is Some <==> has_column(
                columns,
                seq!["autotext"@, "shortcut"@, "abbreviation"@, "key"@],
            )
            &&& c.parent is Some <==> has_column(
                columns,
                seq!["parent_id"@, "parentid"@, "folder_id"@, "folderid"@, "parent"@],
            )
        },
{
    lemma_picked(columns, body_columns());
    lemma_picked(columns, title_columns());
    lemma_picked(columns, shortcut_columns());
    lemma_picked(columns, parent_columns());
}

/// What a row says becomes a snippet where its text is not blank: the title is that of the
/// row, or else its shortcut, or else the start of the text; the shortcut becomes a tag; and
/// the folder is the one that the row's parent names.
pub proof fn law_rows_become_snippets(
    row: Seq<PexCell>,
    title: usize,
    shortcut: usize,
    parent: usize,
    folders: Map<i64, Seq<char>>,
)
    requires
        0 < row.len(),
        title < row.len(),
        shortcut < row.len(),
        parent < row.len(),
    ensures
        ({
            let t = cell_text(row[title as int]);
            let a = cell_text(row[shortcut as int]);
            let r = row_phrase(row, Some(title), Some(shortcut), Some(parent), folders);
            &&& r is Some <==> (cell_text(row[0]) matches Some(raw) && !all_blank(clean_body(raw)))
            &&& r matches Some(s) ==> {
                &&& s.body == clean_body(cell_text(row[0])->0)
                &&& t is Some && !all_blank(t->0) ==> s.title == trimmed(t->0)
                &&& (t is None || all_blank(t->0)) && a is Some && !all_blank(a->0) ==> s.title
                    == trimmed(a->0)
                &&& (t is None || all_blank(t->0)) && (a is None || all_blank(a->0)) ==> s.title
                    == trimmed(summary(s.body))
                &&& a is Some && !all_blank(a->0) ==> s.tags == seq![
                    "shortcut:"@ + lowercase_text(trimmed(a->0)),
                ]
                &&& a is None || all_blank(a->0) ==> s.tags.len() == 0
                &&& row[parent as int] is Integer && folders.dom().contains(
                    row[parent as int]->Integer_0,
                ) && !all_blank(folders[row[parent as int]->Integer_0]) ==> s.folder_path == Some(
                    trimmed(folders[row[parent as int]->Integer_0]),
                )
                &&& !(row[parent as int] is Integer && folders.dom().contains(
                    row[parent as int]->Integer_0,
                ) && !all_blank(folders[row[parent as int]->Integer_0])) ==> s.folder_path is None
            }
        }),
{
    if let Some(raw) = cell_text(row[0]) {
        law_blank_texts(clean_body(raw));
    }
    if let Some(t) = cell_text(row[title as int]) {
        law_blank_texts(t);
    }
    if let Some(a) = cell_text(row[shortcut as int]) {
        law_blank_texts(a);
    }
    if let PexCell::Integer(id) = row[parent as int] {
        law_blank_texts(folders[id]);
    }
}

/// A folder has the name that the last row with its number gives it.
pub proof fn law_the_last_row_names_a_folder(rows: Seq<(PexCell, PexCell)>, i: int, id: i64)
    requires
        0 <= i < rows.len(),
        rows[i].0 == PexCell::Integer(id),
        forall|j: int| i < j < rows.len() ==> (#[trigger] rows[j]).0 != PexCell::Integer(id),
    ensures
        folder_map(rows).dom().contains(id),
        cell_text(rows[i].1) matches Some(n) ==> folder_map(rows)[id] == n,
        cell_text(rows[i].1) is None ==> folder_map(rows)[id].len() == 0,
    decreases rows.len(),
{
    let t = rows.drop_last();
    if i < t.len() {
        assert(t[i] == rows[i]);
        assert forall|j: int| i < j < t.len() implies (#[trigger] t[j]).0 != PexCell::Integer(
            id,
        ) by {
            assert(t[j] == rows[j]);
        }
        assert(rows[rows.len() - 1].0 != PexCell::Integer(id));
        law_the_last_row_names_a_folder(t, i, id);
    }
}

/// The phrase of every row of every table is among the snippets.
pub proof fn law_no_row_is_left_out(
    tables: Seq<PhraseTable>,
    folders: Map<i64, Seq<char>>,
    i: int,
    j: int,
)
    requires
        0 <= i < tables.len(),
        0 <= j < tables[i].rows@.len(),
    ensures
        row_phrase(
            tables[i].rows@[j]@,
            tables[i].query.title,
            tables[i].query.shortcut,
            tables[i].query.parent,
            folders,
        ) matches Some(s) ==> tables_phrases(tables, folders).contains(s),
    decreases tables.len(),
{
    let t = tables.drop_last();
    let a = tables_phrases(t, folders);
    let b = rows_phrases(tables.last().rows@, tables.last().query, folders);
    let all = tables_phrases(tables, folders);
    if let Some(s) = row_phrase(
        tables[i].rows@[j]@,
        tables[i].query.title,
        tables[i].query.shortcut,
        tables[i].query.parent,
        folders,
    ) {
        if i < t.len() {
            assert(t[i] == tables[i]);
            law_no_row_is_left_out(t, folders, i, j);
            let k = choose|k: int| 0 <= k < a.len() && a[k] == s;
            assert(all[k] == s);
        } else {
            lemma_row_is_kept(tables.last().rows@, tables.last().query, folders, j, s);
            let k = choose|k: int| 0 <= k < b.len() && b[k] == s;
            assert(all[a.len() + k] == s);
        }
    }
}

proof fn lemma_row_is_kept(
    rows: Seq<Vec<PexCell>>,
    q: PhraseQuery,
    folders: Map<i64, Seq<char>>,
    j: int,
    s: NewSnippetView,
)
    requires
        0 <= j < rows.len(),
        row_phrase(rows[j]@, q.title, q.shortcut, q.parent, folders) == Some(s),
    ensures
        rows_phrases(rows, q, folders).contains(s),
    decreases rows.len(),
{
    let t = rows.drop_last();
    let before = rows_phrases(t, q, folders);
    let all = rows_phrases(rows, q, folders);
    if j < t.len() {
        assert(t[j] == rows[j]);
        lemma_row_is_kept(t, q, folders, j, s);
        let k = choose|k: int| 0 <= k < before.len() && before[k] == s;
        assert(all[k] == s);
    } else {
        assert(all[all.len() - 1] == s);
    }
}

} // verus!
