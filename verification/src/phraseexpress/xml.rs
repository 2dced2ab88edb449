//! The XML export.
use crate::db::NewSnippet;
use crate::decimal::nat_text;
use crate::encoding::text_of_utf8;
use crate::phraseexpress::{summarize, tags_of_shortcut};
use crate::rtf::cleanup_body;
use crate::text::{copy_text, same_text, str_to_lowercase};
use crate::trim::{is_blank, join, trim, trim_parts};
use quick_xml::events::Event;
use vstd::prelude::*;
use vstd::utf8::{decode_utf8, valid_utf8};

pub mod laws;

verus! {

use crate::db::{new_snippet_views, NewSnippetView};
use crate::decimal::decimal;
use crate::paths::slash;
use crate::phraseexpress::{shortcut_tags, summary};
use crate::rtf::clean_body;
use crate::text::{lowercase_text, opt_view, views};
use crate::trim::{joined, trimmed, trimmed_parts};

/// An attribute of a tag: its name, and its value where that could be unescaped.
#[derive(Debug)]
pub struct XmlAttribute {
    pub key: Vec<u8>,
    pub value: Option<String>,
}

/// What an XML reader comes upon.
#[derive(Debug)]
pub enum XmlEvent {
    /// An opening tag. A malformed attribute stands as none.
    Start { name: Vec<u8>, attributes: Vec<Option<XmlAttribute>> },
    /// A closing tag.
    End { name: Vec<u8> },
    /// Text; none where it could not be unescaped.
    Text(Option<String>),
    /// Text that is taken as it stands.
    CData(Vec<u8>),
    /// Anything else.
    Other,
    /// The end of the document.
    Eof,
    /// A fault, after this many bytes.
    Fault { at: u64, message: String },
}

/// What an attribute says.
#[verifier::ext_equal]
pub struct XmlAttributeView {
    pub key: Seq<u8>,
    pub value: Option<Seq<char>>,
}

/// What an event says.
#[verifier::ext_equal]
pub enum XmlEventView {
    Start { name: Seq<u8>, attributes: Seq<Option<XmlAttributeView>> },
    End { name: Seq<u8> },
    Text(Option<Seq<char>>),
    CData(Seq<u8>),
    Other,
    Eof,
    Fault { at: u64, message: Seq<char> },
}

impl View for XmlAttribute {
    type V = XmlAttributeView;

    open spec fn view(&self) -> XmlAttributeView {
        XmlAttributeView { key: self.key@, value: opt_view(self.value) }
    }
}

/// What a list of attributes says.
pub open spec fn attribute_views(l: Seq<Option<XmlAttribute>>) -> Seq<Option<XmlAttributeView>> {
    Seq::new(
        l.len(),
        |i: int|
            match l[i] {
                Some(a) => Some(a@),
                None => None,
            },
    )
}

impl View for XmlEvent {
    type V = XmlEventView;

    open spec fn view(&self) -> XmlEventView {
        match *self {
            XmlEvent::Start { name, attributes } => XmlEventView::Start {
                name: name@,
                attributes: attribute_views(attributes@),
            },
            XmlEvent::End { name } => XmlEventView::End { name: name@ },
            XmlEvent::Text(t) => XmlEventView::Text(opt_view(t)),
            XmlEvent::CData(b) => XmlEventView::CData(b@),
            XmlEvent::Other => XmlEventView::Other,
            XmlEvent::Eof => XmlEventView::Eof,
            XmlEvent::Fault { at, message } => XmlEventView::Fault { at, message: message@ },
        }
    }
}

/// What a list of events says.
pub open spec fn event_views(l: Seq<XmlEvent>) -> Seq<XmlEventView> {
    Seq::new(l.len(), |i: int| l[i]@)
}

/// Whether reading stops at this event.
pub open spec fn stops(e: XmlEventView) -> bool {
    e is Eof || e is Fault
}

/// Whether these are the events of a document: the last of them, and no other,
/// stops the reading.
pub open spec fn complete(l: Seq<XmlEventView>) -> bool {
    &&& l.len() > 0
    &&& stops(l.last())
    &&& forall|i: int| 0 <= i < l.len() - 1 ==> !stops(#[trigger] l[i])
}

/// What an XML reader comes upon, with text as it stands in the document.
#[derive(Debug)]
pub enum RawXmlEvent {
    /// An opening tag: its name, and its attributes by name and value. A malformed
    /// attribute stands as none.
    Start(Vec<u8>, Vec<Option<(Vec<u8>, Vec<u8>)>>),
    /// A closing tag.
    End(Vec<u8>),
    Text(Vec<u8>),
    /// Text that is taken as it stands.
    CData(Vec<u8>),
    /// Anything else.
    Other,
    /// The end of the document.
    Eof,
    /// A fault, after this many bytes.
    Fault(u64, String),
}

/// What an event says, with text as it stands in the document.
#[verifier::ext_equal]
pub enum RawXmlEventView {
    Start(Seq<u8>, Seq<Option<(Seq<u8>, Seq<u8>)>>),
    End(Seq<u8>),
    Text(Seq<u8>),
    CData(Seq<u8>),
    Other,
    Eof,
    Fault(u64, Seq<char>),
}

/// What a list of attributes says, with values as they stand in the document.
pub open spec fn raw_attribute_views(l: Seq<Option<(Vec<u8>, Vec<u8>)>>) -> Seq<
    Option<(Seq<u8>, Seq<u8>)>,
> {
    Seq::new(
        l.len(),
        |i: int|
            match l[i] {
                Some(a) => Some((a.0@, a.1@)),
                None => None,
            },
    )
}

impl View for RawXmlEvent {
    type V = RawXmlEventView;

    open spec fn view(&self) -> RawXmlEventView {
        match *self {
            RawXmlEvent::Start(name, attributes) => RawXmlEventView::Start(
                name@,
                raw_attribute_views(attributes@),
            ),
            RawXmlEvent::End(name) => RawXmlEventView::End(name@),
            RawXmlEvent::Text(b) => RawXmlEventView::Text(b@),
            RawXmlEvent::CData(b) => RawXmlEventView::CData(b@),
            RawXmlEvent::Other => RawXmlEventView::Other,
            RawXmlEvent::Eof => RawXmlEventView::Eof,
            RawXmlEvent::Fault(at, message) => RawXmlEventView::Fault(at, message@),
        }
    }
}

/// Whether reading stops at this event.
pub open spec fn raw_stops(e: RawXmlEventView) -> bool {
    e is Eof || e is Fault
}

/// Whether these are the events of a document: the last of them, and no other,
/// stops the reading.
pub open spec fn raw_complete(l: Seq<RawXmlEventView>) -> bool {
    &&& l.len() > 0
    &&& raw_stops(l.last())
    &&& forall|i: int| 0 <= i < l.len() - 1 ==> !raw_stops(#[trigger] l[i])
}

#[verifier::external_type_specification]
#[verifier::external_body]
#[verifier::reject_recursive_types(R)]
pub struct ExXmlReader<R>(quick_xml::Reader<R>);

/// The events of a document, as quick-xml reads them with white space trimmed off
/// text, up to the first end or fault.
pub uninterp spec fn xml_events(contents: Seq<char>) -> Seq<RawXmlEventView>;

/// The events that a reader has still to give, up to the first end or fault.
pub uninterp spec fn events_left(r: quick_xml::Reader<&[u8]>) -> Seq<RawXmlEventView>;

/// `quick_xml::Reader::from_str`, set up with `trim_text`. The reader has all the
/// events of the text before it. They are named; known of them is that there is a
/// last one, and that it is the end or a fault.
#[verifier::external_body]
fn xml_reader(contents: &str) -> (r: quick_xml::Reader<&[u8]>)
    ensures
        events_left(r) == xml_events(contents@),
        raw_complete(events_left(r)),
{
    let mut reader = quick_xml::Reader::from_str(contents);
    reader.config_mut().trim_text(true);
    reader
}

/// `quick_xml::Reader::read_event_into` gives the next event, and the reader
/// moves on.
#[verifier::external_body]
fn next_event(reader: &mut quick_xml::Reader<&[u8]>) -> (r: RawXmlEvent)
    requires
        events_left(*old(reader)).len() > 0,
    ensures
        r@ == events_left(*old(reader))[0],
        events_left(*final(reader)) == events_left(*old(reader)).drop_first(),
{
    match reader.read_event_into(&mut vec![]) {
        Ok(Event::Start(e)) => RawXmlEvent::Start(
            e.name().0.to_vec(),
            e.attributes().map(|a| a.ok().map(|a| (a.key.0.to_vec(), a.value.to_vec()))).collect()
        ),
        Ok(Event::End(e)) => RawXmlEvent::End(e.name().0.to_vec()),
        Ok(Event::Text(t)) => RawXmlEvent::Text(t.to_vec()),
        Ok(Event::CData(t)) => RawXmlEvent::CData(t.to_vec()),
        Ok(Event::Eof) => RawXmlEvent::Eof,
        Ok(_) => RawXmlEvent::Other,
        Err(e) => RawXmlEvent::Fault(reader.buffer_position(), e.to_string())
    }
}

/// A text with its entities and character references replaced; none where one of
/// them is malformed or unknown.
pub uninterp spec fn xml_unescaped(text: Seq<char>) -> Option<Seq<char>>;

/// `quick_xml::escape::unescape`: the outcome is named.
#[verifier::external_body]
fn xml_unescape(text: &str) -> (r: Option<String>)
    ensures
        opt_view(r) == xml_unescaped(text@),
{
    quick_xml::escape::unescape(text).ok().map(|t| t.into_owned())
}

/// What bytes of the document say once unescaped; none where they are not UTF-8, or
/// cannot be unescaped.
pub open spec fn xml_text(b: Seq<u8>) -> Option<Seq<char>> {
    if valid_utf8(b) {
        xml_unescaped(decode_utf8(b))
    } else {
        None
    }
}

fn unescape_bytes(b: &Vec<u8>) -> (r: Option<String>)
    ensures
        opt_view(r) == xml_text(b@),
{
    match text_of_utf8(b.as_slice()) {
        Some(s) => xml_unescape(s.as_str()),
        None => None,
    }
}

/// An event with its text unescaped.
pub open spec fn unescaped_event(e: RawXmlEventView) -> XmlEventView {
    match e {
        RawXmlEventView::Start(name, attributes) => XmlEventView::Start {
            name,
            attributes: Seq::new(
                attributes.len(),
                |i: int|
                    match attributes[i] {
                        Some(a) => Some(XmlAttributeView { key: a.0, value: xml_text(a.1) }),
                        None => None,
                    },
            ),
        },
        RawXmlEventView::End(name) => XmlEventView::End { name },
        RawXmlEventView::Text(b) => XmlEventView::Text(xml_text(b)),
        RawXmlEventView::CData(b) => XmlEventView::CData(b),
        RawXmlEventView::Other => XmlEventView::Other,
        RawXmlEventView::Eof => XmlEventView::Eof,
        RawXmlEventView::Fault(at, message) => XmlEventView::Fault { at, message },
    }
}

/// Events with their text unescaped.
pub open spec fn unescaped_events(l: Seq<RawXmlEventView>) -> Seq<XmlEventView> {
    Seq::new(l.len(), |i: int| unescaped_event(l[i]))
}

fn unescape_attributes(l: Vec<Option<(Vec<u8>, Vec<u8>)>>) -> (r: Vec<Option<XmlAttribute>>)
    ensures
        attribute_views(r@) == Seq::new(
            l@.len(),
            |i: int|
                match raw_attribute_views(l@)[i] {
                    Some(a) => Some(XmlAttributeView { key: a.0, value: xml_text(a.1) }),
                    None => None,
                },
        ),
{
    let n: usize = l.len();
    let mut out: Vec<Option<XmlAttribute>> = Vec::new();
    for i in 0..n
        invariant
            n == l@.len(),
            out@.len() == i,
            forall|k: int|
                0 <= k < i ==> #[trigger] attribute_views(out@)[k] == (match raw_attribute_views(
                    l@,
                )[k] {
                    Some(a) => Some(XmlAttributeView { key: a.0, value: xml_text(a.1) }),
                    None => None,
                }),
    {
        let ghost before = out@;
        match &l[i] {
            Some(a) => {
                let mut key: Vec<u8> = Vec::new();
                key.extend_from_slice(a.0.as_slice());
                assert(key@ =~= a.0@);
                out.push(Some(XmlAttribute { key, value: unescape_bytes(&a.1) }));
            },
            None => {
                out.push(None);
            },
        }
        assert forall|k: int| 0 <= k < i + 1 implies #[trigger] attribute_views(out@)[k] == (
        match raw_attribute_views(l@)[k] {
            Some(a) => Some(XmlAttributeView { key: a.0, value: xml_text(a.1) }),
            None => None,
        }) by {
            if k < i {
                assert(attribute_views(before)[k] == attribute_views(out@)[k]);
            }
        }
    }
    out
}

fn unescape_event(e: RawXmlEvent) -> (r: XmlEvent)
    ensures
        r@ == unescaped_event(e@),
{
    match e {
        RawXmlEvent::Start(name, attributes) => {
            let attributes = unescape_attributes(attributes);
            XmlEvent::Start { name, attributes }
        },
        RawXmlEvent::End(name) => XmlEvent::End { name },
        RawXmlEvent::Text(b) => XmlEvent::Text(unescape_bytes(&b)),
        RawXmlEvent::CData(b) => XmlEvent::CData(b),
        RawXmlEvent::Other => XmlEvent::Other,
        RawXmlEvent::Eof => XmlEvent::Eof,
        RawXmlEvent::Fault(at, message) => XmlEvent::Fault { at, message },
    }
}

/// What a tag's or an attribute's name is compared by; empty where the bytes are
/// not UTF-8.
pub open spec fn xml_name(b: Seq<u8>) -> Seq<char> {
    lowercase_text(
        if valid_utf8(b) {
            decode_utf8(b)
        } else {
            Seq::empty()
        },
    )
}

fn name_of(b: &Vec<u8>) -> (r: String)
    ensures
        r@ == xml_name(b@),
{
    match text_of_utf8(b.as_slice()) {
        Some(s) => str_to_lowercase(s.as_str()),
        None => {
            let s: String = String::new();
            assert(s@ =~= Seq::<char>::empty());
            str_to_lowercase(s.as_str())
        },
    }
}

/// Whether a tag holds a phrase.
pub open spec fn phrase_tag(t: Seq<char>) -> bool {
    t == "phrase"@ || t == "pxphrase"@ || t == "px_phrase"@ || t == "phraseentry"@ || t == "entry"@
}

/// Whether a tag holds a phrase.
pub fn is_phrase_tag(tag: &str) -> (r: bool)
    ensures
        r == phrase_tag(tag@),
{
    same_text(tag, "phrase") || same_text(tag, "pxphrase") || same_text(tag, "px_phrase")
        || same_text(tag, "phraseentry") || same_text(tag, "entry")
}

/// Whether a tag holds a folder.
pub open spec fn folder_tag(t: Seq<char>) -> bool {
    t == "folder"@ || t == "pxfolder"@ || t == "px_folder"@ || t == "group"@
}

/// Whether a tag holds a folder.
pub fn is_folder_tag(tag: &str) -> (r: bool)
    ensures
        r == folder_tag(tag@),
{
    same_text(tag, "folder") || same_text(tag, "pxfolder") || same_text(tag, "px_folder")
        || same_text(tag, "group")
}

/// Whether an attribute names a folder.
pub open spec fn folder_key(k: Seq<char>) -> bool {
    k == "description"@ || k == "name"@ || k == "title"@
}

/// The fields of a phrase, by name. Of two with one name the later counts.
pub open spec fn field_map(l: Seq<(String, String)>) -> Map<Seq<char>, Seq<char>>
    decreases l.len(),
{
    if l.len() == 0 {
        Map::empty()
    } else {
        field_map(l.drop_last()).insert(l.last().0@, l.last().1@)
    }
}

fn put_field(l: &mut Vec<(String, String)>, key: String, value: String)
    ensures
        field_map(final(l)@) == field_map(old(l)@).insert(key@, value@),
{
    let ghost before = l@;
    l.push((key, value));
    assert(l@.drop_last() =~= before);
}

fn get_field<'a>(l: &'a Vec<(String, String)>, key: &str) -> (r: Option<&'a str>)
    ensures
        match r {
            Some(v) => field_map(l@).dom().contains(key@) && field_map(l@)[key@] == v@,
            None => !field_map(l@).dom().contains(key@),
        },
{
    let mut i: usize = l.len();
    assert(l@.take(i as int) =~= l@);
    while i > 0
        invariant
            i <= l@.len(),
            field_map(l@).dom().contains(key@) == field_map(l@.take(i as int)).dom().contains(key@),
            field_map(l@.take(i as int)).dom().contains(key@) ==> field_map(l@)[key@] == field_map(
                l@.take(i as int),
            )[key@],
        decreases i,
    {
        proof {
            let t = l@.take(i as int);
            assert(t.drop_last() =~= l@.take(i - 1));
            assert(t.last() == l@[i - 1]);
        }
        if same_text(l[i - 1].0.as_str(), key) {
            return Some(l[i - 1].1.as_str());
        }
        i = i - 1;
    }
    None
}

/// A field with more text added, after a space where it held some.
pub open spec fn grown(m: Map<Seq<char>, Seq<char>>, key: Seq<char>, text: Seq<char>) -> Map<
    Seq<char>,
    Seq<char>,
> {
    if m.dom().contains(key) && m[key].len() > 0 {
        m.insert(key, m[key] + " "@ + text)
    } else {
        m.insert(key, text)
    }
}

fn grow_field(l: &mut Vec<(String, String)>, key: &str, text: &str)
    ensures
        field_map(final(l)@) == grown(field_map(old(l)@), key@, text@),
{
    let mut value: String = String::new();
    if let Some(v) = get_field(l, key) {
        value = copy_text(v);
    }
    if value.as_str().unicode_len() > 0 {
        value.push_str(" ");
        value.push_str(text);
    } else {
        value = copy_text(text);
    }
    put_field(l, copy_text(key), value);
}

/// The first of these fields that is not blank, trimmed.
pub open spec fn first_filled(m: Map<Seq<char>, Seq<char>>, keys: Seq<Seq<char>>) -> Option<
    Seq<char>,
>
    decreases keys.len(),
{
    if keys.len() == 0 {
        None
    } else if m.dom().contains(keys[0]) && trimmed(m[keys[0]]).len() > 0 {
        Some(trimmed(m[keys[0]]))
    } else {
        first_filled(m, keys.skip(1))
    }
}

/// The texts of a list of names.
pub open spec fn name_views(l: Seq<&str>) -> Seq<Seq<char>> {
    Seq::new(l.len(), |i: int| l[i]@)
}

/// The first of these fields that is not blank, trimmed.
pub fn first_nonempty(m: &Vec<(String, String)>, keys: &[&str]) -> (r: Option<String>)
    ensures
        opt_view(r) == first_filled(field_map(m@), name_views(keys@)),
{
    let n: usize = keys.len();
    let ghost all = name_views(keys@);
    assert(all.skip(0) =~= all);
    for i in 0..n
        invariant
            n == keys@.len(),
            all == name_views(keys@),
            first_filled(field_map(m@), all) == first_filled(field_map(m@), all.skip(i as int)),
    {
        assert(all.skip(i as int).skip(1) =~= all.skip(i + 1));
        assert(all.skip(i as int)[0] == keys@[i as int]@);
        if let Some(v) = get_field(m, keys[i]) {
            let t = trim(v);
            if t.as_str().unicode_len() > 0 {
                return Some(t);
            }
        }
    }
    None
}

/// The names under which a title is found.
pub open spec fn title_keys() -> Seq<Seq<char>> {
    seq!["description"@, "name"@, "title"@, "shortname"@, "subject"@]
}

/// The names under which the text is found.
pub open spec fn body_keys() -> Seq<Seq<char>> {
    seq!["phrasecontent"@, "phrase"@, "content"@, "body"@, "text"@, "value"@]
}

/// The names under which the shortcut is found.
pub open spec fn shortcut_keys() -> Seq<Seq<char>> {
    seq!["autotext"@, "shortcut"@, "abbreviation"@, "key"@]
}

/// The path of nested folders; those without a name are left out.
pub open spec fn folder_chain(folders: Seq<Seq<char>>) -> Option<Seq<char>> {
    let parts = trimmed_parts(folders);
    if parts.len() == 0 {
        None
    } else {
        Some(joined(parts, slash()))
    }
}

/// The snippet of a phrase; none where it has no text.
pub open spec fn phrase(m: Map<Seq<char>, Seq<char>>, folders: Seq<Seq<char>>) -> Option<
    NewSnippetView,
> {
    let shortcut = first_filled(m, shortcut_keys());
    match first_filled(m, body_keys()) {
        Some(raw) => {
            let body = clean_body(raw);
            if trimmed(body).len() == 0 {
                None
            } else {
                Some(
                    NewSnippetView {
                        title: match first_filled(m, title_keys()) {
                            Some(t) => t,
                            None => match shortcut {
                                Some(a) => a,
                                None => summary(body),
                            },
                        },
                        body,
                        tags: shortcut_tags(shortcut),
                        folder_path: folder_chain(folders),
                    },
                )
            }
        },
        None => None,
    }
}

/// The snippet of a phrase's fields, in these folders; none where it has no text.
pub fn phrase_from_map(m: &Vec<(String, String)>, folders: &Vec<String>) -> (r: Option<NewSnippet>)
    ensures
        match r {
            Some(s) => phrase(field_map(m@), views(folders@)) == Some(s@),
            None => phrase(field_map(m@), views(folders@)) is None,
        },
{
    let title_names: [&str; 5] = ["description", "name", "title", "shortname", "subject"];
    let body_names: [&str; 6] = ["phrasecontent", "phrase", "content", "body", "text", "value"];
    let shortcut_names: [&str; 4] = ["autotext", "shortcut", "abbreviation", "key"];
    assert(name_views(title_names@) =~= title_keys());
    assert(name_views(body_names@) =~= body_keys());
    assert(name_views(shortcut_names@) =~= shortcut_keys());
    let title = first_nonempty(m, title_names.as_slice());
    let raw = first_nonempty(m, body_names.as_slice());
    let shortcut = first_nonempty(m, shortcut_names.as_slice());
    let body = match raw {
        Some(b) => cleanup_body(b.as_str()),
        None => {
            return None;
        },
    };
    if is_blank(body.as_str()) {
        return None;
    }
    let tags = tags_of_shortcut(&shortcut);
    let title = match title {
        Some(t) => t,
        None => match shortcut {
            Some(a) => a,
            None => summarize(body.as_str()),
        },
    };
    let parts: Vec<String> = trim_parts(folders);
    assert(views(parts@).len() == parts@.len());
    let folder_path = if parts.len() == 0 {
        None
    } else {
        proof {
            reveal_strlit("/");
            assert("/"@ =~= slash());
        }
        Some(join(&parts, "/"))
    };
    Some(NewSnippet { title, body, tags, folder_path })
}

/// How far the reading of a document has come.
#[verifier::ext_equal]
pub struct PexView {
    /// The snippets so far.
    pub out: Seq<NewSnippetView>,
    /// The names of the open folders.
    pub folders: Seq<Seq<char>>,
    /// The field that text belongs to.
    pub field: Option<Seq<char>>,
    /// The fields of the open phrase.
    pub fields: Map<Seq<char>, Seq<char>>,
    /// How deep the open phrase stands.
    pub phrase_depth: Option<nat>,
    pub depth: nat,
}

/// The fields that attributes give.
pub open spec fn attribute_fields(l: Seq<Option<XmlAttributeView>>) -> Map<Seq<char>, Seq<char>>
    decreases l.len(),
{
    if l.len() == 0 {
        Map::empty()
    } else {
        let before = attribute_fields(l.drop_last());
        match l.last() {
            Some(a) => match a.value {
                Some(v) => before.insert(xml_name(a.key), v),
                None => before,
            },
            None => before,
        }
    }
}

/// The name that attributes give to a folder: the last that is readable.
pub open spec fn folder_name(l: Seq<Option<XmlAttributeView>>) -> Seq<char>
    decreases l.len(),
{
    if l.len() == 0 {
        Seq::empty()
    } else {
        match l.last() {
            Some(a) => if folder_key(xml_name(a.key)) && a.value is Some {
                a.value->0
            } else {
                folder_name(l.drop_last())
            },
            None => folder_name(l.drop_last()),
        }
    }
}

/// What an event does to the reading.
pub open spec fn pex_step(st: PexView, e: XmlEventView) -> PexView {
    match e {
        XmlEventView::Start { name, attributes } => {
            let tag = xml_name(name);
            let depth = st.depth + 1;
            if st.phrase_depth is Some {
                PexView { depth, field: Some(tag), ..st }
            } else if phrase_tag(tag) {
                PexView {
                    depth,
                    field: Some(tag),
                    phrase_depth: Some(depth),
                    fields: attribute_fields(attributes),
                    ..st
                }
            } else if folder_tag(tag) {
                PexView { depth, folders: st.folders.push(folder_name(attributes)), ..st }
            } else {
                PexView { depth, ..st }
            }
        },
        XmlEventView::Text(Some(t)) => if st.phrase_depth is Some && st.field is Some {
            PexView { fields: grown(st.fields, st.field->0, t), ..st }
        } else {
            st
        },
        XmlEventView::CData(b) => if st.phrase_depth is Some && st.field is Some && valid_utf8(b) {
            PexView { fields: grown(st.fields, st.field->0, decode_utf8(b)), ..st }
        } else {
            st
        },
        XmlEventView::End { name } => {
            let tag = xml_name(name);
            let depth = if st.depth == 0 {
                0
            } else {
                (st.depth - 1) as nat
            };
            if st.phrase_depth == Some(st.depth) && phrase_tag(tag) {
                PexView {
                    out: match phrase(st.fields, st.folders) {
                        Some(s) => st.out.push(s),
                        None => st.out,
                    },
                    fields: Map::empty(),
                    phrase_depth: None,
                    field: None,
                    depth,
                    ..st
                }
            } else if st.phrase_depth is None && folder_tag(tag) {
                PexView {
                    folders: if st.folders.len() == 0 {
                        st.folders
                    } else {
                        st.folders.drop_last()
                    },
                    depth,
                    ..st
                }
            } else {
                PexView { field: None, depth, ..st }
            }
        },
        _ => st,
    }
}

/// How a reading begins.
pub open spec fn pex_start() -> PexView {
    PexView {
        out: Seq::empty(),
        folders: Seq::empty(),
        field: None,
        fields: Map::empty(),
        phrase_depth: None,
        depth: 0,
    }
}

/// How far the reading is after these events.
pub open spec fn pex_read(l: Seq<XmlEventView>) -> PexView
    decreases l.len(),
{
    if l.len() == 0 {
        pex_start()
    } else {
        pex_step(pex_read(l.drop_last()), l.last())
    }
}

/// What an export holds, by its events: its snippets, or the fault that stopped
/// the reading.
pub open spec fn pex_snippets(l: Seq<XmlEventView>) -> Result<Seq<NewSnippetView>, Seq<char>> {
    match l.last() {
        XmlEventView::Fault { at, message } => Err(
            "xml parse error at pos "@ + decimal(at as nat) + ": "@ + message,
        ),
        _ => Ok(pex_read(l).out),
    }
}

/// Every snippet that is imported from an export holds some text.
pub proof fn law_imported_phrases_have_text(l: Seq<XmlEventView>, i: int)
    requires
        0 <= i < pex_read(l).out.len(),
    ensures
        trimmed(pex_read(l).out[i].body).len() > 0,
    decreases l.len(),
{
    if l.len() > 0 {
        let before = pex_read(l.drop_last());
        if i < before.out.len() {
            law_imported_phrases_have_text(l.drop_last(), i);
        }
    }
}

struct PexReader {
    out: Vec<NewSnippet>,
    folders: Vec<String>,
    field: Option<String>,
    fields: Vec<(String, String)>,
    phrase_depth: Option<usize>,
    depth: usize,
}

impl View for PexReader {
    type V = PexView;

    closed spec fn view(&self) -> PexView {
        PexView {
            out: new_snippet_views(self.out@),
            folders: views(self.folders@),
            field: opt_view(self.field),
            fields: field_map(self.fields@),
            phrase_depth: match self.phrase_depth {
                Some(d) => Some(d as nat),
                None => None,
            },
            depth: self.depth as nat,
        }
    }
}

fn fields_of_attributes(l: &Vec<Option<XmlAttribute>>) -> (r: Vec<(String, String)>)
    ensures
        field_map(r@) == attribute_fields(attribute_views(l@)),
{
    let n: usize = l.len();
    let mut out: Vec<(String, String)> = Vec::new();
    let ghost all = attribute_views(l@);
    assert(all.take(0) =~= Seq::<Option<XmlAttributeView>>::empty());
    for i in 0..n
        invariant
            n == l@.len(),
            all == attribute_views(l@),
            field_map(out@) == attribute_fields(all.take(i as int)),
    {
        proof {
            let t = all.take(i + 1);
            assert(t.drop_last() =~= all.take(i as int));
            assert(t.last() == all[i as int]);
        }
        if let Some(a) = &l[i] {
            if let Some(v) = &a.value {
                put_field(&mut out, name_of(&a.key), copy_text(v.as_str()));
            }
        }
    }
    assert(all.take(n as int) =~= all);
    out
}

fn folder_of_attributes(l: &Vec<Option<XmlAttribute>>) -> (r: String)
    ensures
        r@ == folder_name(attribute_views(l@)),
{
    let n: usize = l.len();
    let mut out: String = String::new();
    let ghost all = attribute_views(l@);
    assert(all.take(0) =~= Seq::<Option<XmlAttributeView>>::empty());
    assert(out@ =~= Seq::<char>::empty());
    for i in 0..n
        invariant
            n == l@.len(),
            all == attribute_views(l@),
            out@ == folder_name(all.take(i as int)),
    {
        proof {
            let t = all.take(i + 1);
            assert(t.drop_last() =~= all.take(i as int));
            assert(t.last() == all[i as int]);
        }
        if let Some(a) = &l[i] {
            let key = name_of(&a.key);
            if same_text(key.as_str(), "description") || same_text(key.as_str(), "name")
                || same_text(key.as_str(), "title") {
                if let Some(v) = &a.value {
                    out = copy_text(v.as_str());
                }
            }
        }
    }
    assert(all.take(n as int) =~= all);
    out
}

impl PexReader {
    fn opened(&mut self, name: &Vec<u8>, attributes: &Vec<Option<XmlAttribute>>)
        requires
            old(self)@.depth < usize::MAX,
        ensures
            final(self)@ == pex_step(
                old(self)@,
                XmlEventView::Start { name: name@, attributes: attribute_views(attributes@) },
            ),
    {
        let tag = name_of(name);
        self.depth = self.depth + 1;
        if self.phrase_depth.is_some() {
            self.field = Some(tag);
        } else if is_phrase_tag(tag.as_str()) {
            self.phrase_depth = Some(self.depth);
            self.fields = fields_of_attributes(attributes);
            self.field = Some(tag);
        } else if is_folder_tag(tag.as_str()) {
            let f = folder_of_attributes(attributes);
            proof {
                crate::text::lemma_views_push(self.folders@, f);
            }
            self.folders.push(f);
        }
    }

    fn text(&mut self, t: &str)
        ensures
            final(self)@ == pex_step(old(self)@, XmlEventView::Text(Some(t@))),
    {
        if self.phrase_depth.is_some() {
            if let Some(f) = &self.field {
                let key = copy_text(f.as_str());
                grow_field(&mut self.fields, key.as_str(), t);
            }
        }
    }

    fn closed(&mut self, name: &Vec<u8>)
        ensures
            final(self)@ == pex_step(old(self)@, XmlEventView::End { name: name@ }),
    {
        let tag = name_of(name);
        let at_phrase = match self.phrase_depth {
            Some(d) => d == self.depth,
            None => false,
        };
        if at_phrase && is_phrase_tag(tag.as_str()) {
            if let Some(s) = phrase_from_map(&self.fields, &self.folders) {
                let ghost before = self.out@;
                self.out.push(s);
                assert(new_snippet_views(self.out@) =~= new_snippet_views(before).push(s@));
            }
            self.fields = Vec::new();
            self.phrase_depth = None;
            self.field = None;
        } else if self.phrase_depth.is_none() && is_folder_tag(tag.as_str()) {
            let ghost before = self.folders@;
            let gone = self.folders.pop();
            assert(before.len() > 0 ==> views(self.folders@) =~= views(before).drop_last());
            assert(before.len() == 0 ==> views(self.folders@) =~= views(before));
        } else {
            self.field = None;
        }
        if self.depth > 0 {
            self.depth = self.depth - 1;
        }
    }
}

proof fn lemma_depth(l: Seq<XmlEventView>)
    ensures
        pex_read(l).depth <= l.len(),
    decreases l.len(),
{
    if l.len() > 0 {
        lemma_depth(l.drop_last());
    }
}

/// What an export holds, by its events: its snippets, or the fault that stopped
/// the reading.
pub fn snippets_from_events(events: &Vec<XmlEvent>) -> (r: Result<Vec<NewSnippet>, String>)
    requires
        complete(event_views(events@)),
    ensures
        match r {
            Ok(l) => pex_snippets(event_views(events@)) == Ok::<Seq<NewSnippetView>, Seq<char>>(
                new_snippet_views(l@),
            ),
            Err(e) => pex_snippets(event_views(events@)) == Err::<Seq<NewSnippetView>, Seq<char>>(
                e@,
            ),
        },
{
    let n: usize = events.len();
    let ghost all = event_views(events@);
    let mut st = PexReader {
        out: Vec::new(),
        folders: Vec::new(),
        field: None,
        fields: Vec::new(),
        phrase_depth: None,
        depth: 0,
    };
    proof {
        assert(all.take(0) =~= Seq::<XmlEventView>::empty());
        assert(new_snippet_views(st.out@) =~= Seq::<NewSnippetView>::empty());
        assert(views(st.folders@) =~= Seq::<Seq<char>>::empty());
        assert(st@ =~= pex_start());
    }
    for i in 0..n
        invariant
            n == events@.len(),
            all == event_views(events@),
            st@ == pex_read(all.take(i as int)),
            complete(all),
            forall|j: int| 0 <= j < i ==> !(#[trigger] all[j] is Fault),
    {
        proof {
            let t = all.take(i + 1);
            assert(t.drop_last() =~= all.take(i as int));
            assert(t.last() == events@[i as int]@);
            lemma_depth(all.take(i as int));
        }
        match &events[i] {
            XmlEvent::Start { name, attributes } => st.opened(name, attributes),
            XmlEvent::Text(t) => {
                if let Some(s) = t {
                    st.text(s.as_str());
                }
            },
            XmlEvent::CData(b) => {
                if let Some(s) = text_of_utf8(b.as_slice()) {
                    st.text(s.as_str());
                }
            },
            XmlEvent::End { name } => st.closed(name),
            XmlEvent::Fault { at, message } => {
                assert(stops(all[i as int]));
                assert(all.last() == all[i as int]);
                let p = nat_text(*at as u128);
                let mut e: String = "xml parse error at pos ".to_owned();
                e.push_str(p.as_str());
                e.push_str(": ");
                e.push_str(message.as_str());
                return Err(e);
            },
            XmlEvent::Other => {},
            XmlEvent::Eof => {},
        }
    }
    assert(all.take(n as int) =~= all);
    assert(all.last() == events@[n - 1]@);
    Ok(st.out)
}

/// The snippets of an XML export.
pub fn parse_pex_xml(contents: &str) -> (r: Result<Vec<NewSnippet>, String>)
    ensures
        ({
            let events = unescaped_events(xml_events(contents@));
            match r {
                Ok(l) => pex_snippets(events) == Ok::<Seq<NewSnippetView>, Seq<char>>(
                    new_snippet_views(l@),
                ),
                Err(e) => pex_snippets(events) == Err::<Seq<NewSnippetView>, Seq<char>>(e@),
            }
        }),
{
    let mut reader = xml_reader(contents);
    let ghost raw = xml_events(contents@);
    let ghost all = unescaped_events(raw);
    let mut events: Vec<XmlEvent> = Vec::new();
    let mut more = true;
    assert(unescaped_events(events_left(reader)) =~= all);
    assert(event_views(events@) + all =~= all);
    while more
        invariant
            raw_complete(raw),
            all == unescaped_events(raw),
            events@.len() <= raw.len(),
            events_left(reader) == raw.skip(events@.len() as int),
            event_views(events@) == all.take(events@.len() as int),
            more == (events_left(reader).len() > 0),
        decreases events_left(reader).len(),
    {
        let ghost k = events@.len() as int;
        let ghost before = events@;
        let e = next_event(&mut reader);
        assert(e@ == raw[k]);
        assert(events_left(reader) =~= raw.skip(k + 1));
        let x = unescape_event(e);
        match &x {
            XmlEvent::Eof => {
                more = false;
            },
            XmlEvent::Fault { at, message } => {
                more = false;
            },
            _ => {},
        }
        assert(stops(x@) == raw_stops(raw[k]));
        events.push(x);
        assert(event_views(events@) =~= event_views(before).push(x@));
        assert(all.take(k + 1) =~= all.take(k).push(all[k]));
    }
    proof {
        assert(all.take(events@.len() as int) =~= all);
        assert forall|i: int| 0 <= i < all.len() - 1 implies !stops(#[trigger] all[i]) by {
            assert(!raw_stops(raw[i]));
        }
        assert(stops(all.last()) == raw_stops(raw.last()));
    }
    snippets_from_events(&events)
}

} // verus!
