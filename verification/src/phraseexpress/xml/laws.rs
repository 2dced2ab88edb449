//! What an XML export holds, by the elements that it is made of.
use vstd::prelude::*;
use vstd::utf8::{decode_utf8, valid_utf8};

verus! {

use crate::db::NewSnippetView;
use crate::paths::slash;
use crate::phraseexpress::summary;
use crate::phraseexpress::xml::{
    attribute_fields,
    body_keys,
    first_filled,
    folder_name,
    folder_tag,
    grown,
    pex_read,
    pex_snippets,
    pex_start,
    pex_step,
    phrase,
    phrase_tag,
    shortcut_keys,
    title_keys,
    xml_name,
    PexView,
    XmlAttributeView,
    XmlEventView,
};
use crate::rtf::clean_body;
use crate::text::lowercase_text;
use crate::trim::{joined, lemma_trimmed, trimmed, trimmed_parts};

/// A part of a document.
pub enum Node {
    /// An element with what is inside it.
    Element { name: Seq<u8>, attributes: Seq<Option<XmlAttributeView>>, inside: Seq<Node> },
    /// Text.
    Text(Seq<char>),
    /// Text in a section that is not read for marks.
    Section(Seq<u8>),
    /// A comment or another thing that says nothing, or text that cannot be read.
    Silent(XmlEventView),
}

/// The events of a part: an element opens, what is inside it comes, and it closes.
pub open spec fn node_events(n: Node) -> Seq<XmlEventView>
    decreases n,
{
    match n {
        Node::Element { name, attributes, inside } => seq![XmlEventView::Start { name, attributes }]
            + nodes_events(inside) + seq![XmlEventView::End { name }],
        Node::Text(t) => seq![XmlEventView::Text(Some(t))],
        Node::Section(b) => seq![XmlEventView::CData(b)],
        Node::Silent(e) => seq![e],
    }
}

/// The events of parts, one after the other.
pub open spec fn nodes_events(l: Seq<Node>) -> Seq<XmlEventView>
    decreases l,
{
    if l.len() == 0 {
        Seq::empty()
    } else {
        nodes_events(l.drop_last()) + node_events(l.last())
    }
}

/// Whether the silent parts say nothing indeed.
pub open spec fn node_ok(n: Node) -> bool
    decreases n,
{
    match n {
        Node::Element { name, attributes, inside } => nodes_ok(inside),
        Node::Text(_) => true,
        Node::Section(_) => true,
        Node::Silent(e) => e == XmlEventView::Other || e == XmlEventView::Text(None),
    }
}

/// Whether the silent parts say nothing indeed.
pub open spec fn nodes_ok(l: Seq<Node>) -> bool
    decreases l,
{
    l.len() == 0 || (nodes_ok(l.drop_last()) && node_ok(l.last()))
}

/// A name without regard to case; empty where it cannot be read.
pub open spec fn tag_of(b: Seq<u8>) -> Seq<char> {
    lowercase_text(
        if valid_utf8(b) {
            decode_utf8(b)
        } else {
            Seq::empty()
        },
    )
}

/// Whether an element is a folder.
pub open spec fn is_folder(name: Seq<u8>) -> bool {
    tag_of(name) == "folder"@ || tag_of(name) == "pxfolder"@ || tag_of(name) == "px_folder"@
        || tag_of(name) == "group"@
}

/// Whether an element is a phrase.
pub open spec fn is_phrase(name: Seq<u8>) -> bool {
    tag_of(name) == "phrase"@ || tag_of(name) == "pxphrase"@ || tag_of(name) == "px_phrase"@
        || tag_of(name) == "phraseentry"@ || tag_of(name) == "entry"@
}

/// Whether an attribute gives a folder its name.
pub open spec fn names_folder(a: Option<XmlAttributeView>) -> bool {
    a matches Some(x) && x.value is Some && (tag_of(x.key) == "description"@ || tag_of(x.key)
        == "name"@ || tag_of(x.key) == "title"@)
}

/// The name of a folder: that of the last attribute which gives one, and empty without one.
pub open spec fn name_of_folder(l: Seq<Option<XmlAttributeView>>) -> Seq<char>
    decreases l.len(),
{
    if l.len() == 0 {
        Seq::empty()
    } else if names_folder(l.last()) {
        l.last()->0.value->0
    } else {
        name_of_folder(l.drop_last())
    }
}

/// The fields that attributes give, by name. Of two with one name the later counts.
pub open spec fn fields_given(l: Seq<Option<XmlAttributeView>>) -> Map<Seq<char>, Seq<char>>
    decreases l.len(),
{
    if l.len() == 0 {
        Map::empty()
    } else if l.last() matches Some(a) && a.value is Some {
        fields_given(l.drop_last()).insert(tag_of(l.last()->0.key), l.last()->0.value->0)
    } else {
        fields_given(l.drop_last())
    }
}

/// Fields with a text added to one of them, behind a space where it held some already.
pub open spec fn text_added(m: Map<Seq<char>, Seq<char>>, key: Seq<char>, t: Seq<char>) -> Map<
    Seq<char>,
    Seq<char>,
> {
    m.insert(
        key,
        if m.dom().contains(key) && m[key].len() > 0 {
            m[key] + seq![' '] + t
        } else {
            t
        },
    )
}

/// Whether parts hold an element.
pub open spec fn holds_element(l: Seq<Node>) -> bool {
    exists|i: int| 0 <= i < l.len() && (#[trigger] l[i]) is Element
}

/// The fields of a phrase once a part of it is read: text belongs to the element that it
/// stands in, as far as no other element stands before it there.
pub open spec fn fields_after(
    n: Node,
    field: Option<Seq<char>>,
    m: Map<Seq<char>, Seq<char>>,
) -> Map<Seq<char>, Seq<char>>
    decreases n,
{
    match n {
        Node::Element { name, attributes, inside } => fields_in(inside, Some(tag_of(name)), m),
        Node::Text(t) => match field {
            Some(f) => text_added(m, f, t),
            None => m,
        },
        Node::Section(b) => match field {
            Some(f) => if valid_utf8(b) {
                text_added(m, f, decode_utf8(b))
            } else {
                m
            },
            None => m,
        },
        Node::Silent(_) => m,
    }
}

/// The fields of a phrase once parts of it are read.
pub open spec fn fields_in(
    l: Seq<Node>,
    field: Option<Seq<char>>,
    m: Map<Seq<char>, Seq<char>>,
) -> Map<Seq<char>, Seq<char>>
    decreases l,
{
    if l.len() == 0 {
        m
    } else {
        let front = l.drop_last();
        fields_after(
            l.last(),
            if holds_element(front) {
                None
            } else {
                field
            },
            fields_in(front, field, m),
        )
    }
}

/// Whether a field is there and not blank.
pub open spec fn filled(m: Map<Seq<char>, Seq<char>>, key: Seq<char>) -> bool {
    m.dom().contains(key) && trimmed(m[key]).len() > 0
}

/// The first of these fields that is not blank, without its outer blanks.
pub open spec fn first_of(m: Map<Seq<char>, Seq<char>>, keys: Seq<Seq<char>>) -> Option<Seq<char>>
    decreases keys.len(),
{
    if keys.len() == 0 {
        None
    } else if first_of(m, keys.drop_last()) is Some {
        first_of(m, keys.drop_last())
    } else if filled(m, keys.last()) {
        Some(trimmed(m[keys.last()]))
    } else {
        None
    }
}

/// The snippet that a phrase with these fields is, in these folders: none where it has no
/// text. The title is what names the phrase, or else its shortcut, or else the start of its
/// text. A shortcut becomes a tag. The folder is the path of the folders around it, without
/// those that have no name.
pub open spec fn snippet_of(m: Map<Seq<char>, Seq<char>>, folders: Seq<Seq<char>>) -> Option<
    NewSnippetView,
> {
    let title = first_of(
        m,
        seq!["description"@, "name"@, "title"@, "shortname"@, "subject"@],
    );
    let text = first_of(
        m,
        seq!["phrasecontent"@, "phrase"@, "content"@, "body"@, "text"@, "value"@],
    );
    let shortcut = first_of(m, seq!["autotext"@, "shortcut"@, "abbreviation"@, "key"@]);
    let named = trimmed_parts(folders);
    if text is None || trimmed(clean_body(text->0)).len() == 0 {
        None
    } else {
        Some(
            NewSnippetView {
                title: if title is Some {
                    title->0
                } else if shortcut is Some {
                    shortcut->0
                } else {
                    summary(clean_body(text->0))
                },
                body: clean_body(text->0),
                tags: if shortcut is Some {
                    seq!["shortcut:"@ + lowercase_text(shortcut->0)]
                } else {
                    Seq::empty()
                },
                folder_path: if named.len() == 0 {
                    None
                } else {
                    Some(joined(named, slash()))
                },
            },
        )
    }
}

/// The snippets that a part of a document holds, where these folders are around it.
pub open spec fn snippets_of(n: Node, folders: Seq<Seq<char>>) -> Seq<NewSnippetView>
    decreases n,
{
    match n {
        Node::Element { name, attributes, inside } => if is_phrase(name) {
            match snippet_of(fields_in(inside, Some(tag_of(name)), fields_given(attributes)), folders) {
                Some(s) => seq![s],
                None => Seq::empty(),
            }
        } else if is_folder(name) {
            snippets_in(inside, folders.push(name_of_folder(attributes)))
        } else {
            snippets_in(inside, folders)
        },
        _ => Seq::empty(),
    }
}

/// The snippets that parts of a document hold, in order, where these folders are around them.
pub open spec fn snippets_in(l: Seq<Node>, folders: Seq<Seq<char>>) -> Seq<NewSnippetView>
    decreases l,
{
    if l.len() == 0 {
        Seq::empty()
    } else {
        snippets_in(l.drop_last(), folders) + snippets_of(l.last(), folders)
    }
}

spec fn run(st: PexView, l: Seq<XmlEventView>) -> PexView
    decreases l.len(),
{
    if l.len() == 0 {
        st
    } else {
        pex_step(run(st, l.drop_last()), l.last())
    }
}

proof fn lemma_run_joins(st: PexView, a: Seq<XmlEventView>, b: Seq<XmlEventView>)
    ensures
        run(st, a + b) == run(run(st, a), b),
    decreases b.len(),
{
    if b.len() == 0 {
        assert(a + b =~= a);
    } else {
        lemma_run_joins(st, a, b.drop_last());
        assert((a + b).drop_last() =~= a + b.drop_last());
    }
}

proof fn lemma_run_one(st: PexView, e: XmlEventView)
    ensures
        run(st, seq![e]) == pex_step(st, e),
{
    assert(seq![e].drop_last() =~= Seq::<XmlEventView>::empty());
    assert(run(st, seq![e].drop_last()) == st);
}

proof fn lemma_run_is_read(l: Seq<XmlEventView>)
    ensures
        pex_read(l) == run(pex_start(), l),
    decreases l.len(),
{
    if l.len() > 0 {
        lemma_run_is_read(l.drop_last());
    }
}

proof fn lemma_names(l: Seq<Option<XmlAttributeView>>)
    ensures
        folder_name(l) == name_of_folder(l),
        attribute_fields(l) == fields_given(l),
    decreases l.len(),
{
    if l.len() > 0 {
        lemma_names(l.drop_last());
    }
}

proof fn lemma_added(m: Map<Seq<char>, Seq<char>>, key: Seq<char>, t: Seq<char>)
    ensures
        grown(m, key, t) == text_added(m, key, t),
{
    reveal_strlit(" ");
    assert(" "@ =~= seq![' ']);
}

/// Searching from the front finds the same field.
proof fn lemma_first(m: Map<Seq<char>, Seq<char>>, keys: Seq<Seq<char>>)
    ensures
        first_filled(m, keys) == first_of(m, keys),
    decreases keys.len(),
{
    if keys.len() > 0 {
        lemma_first(m, keys.skip(1));
        lemma_first_front(m, keys);
    }
}

proof fn lemma_first_front(m: Map<Seq<char>, Seq<char>>, keys: Seq<Seq<char>>)
    requires
        keys.len() > 0,
    ensures
        first_of(m, keys) == (if filled(m, keys[0]) {
            Some(trimmed(m[keys[0]]))
        } else {
            first_of(m, keys.skip(1))
        }),
    decreases keys.len(),
{
    if keys.len() == 1 {
        assert(keys.drop_last() =~= Seq::<Seq<char>>::empty());
        assert(keys.skip(1) =~= Seq::<Seq<char>>::empty());
    } else {
        lemma_first_front(m, keys.drop_last());
        let r = keys.skip(1);
        assert(r.drop_last() =~= keys.drop_last().skip(1));
        assert(r.last() == keys.last());
        assert(keys.drop_last()[0] == keys[0]);
    }
}

proof fn lemma_first_is_trimmed(m: Map<Seq<char>, Seq<char>>, keys: Seq<Seq<char>>)
    ensures
        first_of(m, keys) matches Some(t) ==> t.len() > 0 && trimmed(t) == t,
    decreases keys.len(),
{
    if keys.len() > 0 {
        lemma_first_is_trimmed(m, keys.drop_last());
        if filled(m, keys.last()) {
            lemma_trimmed(m[keys.last()]);
        }
    }
}

proof fn lemma_phrase(m: Map<Seq<char>, Seq<char>>, folders: Seq<Seq<char>>)
    ensures
        phrase(m, folders) == snippet_of(m, folders),
{
    lemma_first(m, title_keys());
    lemma_first(m, body_keys());
    lemma_first(m, shortcut_keys());
    lemma_first_is_trimmed(m, shortcut_keys());
    assert(title_keys() =~= seq!["description"@, "name"@, "title"@, "shortname"@, "subject"@]);
    assert(body_keys() =~= seq![
        "phrasecontent"@,
        "phrase"@,
        "content"@,
        "body"@,
        "text"@,
        "value"@,
    ]);
    assert(shortcut_keys() =~= seq!["autotext"@, "shortcut"@, "abbreviation"@, "key"@]);
}

spec fn field_after(l: Seq<Node>, field: Option<Seq<char>>) -> Option<Seq<char>> {
    if holds_element(l) {
        None
    } else {
        field
    }
}

proof fn lemma_holds_element(l: Seq<Node>)
    requires
        l.len() > 0,
    ensures
        holds_element(l) == (holds_element(l.drop_last()) || l.last() is Element),
{
    let f = l.drop_last();
    if holds_element(f) {
        let i = choose|i: int| 0 <= i < f.len() && (#[trigger] f[i]) is Element;
        assert(l[i] is Element);
    }
    if l.last() is Element {
        assert(l[l.len() - 1] is Element);
    }
    if holds_element(l) && !(l.last() is Element) {
        let i = choose|i: int| 0 <= i < l.len() && (#[trigger] l[i]) is Element;
        assert(f[i] is Element);
    }
}

/// What reading a part inside a phrase does.
proof fn lemma_inside_one(st: PexView, n: Node)
    requires
        node_ok(n),
        st.phrase_depth matches Some(d) && 0 < d <= st.depth,
    ensures
        run(st, node_events(n)) == (PexView {
            fields: fields_after(n, st.field, st.fields),
            field: if n is Element {
                None
            } else {
                st.field
            },
            ..st
        }),
    decreases n, 0nat,
{
    match n {
        Node::Element { name, attributes, inside } => {
            let s = XmlEventView::Start { name, attributes };
            let e = XmlEventView::End { name };
            let es = nodes_events(inside);
            lemma_run_joins(st, seq![s] + es, seq![e]);
            lemma_run_joins(st, seq![s], es);
            lemma_run_one(st, s);
            let st1 = pex_step(st, s);
            lemma_inside(st1, inside);
            let st2 = run(st1, es);
            lemma_run_one(st2, e);
        },
        Node::Text(t) => {
            lemma_run_one(st, XmlEventView::Text(Some(t)));
            if let Some(f) = st.field {
                lemma_added(st.fields, f, t);
            }
        },
        Node::Section(b) => {
            lemma_run_one(st, XmlEventView::CData(b));
            if let Some(f) = st.field {
                lemma_added(st.fields, f, decode_utf8(b));
            }
        },
        Node::Silent(e) => {
            lemma_run_one(st, e);
        },
    }
}

proof fn lemma_inside(st: PexView, l: Seq<Node>)
    requires
        nodes_ok(l),
        st.phrase_depth matches Some(d) && 0 < d <= st.depth,
    ensures
        run(st, nodes_events(l)) == (PexView {
            fields: fields_in(l, st.field, st.fields),
            field: field_after(l, st.field),
            ..st
        }),
    decreases l, 1nat,
{
    if l.len() == 0 {
    } else {
        let front = l.drop_last();
        lemma_holds_element(l);
        lemma_inside(st, front);
        lemma_run_joins(st, nodes_events(front), node_events(l.last()));
        lemma_inside_one(run(st, nodes_events(front)), l.last());
    }
}

/// Whether two readings agree, where none is in a phrase: in their snippets so far and in the
/// folders that are open.
spec fn agree(a: PexView, out: Seq<NewSnippetView>, st: PexView) -> bool {
    &&& a.out == out
    &&& a.folders == st.folders
    &&& a.phrase_depth is None
    &&& a.depth == st.depth
}

proof fn lemma_outside_one(st: PexView, n: Node)
    requires
        node_ok(n),
        st.phrase_depth is None,
    ensures
        agree(run(st, node_events(n)), st.out + snippets_of(n, st.folders), st),
    decreases n, 0nat,
{
    let none = Seq::<NewSnippetView>::empty();
    assert(st.out + none =~= st.out);
    match n {
        Node::Element { name, attributes, inside } => {
            let s = XmlEventView::Start { name, attributes };
            let e = XmlEventView::End { name };
            let es = nodes_events(inside);
            lemma_run_joins(st, seq![s] + es, seq![e]);
            lemma_run_joins(st, seq![s], es);
            lemma_run_one(st, s);
            let st1 = pex_step(st, s);
            lemma_names(attributes);
            assert(phrase_tag(xml_name(name)) == is_phrase(name));
            assert(folder_tag(xml_name(name)) == is_folder(name));
            let st2 = run(st1, es);
            lemma_run_one(st2, e);
            if is_phrase(name) {
                lemma_inside(st1, inside);
                lemma_phrase(st2.fields, st2.folders);
                let p = phrase(st2.fields, st2.folders);
                if let Some(x) = p {
                    assert(st.out.push(x) =~= st.out + seq![x]);
                }
            } else if is_folder(name) {
                lemma_outside(st1, inside);
                assert(st1.folders.drop_last() =~= st.folders);
            } else {
                lemma_outside(st1, inside);
            }
        },
        Node::Text(t) => {
            lemma_run_one(st, XmlEventView::Text(Some(t)));
        },
        Node::Section(b) => {
            lemma_run_one(st, XmlEventView::CData(b));
        },
        Node::Silent(e) => {
            lemma_run_one(st, e);
        },
    }
}

proof fn lemma_outside(st: PexView, l: Seq<Node>)
    requires
        nodes_ok(l),
        st.phrase_depth is None,
    ensures
        agree(run(st, nodes_events(l)), st.out + snippets_in(l, st.folders), st),
    decreases l, 1nat,
{
    if l.len() == 0 {
        assert(st.out + Seq::<NewSnippetView>::empty() =~= st.out);
    } else {
        let front = l.drop_last();
        lemma_outside(st, front);
        lemma_run_joins(st, nodes_events(front), node_events(l.last()));
        let mid = run(st, nodes_events(front));
        lemma_outside_one(mid, l.last());
        assert((st.out + snippets_in(front, st.folders)) + snippets_of(l.last(), st.folders)
            =~= st.out + snippets_in(l, st.folders));
    }
}

/// An export gives its phrases, in order, as snippets: each with its title, its text, its
/// shortcut as a tag, and the path of exactly the folders that enclose it.
pub proof fn law_phrases_lie_in_the_folders_around_them(l: Seq<Node>)
    requires
        nodes_ok(l),
    ensures
        pex_snippets(nodes_events(l).push(XmlEventView::Eof)) == Ok::<
            Seq<NewSnippetView>,
            Seq<char>,
        >(snippets_in(l, Seq::empty())),
{
    let es = nodes_events(l);
    let all = es.push(XmlEventView::Eof);
    lemma_run_is_read(all);
    assert(all.drop_last() =~= es);
    lemma_outside(pex_start(), l);
    let none = Seq::<NewSnippetView>::empty();
    assert(none + snippets_in(l, Seq::empty()) =~= snippets_in(l, Seq::empty()));
}

/// Once an element is closed, the open folders are those that were open before it, wherever it
/// stands: what follows it does not lie in it.
pub proof fn law_closed_elements_are_left(before: Seq<XmlEventView>, n: Node)
    requires
        node_ok(n),
        pex_read(before).phrase_depth matches Some(d) ==> 0 < d <= pex_read(before).depth,
    ensures
        pex_read(before + node_events(n)).folders == pex_read(before).folders,
        pex_read(before + node_events(n)).phrase_depth == pex_read(before).phrase_depth,
        pex_read(before + node_events(n)).depth == pex_read(before).depth,
{
    lemma_run_is_read(before);
    lemma_run_is_read(before + node_events(n));
    lemma_run_joins(pex_start(), before, node_events(n));
    if pex_read(before).phrase_depth is Some {
        lemma_inside_one(pex_read(before), n);
    } else {
        lemma_outside_one(pex_read(before), n);
    }
}

/// Two lists of parts, one after the other, hold the snippets of the first and then those of
/// the second: what stands before an element does not change where it lies.
pub proof fn law_neighbours_do_not_nest(a: Seq<Node>, b: Seq<Node>, folders: Seq<Seq<char>>)
    ensures
        snippets_in(a + b, folders) == snippets_in(a, folders) + snippets_in(b, folders),
    decreases b.len(),
{
    if b.len() == 0 {
        assert(a + b =~= a);
        assert(snippets_in(a, folders) + snippets_in(b, folders) =~= snippets_in(a, folders));
    } else {
        law_neighbours_do_not_nest(a, b.drop_last(), folders);
        assert((a + b).drop_last() =~= a + b.drop_last());
        assert(snippets_in(a + b, folders) =~= snippets_in(a, folders) + snippets_in(b, folders));
    }
}

} // verus!
