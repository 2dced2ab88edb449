//! Library entries as JSON: a list of objects with a title, a body, tags and a folder.
use crate::csv::ImportFileEntry;
use crate::dashboard::transfer::ExportEntry;
use crate::json::keys::{count_name, names_of};
use crate::json::{as_text, get, parse_json, read_elements, Json};
use crate::text::{copy_text, push_text};
use vstd::prelude::*;

verus! {

use crate::csv::{entry_views, EntryView};
use crate::dashboard::transfer::export_views;
use crate::json::keys::times;
use crate::json::{
    json_elements,
    json_of_text,
    json_view,
    json_views,
    lemma_json_views,
    member,
    opt_json,
    text_of,
    JsonView,
};
use crate::text::{opt_view, views};

/// A body, which may be left out.
pub open spec fn body_in(j: Option<JsonView>) -> Option<Seq<char>> {
    match j {
        None => Some(Seq::empty()),
        Some(JsonView::Text(t)) => Some(t),
        Some(_) => None,
    }
}

/// The texts of an array that holds nothing else.
pub open spec fn texts_in(l: Seq<JsonView>) -> Option<Seq<Seq<char>>> {
    if forall|i: int| 0 <= i < l.len() ==> (#[trigger] l[i]) is Text {
        Some(Seq::new(l.len(), |i: int| text_of(Some(l[i]))->0))
    } else {
        None
    }
}

/// Tags, which may be left out.
pub open spec fn tags_in(j: Option<JsonView>) -> Option<Seq<Seq<char>>> {
    match j {
        None => Some(Seq::empty()),
        Some(JsonView::Array(l, _)) => texts_in(l),
        Some(_) => None,
    }
}

/// A folder, which may be left out, or be `null` for none.
pub open spec fn folder_in(j: Option<JsonView>) -> Option<Option<Seq<char>>> {
    match j {
        None => Some(None),
        Some(JsonView::Null) => Some(None),
        Some(JsonView::Text(t)) => Some(Some(t)),
        Some(_) => None,
    }
}

/// The entry that a JSON object is; its title has to be there. None where a member that an
/// entry has is of another type, or where it is no object.
pub open spec fn entry_in(o: JsonView) -> Option<EntryView> {
    match (
        text_of(member(o, "title"@)),
        body_in(member(o, "body"@)),
        tags_in(member(o, "tags"@)),
        folder_in(member(o, "folder_path"@)),
    ) {
        (Some(title), Some(body), Some(tags), Some(folder_path)) => Some(
            EntryView { title, body, tags, folder_path },
        ),
        _ => None,
    }
}

/// Whether a member stands in the text of an object as often as in the object, and so not
/// twice.
pub open spec fn told_once(text: Seq<char>, o: JsonView, key: Seq<char>) -> bool {
    times(text, key) == (if member(o, key) is Some {
        1nat
    } else {
        0nat
    })
}

/// The entry that a JSON text is; none where it is none, or where one of the members that an
/// entry has stands there twice.
pub open spec fn entry_of_text(text: Seq<char>) -> Option<EntryView> {
    match json_of_text(text) {
        Some(o) => if told_once(text, o, "title"@) && told_once(text, o, "body"@) && told_once(
            text,
            o,
            "tags"@,
        ) && told_once(text, o, "folder_path"@) {
            entry_in(o)
        } else {
            None
        },
        None => None,
    }
}

/// The entries that a JSON text lists; none where one of its elements is no entry, or where
/// it is no list.
pub open spec fn json_entries(text: Seq<char>) -> Option<Seq<EntryView>> {
    match json_elements(text) {
        Some(l) => if forall|i: int| 0 <= i < l.len() ==> entry_of_text(#[trigger] l[i]) is Some {
            Some(Seq::new(l.len(), |i: int| entry_of_text(l[i])->0))
        } else {
            None
        },
        None => None,
    }
}

/// Whether a JSON text is this entry and has no other member.
pub open spec fn writes_entry(text: Seq<char>, e: EntryView) -> bool {
    &&& entry_of_text(text) == Some(e)
    &&& forall|key: Seq<char>| #[trigger]
        member(json_of_text(text)->0, key) is Some ==> key == "title"@ || key == "body"@ || key
            == "tags"@ || key == "folder_path"@
}

/// Whether a JSON text lists exactly these entries.
pub open spec fn writes_entries(text: Seq<char>, l: Seq<EntryView>) -> bool {
    json_elements(text) matches Some(t) && t.len() == l.len() && forall|i: int|
        0 <= i < l.len() ==> writes_entry(#[trigger] t[i], l[i])
}

/// `serde_json::Value` as indented text: a list of objects, each with the four members of an
/// entry, is written so that reading the text gives every entry back, and no other member.
/// The text starts with the bracket of the list.
#[verifier::external_body]
pub(crate) fn entries_text(l: &Vec<ExportEntry>) -> (r: String)
    ensures
        r@.len() > 0 && r@[0] == '[',
        writes_entries(r@, export_views(l@)),
{
    let entries = l.iter().map(|e| {
        let mut m = serde_json::Map::new();
        m.insert("title".to_string(), serde_json::Value::from(e.title.as_str()));
        m.insert("body".to_string(), serde_json::Value::from(e.body.as_str()));
        m.insert("tags".to_string(), serde_json::Value::from(e.tags.clone()));
        m.insert("folder_path".to_string(), serde_json::Value::from(e.folder_path.clone()));
        serde_json::Value::Object(m)
    });
    format!("{:#}", serde_json::Value::Array(entries.collect()))
}

fn read_body(j: Option<&Json>) -> (r: Option<String>)
    ensures
        opt_view(r) == body_in(opt_json(j)),
{
    match j {
        None => Some(String::new()),
        Some(v) => match v {
            Json::Text(t) => Some(copy_text(t.as_str())),
            _ => None,
        },
    }
}

fn read_tags(j: Option<&Json>) -> (r: Option<Vec<String>>)
    ensures
        match r {
            Some(l) => tags_in(opt_json(j)) == Some(views(l@)),
            None => tags_in(opt_json(j)) is None,
        },
{
    match j {
        None => {
            let none: Vec<String> = Vec::new();
            assert(views(none@) =~= Seq::<Seq<char>>::empty());
            Some(none)
        },
        Some(v) => match v {
            Json::Array(l, _) => {
                let n: usize = l.len();
                let mut out: Vec<String> = Vec::new();
                let ghost all = json_views(l@);
                proof {
                    lemma_json_views(l@);
                }
                for i in 0..n
                    invariant
                        n == l@.len(),
                        all.len() == n,
                        forall|k: int| 0 <= k < n ==> #[trigger] all[k] == json_view(l@[k]),
                        forall|k: int| 0 <= k < i ==> (#[trigger] all[k]) is Text,
                        views(out@) =~= Seq::new(
                            i as nat,
                            |k: int| text_of(Some(all[k]))->0,
                        ),
                        all == json_views(l@),
                        opt_json(j) matches Some(JsonView::Array(a, _)) && a == all,
                {
                    match &l[i] {
                        Json::Text(t) => {
                            assert(all[i as int] == JsonView::Text(t@));
                            push_text(&mut out, copy_text(t.as_str()));
                        },
                        _ => {
                            assert(!(all[i as int] is Text));
                            return None;
                        },
                    }
                }
                assert(texts_in(all) == Some(views(out@)));
                Some(out)
            },
            _ => None,
        },
    }
}

fn read_folder(j: Option<&Json>) -> (r: Option<Option<String>>)
    ensures
        match r {
            Some(f) => folder_in(opt_json(j)) == Some(opt_view(f)),
            None => folder_in(opt_json(j)) is None,
        },
{
    match j {
        None => Some(None),
        Some(v) => match v {
            Json::Null => Some(None),
            Json::Text(t) => Some(Some(copy_text(t.as_str()))),
            _ => None,
        },
    }
}

/// The entry that a JSON object is.
pub fn entry_of_json(o: &Json) -> (r: Option<ImportFileEntry>)
    ensures
        match r {
            Some(e) => entry_in(o@) == Some(e@),
            None => entry_in(o@) is None,
        },
{
    let title = as_text(get(o, "title"));
    let body = read_body(get(o, "body"));
    let tags = read_tags(get(o, "tags"));
    let folder = read_folder(get(o, "folder_path"));
    if let (Some(t), Some(body), Some(tags), Some(folder_path)) = (title, body, tags, folder) {
        let e = ImportFileEntry { title: copy_text(t), body, tags, folder_path };
        assert(entry_in(o@) == Some(e@));
        Some(e)
    } else {
        None
    }
}

fn is_told_once(names: &Vec<Option<String>>, o: &Json, key: &str) -> (r: bool)
    ensures
        r == (crate::json::keys::name_count(crate::json::keys::opt_views(names@), key@) == (
        if member(o@, key@) is Some {
            1nat
        } else {
            0nat
        })),
{
    let n: usize = count_name(names, key);
    if get(o, key).is_some() {
        n == 1
    } else {
        n == 0
    }
}

fn entry_from_text(text: &str) -> (r: Option<ImportFileEntry>)
    ensures
        match r {
            Some(e) => entry_of_text(text@) == Some(e@),
            None => entry_of_text(text@) is None,
        },
{
    match parse_json(text) {
        Some(o) => {
            let names: Vec<Option<String>> = names_of(text);
            if is_told_once(&names, &o, "title") && is_told_once(&names, &o, "body")
                && is_told_once(&names, &o, "tags") && is_told_once(&names, &o, "folder_path") {
                entry_of_json(&o)
            } else {
                None
            }
        },
        None => None,
    }
}

/// The entries that a JSON text lists.
pub fn entries_of_json(text: &str) -> (r: Option<Vec<ImportFileEntry>>)
    ensures
        match r {
            Some(l) => json_entries(text@) == Some(entry_views(l@)),
            None => json_entries(text@) is None,
        },
{
    let all: Vec<String> = match read_elements(text) {
        Some(l) => l,
        None => {
            return None;
        },
    };
    let n: usize = all.len();
    let mut out: Vec<ImportFileEntry> = Vec::new();
    let ghost ts = views(all@);
    for i in 0..n
        invariant
            n == all@.len(),
            ts == views(all@),
            json_elements(text@) == Some(ts),
            forall|k: int| 0 <= k < i ==> entry_of_text(#[trigger] ts[k]) is Some,
            entry_views(out@) =~= Seq::new(i as nat, |k: int| entry_of_text(ts[k])->0),
    {
        assert(ts[i as int] == all@[i as int]@);
        match entry_from_text(all[i].as_str()) {
            Some(e) => {
                let ghost before = out@;
                out.push(e);
                assert(entry_views(out@) =~= entry_views(before).push(e@));
            },
            None => {
                return None;
            },
        }
    }
    assert(json_entries(text@) == Some(entry_views(out@)));
    Some(out)
}

/// A list of entries that was written reads back as those entries.
pub proof fn law_written_entries_read_back(text: Seq<char>, l: Seq<EntryView>)
    requires
        writes_entries(text, l),
    ensures
        json_entries(text) == Some(l),
{
    let t = json_elements(text)->0;
    assert forall|i: int| 0 <= i < t.len() implies entry_of_text(#[trigger] t[i]) == Some(l[i]) by {
        assert(writes_entry(t[i], l[i]));
    }
    assert(Seq::new(t.len(), |i: int| entry_of_text(t[i])->0) =~= l);
}

/// An entry of an import file has the title that its object gives, the body and the tags that
/// it gives or none, and the folder that it gives, if any.
pub proof fn law_objects_become_entries(
    o: JsonView,
    title: Seq<char>,
    body: Seq<char>,
    tags: Seq<JsonView>,
    raw: Seq<char>,
    folder: Seq<char>,
)
    requires
        member(o, "title"@) == Some(JsonView::Text(title)),
        member(o, "body"@) is None || member(o, "body"@) == Some(JsonView::Text(body)),
        member(o, "tags"@) is None || member(o, "tags"@) == Some(JsonView::Array(tags, raw)),
        forall|i: int| 0 <= i < tags.len() ==> (#[trigger] tags[i]) is Text,
        member(o, "folder_path"@) is None || member(o, "folder_path"@) == Some(JsonView::Null)
            || member(o, "folder_path"@) == Some(JsonView::Text(folder)),
    ensures
        entry_in(o) matches Some(e) && {
            &&& e.title == title
            &&& member(o, "body"@) is Some ==> e.body == body
            &&& member(o, "body"@) is None ==> e.body.len() == 0
            &&& member(o, "tags"@) is Some ==> e.tags.len() == tags.len() && forall|i: int|
                0 <= i < tags.len() ==> JsonView::Text(#[trigger] e.tags[i]) == tags[i]
            &&& member(o, "tags"@) is None ==> e.tags.len() == 0
            &&& member(o, "folder_path"@) == Some(JsonView::Text(folder)) ==> e.folder_path == Some(
                folder,
            )
            &&& member(o, "folder_path"@) != Some(JsonView::Text(folder)) ==> e.folder_path is None
        },
{
}

/// An object without a title in text, or with a body, tags or a folder of another kind, is no
/// entry.
pub proof fn law_malformed_objects_are_no_entries(o: JsonView)
    requires
        ({
            ||| !(member(o, "title"@) matches Some(JsonView::Text(_)))
            ||| member(o, "body"@) matches Some(b) && !(b is Text)
            ||| member(o, "tags"@) matches Some(t) && !(t is Array)
            ||| member(o, "folder_path"@) matches Some(f) && !(f is Text) && !(f is Null)
        }),
    ensures
        entry_in(o) is None,
{
}

} // verus!
