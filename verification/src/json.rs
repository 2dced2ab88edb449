//! JSON values as plain data.
use crate::text::same_text;
use vstd::prelude::*;

pub mod keys;

verus! {

use crate::text::views;

/// A JSON value. A number, an array and an object carry their compact JSON text;
/// a number that is an integer carries its value too.
#[derive(Debug)]
pub enum Json {
    Null,
    Bool(bool),
    Number(String, Option<i128>),
    Text(String),
    Array(Vec<Json>, String),
    Object(Vec<(String, Json)>, String),
}

/// What a JSON value holds.
pub enum JsonView {
    Null,
    Bool(bool),
    Number(Seq<char>, Option<i128>),
    Text(Seq<char>),
    Array(Seq<JsonView>, Seq<char>),
    Object(Seq<(Seq<char>, JsonView)>, Seq<char>),
}

/// What a JSON value holds.
pub open spec fn json_view(j: Json) -> JsonView
    decreases j,
{
    match j {
        Json::Null => JsonView::Null,
        Json::Bool(b) => JsonView::Bool(b),
        Json::Number(t, n) => JsonView::Number(t@, n),
        Json::Text(t) => JsonView::Text(t@),
        Json::Array(l, t) => JsonView::Array(json_views(l@), t@),
        Json::Object(l, t) => JsonView::Object(member_views(l@), t@),
    }
}

/// What the elements of an array hold.
pub open spec fn json_views(l: Seq<Json>) -> Seq<JsonView>
    decreases l,
{
    if l.len() == 0 {
        Seq::empty()
    } else {
        json_views(l.drop_last()).push(json_view(l.last()))
    }
}

/// What the members of an object hold.
pub open spec fn member_views(l: Seq<(String, Json)>) -> Seq<(Seq<char>, JsonView)>
    decreases l,
{
    if l.len() == 0 {
        Seq::empty()
    } else {
        member_views(l.drop_last()).push((l.last().0@, json_view(l.last().1)))
    }
}

impl View for Json {
    type V = JsonView;

    open spec fn view(&self) -> JsonView {
        json_view(*self)
    }
}

pub proof fn lemma_member_views(l: Seq<(String, Json)>)
    ensures
        member_views(l).len() == l.len(),
        forall|i: int|
            0 <= i < l.len() ==> #[trigger] member_views(l)[i] == (l[i].0@, json_view(l[i].1)),
    decreases l.len(),
{
    if l.len() > 0 {
        lemma_member_views(l.drop_last());
        assert forall|i: int| 0 <= i < l.len() implies #[trigger] member_views(l)[i] == (
            l[i].0@,
            json_view(l[i].1),
        ) by {
            if i < l.len() - 1 {
                assert(member_views(l.drop_last())[i] == (l.drop_last()[i].0@, json_view(
                    l.drop_last()[i].1,
                )));
            }
        }
    }
}

pub proof fn lemma_json_views(l: Seq<Json>)
    ensures
        json_views(l).len() == l.len(),
        forall|i: int| 0 <= i < l.len() ==> #[trigger] json_views(l)[i] == json_view(l[i]),
    decreases l.len(),
{
    if l.len() > 0 {
        lemma_json_views(l.drop_last());
        assert forall|i: int| 0 <= i < l.len() implies #[trigger] json_views(l)[i] == json_view(
            l[i],
        ) by {
            if i < l.len() - 1 {
                assert(json_views(l.drop_last())[i] == json_view(l.drop_last()[i]));
            }
        }
    }
}

/// The first member from `i` on with this key.
pub open spec fn member_from(l: Seq<(Seq<char>, JsonView)>, key: Seq<char>, i: int) -> Option<
    JsonView,
>
    decreases l.len() - i,
{
    if i < 0 || i >= l.len() {
        None
    } else if l[i].0 == key {
        Some(l[i].1)
    } else {
        member_from(l, key, i + 1)
    }
}

/// The member of an object with this key.
pub open spec fn member(j: JsonView, key: Seq<char>) -> Option<JsonView> {
    match j {
        JsonView::Object(l, _) => member_from(l, key, 0),
        _ => None,
    }
}

/// The text of a JSON string.
pub open spec fn text_of(j: Option<JsonView>) -> Option<Seq<char>> {
    match j {
        Some(JsonView::Text(t)) => Some(t),
        _ => None,
    }
}

/// The value of a JSON number that fits a signed 64-bit integer.
pub open spec fn int_of(j: Option<JsonView>) -> Option<int> {
    match j {
        Some(JsonView::Number(_, Some(n))) => if i64::MIN <= n <= i64::MAX {
            Some(n as int)
        } else {
            None
        },
        _ => None,
    }
}

/// The value of a JSON boolean.
pub open spec fn bool_of(j: Option<JsonView>) -> Option<bool> {
    match j {
        Some(JsonView::Bool(b)) => Some(b),
        _ => None,
    }
}

/// The optional value as it holds.
pub open spec fn opt_json(j: Option<&Json>) -> Option<JsonView> {
    match j {
        Some(v) => Some(v@),
        None => None,
    }
}

/// The member of an object with this key.
pub fn get<'a>(j: &'a Json, key: &str) -> (r: Option<&'a Json>)
    ensures
        opt_json(r) == member(j@, key@),
{
    match j {
        Json::Object(l, _) => {
            let n: usize = l.len();
            proof {
                lemma_member_views(l@);
            }
            for i in 0..n
                invariant
                    n == l@.len(),
                    member_views(l@).len() == l@.len(),
                    forall|k: int|
                        0 <= k < l@.len() ==> #[trigger] member_views(l@)[k] == (
                            l@[k].0@,
                            json_view(l@[k].1),
                        ),
                    member_from(member_views(l@), key@, 0) == member_from(
                        member_views(l@),
                        key@,
                        i as int,
                    ),
                    member(j@, key@) == member_from(member_views(l@), key@, 0),
            {
                if same_text(l[i].0.as_str(), key) {
                    return Some(&l[i].1);
                }
            }
            None
        },
        _ => None,
    }
}

/// The text of a JSON string.
pub fn as_text<'a>(j: Option<&'a Json>) -> (r: Option<&'a str>)
    ensures
        crate::text::opt_str_view(r) == text_of(opt_json(j)),
{
    match j {
        Some(v) => match v {
            Json::Text(t) => Some(t.as_str()),
            _ => None,
        },
        None => None,
    }
}

/// The value of a JSON number that fits a signed 64-bit integer.
pub fn as_int(j: Option<&Json>) -> (r: Option<i64>)
    ensures
        int_of(opt_json(j)) == (match r {
            Some(n) => Some(n as int),
            None => None,
        }),
{
    match j {
        Some(v) => match v {
            Json::Number(_, n) => match n {
                Some(k) => {
                    if *k >= -9223372036854775808 && *k <= 9223372036854775807 {
                        Some(*k as i64)
                    } else {
                        None
                    }
                },
                None => None,
            },
            _ => None,
        },
        None => None,
    }
}

/// The value of a JSON boolean.
pub fn as_bool(j: Option<&Json>) -> (r: Option<bool>)
    ensures
        r == bool_of(opt_json(j)),
{
    match j {
        Some(v) => match v {
            Json::Bool(b) => Some(*b),
            _ => None,
        },
        None => None,
    }
}

/// A value as it reads to people: strings without quotes, the rest as JSON.
pub open spec fn plain_text(j: JsonView) -> Seq<char> {
    match j {
        JsonView::Text(t) => t,
        JsonView::Bool(b) => if b {
            "true"@
        } else {
            "false"@
        },
        JsonView::Number(t, _) => t,
        JsonView::Null => "null"@,
        JsonView::Array(_, t) => t,
        JsonView::Object(_, t) => t,
    }
}

/// A value as it reads to people.
pub fn value_to_string(v: &Json) -> (r: String)
    ensures
        r@ == plain_text(v@),
{
    match v {
        Json::Text(t) => crate::text::copy_text(t.as_str()),
        Json::Bool(b) => if *b {
            "true".to_owned()
        } else {
            "false".to_owned()
        },
        Json::Number(t, _) => crate::text::copy_text(t.as_str()),
        Json::Null => "null".to_owned(),
        Json::Array(_, t) => crate::text::copy_text(t.as_str()),
        Json::Object(_, t) => crate::text::copy_text(t.as_str()),
    }
}

#[verifier::external_type_specification]
#[verifier::external_body]
pub struct ExJsonValue(serde_json::Value);

/// Turns a `serde_json::Value` into a `Json`, variant by variant. Nothing is
/// claimed of the result here; what a text is read as is named below.
#[verifier::external_body]
fn json_from_value(v: &serde_json::Value) -> Json {
    match v {
        serde_json::Value::Null => Json::Null,
        serde_json::Value::Bool(b) => Json::Bool(*b),
        serde_json::Value::Number(n) => Json::Number(
            n.to_string(),
            n.as_i64().map(i128::from).or(n.as_u64().map(i128::from)),
        ),
        serde_json::Value::String(s) => Json::Text(s.clone()),
        serde_json::Value::Array(l) => Json::Array(l.iter().map(json_from_value).collect(), v.to_string()),
        serde_json::Value::Object(m) => {
            Json::Object(m.iter().map(|(k, x)| (k.clone(), json_from_value(x))).collect(), v.to_string())
        }
    }
}

/// What a text is as JSON; none where it is not JSON.
pub uninterp spec fn json_of_text(text: Seq<char>) -> Option<JsonView>;

/// `serde_json::from_str` into a value: its result is named, not described.
#[verifier::external_body]
pub(crate) fn parse_json(text: &str) -> (r: Option<Json>)
    ensures
        json_of_text(text@) == (match r {
            Some(j) => Some(j@),
            None => None,
        }),
{
    serde_json::from_str::<serde_json::Value>(text).ok().map(|v| json_from_value(&v))
}

/// The texts of the elements of a JSON array, as they stand in it; none where a text is no
/// array.
pub uninterp spec fn json_elements(text: Seq<char>) -> Option<Seq<Seq<char>>>;

/// `serde_json::from_str` into a list of raw values: its result is named, not described.
#[verifier::external_body]
pub(crate) fn read_elements(text: &str) -> (r: Option<Vec<String>>)
    ensures
        json_elements(text@) == (match r {
            Some(l) => Some(views(l@)),
            None => None,
        }),
{
    let l = serde_json::from_str::<Vec<Box<serde_json::value::RawValue>>>(text).ok()?;
    Some(l.iter().map(|v| v.get().to_string()).collect())
}

/// The texts of a JSON array of strings; none where a text is not one.
pub uninterp spec fn texts_of_json(text: Seq<char>) -> Option<Seq<Seq<char>>>;

/// `serde_json::from_str` into a list of strings: its result is named, not described.
#[verifier::external_body]
pub(crate) fn read_texts(text: &str) -> (r: Option<Vec<String>>)
    ensures
        texts_of_json(text@) == (match r {
            Some(l) => Some(views(l@)),
            None => None,
        }),
{
    serde_json::from_str::<Vec<String>>(text).ok()
}

/// The numbers of a JSON array of indices; none where a text is not one.
pub uninterp spec fn numbers_of_json(text: Seq<char>) -> Option<Seq<usize>>;

/// `serde_json::from_str` into a list of indices: its result is named, not described.
#[verifier::external_body]
pub(crate) fn read_numbers(text: &str) -> (r: Option<Vec<usize>>)
    ensures
        numbers_of_json(text@) == (match r {
            Some(l) => Some(l@),
            None => None,
        }),
{
    serde_json::from_str::<Vec<usize>>(text).ok()
}

/// A member is found by its key, the first where there are several, and none in what is no
/// object.
pub proof fn law_members_are_found_by_key(
    l: Seq<(Seq<char>, JsonView)>,
    text: Seq<char>,
    key: Seq<char>,
    i: int,
)
    requires
        0 <= i <= l.len(),
        forall|j: int| 0 <= j < i ==> (#[trigger] l[j]).0 != key,
        i < l.len() ==> l[i].0 == key,
    ensures
        i < l.len() ==> member(JsonView::Object(l, text), key) == Some(l[i].1),
        i == l.len() ==> member(JsonView::Object(l, text), key) is None,
        member(JsonView::Text(text), key) is None,
        member(JsonView::Null, key) is None,
{
    lemma_member_found(l, key, 0, i);
}

proof fn lemma_member_found(l: Seq<(Seq<char>, JsonView)>, key: Seq<char>, from: int, i: int)
    requires
        0 <= from <= i <= l.len(),
        forall|j: int| from <= j < i ==> (#[trigger] l[j]).0 != key,
        i < l.len() ==> l[i].0 == key,
    ensures
        member_from(l, key, from) == (if i < l.len() {
            Some(l[i].1)
        } else {
            None
        }),
    decreases i - from,
{
    if from < i {
        assert(l[from].0 != key);
        lemma_member_found(l, key, from + 1, i);
    }
}

/// A value is read as what it is, and as nothing else.
pub proof fn law_values_are_read_as_they_are(t: Seq<char>, b: bool, n: i64)
    ensures
        text_of(Some(JsonView::Text(t))) == Some(t),
        text_of(Some(JsonView::Bool(b))) is None,
        text_of(Some(JsonView::Number(t, Some(n as i128)))) is None,
        text_of(None) is None,
        bool_of(Some(JsonView::Bool(b))) == Some(b),
        bool_of(Some(JsonView::Text(t))) is None,
        bool_of(None) is None,
        int_of(Some(JsonView::Number(t, Some(n as i128)))) == Some(n as int),
        int_of(Some(JsonView::Number(t, None))) is None,
        int_of(Some(JsonView::Text(t))) is None,
        int_of(None) is None,
        plain_text(JsonView::Text(t)) == t,
        plain_text(JsonView::Number(t, Some(n as i128))) == t,
        plain_text(JsonView::Bool(true)) == "true"@,
        plain_text(JsonView::Bool(false)) == "false"@,
        plain_text(JsonView::Null) == "null"@,
{
}

} // verus!
