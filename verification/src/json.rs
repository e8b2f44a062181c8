//! JSON documents, as the `serde_json` crate reads them.

use vstd::prelude::*;
use crate::text::same_text;

verus! {

/// A JSON value. A number is kept as it is written back out.
pub enum Json {
    Null,
    Bool(bool),
    Number(String),
    Text(String),
    Array(Vec<Json>),
    Object(Vec<Member>),
}

/// A member of an object.
pub struct Member {
    pub key: String,
    pub value: Json,
}

/// A JSON value, by what it says.
pub enum JsonView {
    Null,
    Bool(bool),
    Number(Seq<char>),
    Text(Seq<char>),
    Array(Seq<JsonView>),
    Object(Seq<(Seq<char>, JsonView)>),
}

/// What a JSON value says.
pub open spec fn json_view(value: Json) -> JsonView
    decreases value,
{
    match value {
        Json::Null => JsonView::Null,
        Json::Bool(b) => JsonView::Bool(b),
        Json::Number(n) => JsonView::Number(n@),
        Json::Text(s) => JsonView::Text(s@),
        Json::Array(items) => JsonView::Array(
            Seq::new(
                items@.len(),
                |i: int|
                    if 0 <= i < items@.len() {
                        json_view(items@[i])
                    } else {
                        JsonView::Null
                    },
            ),
        ),
        Json::Object(members) => JsonView::Object(
            Seq::new(
                members@.len(),
                |i: int|
                    if 0 <= i < members@.len() {
                        (members@[i].key@, json_view(members@[i].value))
                    } else {
                        (seq![], JsonView::Null)
                    },
            ),
        ),
    }
}

impl View for Json {
    type V = JsonView;

    open spec fn view(&self) -> JsonView {
        json_view(*self)
    }
}

impl DeepView for Json {
    type V = JsonView;

    open spec fn deep_view(&self) -> JsonView {
        json_view(*self)
    }
}

#[verifier::external_type_specification]
#[verifier::external_body]
pub struct ExValue(serde_json::Value);

/// What a value of the `serde_json` crate holds.
pub uninterp spec fn json_held(value: serde_json::Value) -> JsonView;

/// What a text is as a JSON document: nothing where it is none.
pub uninterp spec fn json_read(text: Seq<char>) -> Option<JsonView>;

/// `serde_json::from_str` into a `serde_json::Value`. Whether the text is a document, and what
/// the value then holds, is a function of the text alone, named `json_read`.
#[verifier::external_body]
fn read_value(text: &str) -> (r: Option<serde_json::Value>)
    ensures
        match r {
            Some(value) => json_read(text@) == Some(json_held(value)),
            None => json_read(text@) is None,
        },
{
    serde_json::from_str(text).ok()
}

/// The variants of `serde_json::Value`, one for one: what the value holds. The members of an
/// object come in the order in which its map is walked, and a number as `serde_json::Number`
/// displays it.
#[verifier::external_body]
fn json_of(value: &serde_json::Value) -> (r: Json)
    ensures
        r@ == json_held(*value),
{
    match value {
        serde_json::Value::Null => Json::Null,
        serde_json::Value::Bool(b) => Json::Bool(*b),
        serde_json::Value::Number(n) => Json::Number(n.to_string()),
        serde_json::Value::String(s) => Json::Text(s.clone()),
        serde_json::Value::Array(items) => Json::Array(items.iter().map(json_of).collect()),
        serde_json::Value::Object(map) => Json::Object(
            map.iter().map(|(k, v)| Member { key: k.clone(), value: json_of(v) }).collect(),
        ),
    }
}

/// Read a JSON document.
pub fn parse_json(text: &str) -> (r: Option<Json>)
    ensures
        r.deep_view() == json_read(text@),
{
    match read_value(text) {
        Some(value) => Some(json_of(&value)),
        None => None,
    }
}

/// The position of a key among the members, from `k` on.
pub open spec fn member_from(members: Seq<(Seq<char>, JsonView)>, key: Seq<char>, k: int) -> Option<
    int,
>
    decreases members.len() - k,
{
    if k >= members.len() {
        None
    } else if members[k].0 == key {
        Some(k)
    } else {
        member_from(members, key, k + 1)
    }
}

/// The first member of a key is found, and none only where no member has the key.
pub proof fn law_the_first_member_of_a_key_is_found(
    members: Seq<(Seq<char>, JsonView)>,
    key: Seq<char>,
    k: int,
)
    requires
        0 <= k <= members.len(),
    ensures
        match member_from(members, key, k) {
            Some(found) => k <= found < members.len() && members[found].0 == key && forall|i: int|
                k <= i < found ==> (#[trigger] members[i]).0 != key,
            None => forall|i: int| k <= i < members.len() ==> (#[trigger] members[i]).0 != key,
        },
    decreases members.len() - k,
{
    if k < members.len() && members[k].0 != key {
        law_the_first_member_of_a_key_is_found(members, key, k + 1);
    }
}

/// What stands under a key: nothing where the value is no object or has no such key.
pub open spec fn member(value: JsonView, key: Seq<char>) -> Option<JsonView> {
    match value {
        JsonView::Object(members) => match member_from(members, key, 0) {
            Some(k) => Some(members[k].1),
            None => None,
        },
        _ => None,
    }
}

/// What stands under a key.
pub fn member_of<'a>(value: &'a Json, key: &str) -> (r: Option<&'a Json>)
    ensures
        match r {
            Some(v) => member(value@, key@) == Some(v@),
            None => member(value@, key@) is None,
        },
{
    match value {
        Json::Object(members) => {
            let ghost said = value@->Object_0;
            let mut k: usize = 0;
            while k < members.len()
                invariant
                    k <= members.len(),
                    *value == Json::Object(*members),
                    value@ == JsonView::Object(said),
                    member_from(said, key@, 0) == member_from(said, key@, k as int),
                decreases members.len() - k,
            {
                assert(said[k as int] == (members@[k as int].key@, members@[k as int].value@));
                if same_text(members[k].key.as_str(), key) {
                    return Some(&members[k].value);
                }
                k += 1;
            }
            None
        },
        _ => None,
    }
}

} // verus!
