//! TOML documents, as the `toml` crate reads them.

use vstd::prelude::*;
use crate::text::same_text;

verus! {

/// A TOML value. Floats and points in time are kept as they are written back out.
pub enum Toml {
    Text(String),
    Integer(i64),
    Float(String),
    Bool(bool),
    Datetime(String),
    Array(Vec<Toml>),
    Table(Vec<Entry>),
}

/// An entry of a table.
pub struct Entry {
    pub key: String,
    pub value: Toml,
}

/// A TOML value, by what it says.
pub enum TomlView {
    Text(Seq<char>),
    Integer(i64),
    Float(Seq<char>),
    Bool(bool),
    Datetime(Seq<char>),
    Array(Seq<TomlView>),
    Table(Seq<(Seq<char>, TomlView)>),
}

/// What a TOML value says.
pub open spec fn toml_view(value: Toml) -> TomlView
    decreases value,
{
    match value {
        Toml::Text(s) => TomlView::Text(s@),
        Toml::Integer(n) => TomlView::Integer(n),
        Toml::Float(x) => TomlView::Float(x@),
        Toml::Bool(b) => TomlView::Bool(b),
        Toml::Datetime(t) => TomlView::Datetime(t@),
        Toml::Array(items) => TomlView::Array(
            Seq::new(
                items@.len(),
                |i: int|
                    if 0 <= i < items@.len() {
                        toml_view(items@[i])
                    } else {
                        TomlView::Bool(false)
                    },
            ),
        ),
        Toml::Table(entries) => TomlView::Table(
            Seq::new(
                entries@.len(),
                |i: int|
                    if 0 <= i < entries@.len() {
                        (entries@[i].key@, toml_view(entries@[i].value))
                    } else {
                        (seq![], TomlView::Bool(false))
                    },
            ),
        ),
    }
}

impl View for Toml {
    type V = TomlView;

    open spec fn view(&self) -> TomlView {
        toml_view(*self)
    }
}

impl DeepView for Toml {
    type V = TomlView;

    open spec fn deep_view(&self) -> TomlView {
        toml_view(*self)
    }
}

#[verifier::external_type_specification]
#[verifier::external_body]
pub struct ExTomlValue(toml::Value);

/// What a value of the `toml` crate holds.
pub uninterp spec fn toml_held(value: toml::Value) -> TomlView;

/// What a text is as a TOML document: nothing where it is none.
pub uninterp spec fn toml_read(text: Seq<char>) -> Option<TomlView>;

/// `toml::from_str` into a `toml::Value`. Whether the text is a document, and what the value
/// then holds, is a function of the text alone, named `toml_read`.
#[verifier::external_body]
fn read_value(text: &str) -> (r: Option<toml::Value>)
    ensures
        match r {
            Some(value) => toml_read(text@) == Some(toml_held(value)),
            None => toml_read(text@) is None,
        },
{
    toml::from_str(text).ok()
}

/// The variants of `toml::Value`, one for one: what the value holds. The entries of a table come
/// in the order in which its map is walked, and floats and points in time as they display.
#[verifier::external_body]
fn toml_of(value: &toml::Value) -> (r: Toml)
    ensures
        r@ == toml_held(*value),
{
    match value {
        toml::Value::String(s) => Toml::Text(s.clone()),
        toml::Value::Integer(n) => Toml::Integer(*n),
        toml::Value::Float(x) => Toml::Float(x.to_string()),
        toml::Value::Boolean(b) => Toml::Bool(*b),
        toml::Value::Datetime(t) => Toml::Datetime(t.to_string()),
        toml::Value::Array(items) => Toml::Array(items.iter().map(toml_of).collect()),
        toml::Value::Table(map) => Toml::Table(
            map.iter().map(|(k, v)| Entry { key: k.clone(), value: toml_of(v) }).collect(),
        ),
    }
}

/// Read a TOML document.
pub fn parse_toml(text: &str) -> (r: Option<Toml>)
    ensures
        r.deep_view() == toml_read(text@),
{
    match read_value(text) {
        Some(value) => Some(toml_of(&value)),
        None => None,
    }
}

/// The position of a key among the entries, from `k` on.
pub open spec fn entry_from(entries: Seq<(Seq<char>, TomlView)>, key: Seq<char>, k: int) -> Option<
    int,
>
    decreases entries.len() - k,
{
    if k >= entries.len() {
        None
    } else if entries[k].0 == key {
        Some(k)
    } else {
        entry_from(entries, key, k + 1)
    }
}

/// The first entry of a key is found, and none only where no entry has the key.
pub proof fn law_the_first_entry_of_a_key_is_found(
    entries: Seq<(Seq<char>, TomlView)>,
    key: Seq<char>,
    k: int,
)
    requires
        0 <= k <= entries.len(),
    ensures
        match entry_from(entries, key, k) {
            Some(found) => k <= found < entries.len() && entries[found].0 == key && forall|i: int|
                k <= i < found ==> (#[trigger] entries[i]).0 != key,
            None => forall|i: int| k <= i < entries.len() ==> (#[trigger] entries[i]).0 != key,
        },
    decreases entries.len() - k,
{
    if k < entries.len() && entries[k].0 != key {
        law_the_first_entry_of_a_key_is_found(entries, key, k + 1);
    }
}

/// What stands under a key: nothing where the value is no table or has no such key.
pub open spec fn entry(value: TomlView, key: Seq<char>) -> Option<TomlView> {
    match value {
        TomlView::Table(entries) => match entry_from(entries, key, 0) {
            Some(k) => Some(entries[k].1),
            None => None,
        },
        _ => None,
    }
}

/// What stands under a key.
pub fn entry_of<'a>(value: &'a Toml, key: &str) -> (r: Option<&'a Toml>)
    ensures
        match r {
            Some(v) => entry(value@, key@) == Some(v@),
            None => entry(value@, key@) is None,
        },
{
    match value {
        Toml::Table(entries) => {
            let ghost said = value@->Table_0;
            let mut k: usize = 0;
            while k < entries.len()
                invariant
                    k <= entries.len(),
                    *value == Toml::Table(*entries),
                    value@ == TomlView::Table(said),
                    entry_from(said, key@, 0) == entry_from(said, key@, k as int),
                decreases entries.len() - k,
            {
                assert(said[k as int] == (entries@[k as int].key@, entries@[k as int].value@));
                if same_text(entries[k].key.as_str(), key) {
                    return Some(&entries[k].value);
                }
                k += 1;
            }
            None
        },
        _ => None,
    }
}

} // verus!
