//! JSON values as the library builds and reads them: Discord message
//! payloads and API answers. `JsonView` is the mathematical value; object
//! lookups follow `serde_json` (the first entry under a key).

use vstd::prelude::*;
use crate::text::{int_dec, owned, str_eq, u64_to_string};

verus! {

/// A JSON value. A number keeps its text; an object keeps its entries in the
/// order given (a parsed document has each key once).
pub enum JsonNode {
    Null,
    Bool(bool),
    Number(String),
    Str(String),
    Array(Vec<JsonNode>),
    Object(Vec<(String, JsonNode)>),
}

/// `i` is the first entry of `entries` with key `key`.
pub open spec fn first_key(entries: Seq<(String, JsonNode)>, key: Seq<char>, i: int) -> bool {
    &&& 0 <= i < entries.len()
    &&& entries[i].0@ == key
    &&& forall|j: int| 0 <= j < i ==> entries[j].0@ != key
}

/// `value.get(key)`: the entry of an object under `key`; `None` for a missing
/// key and for every value that is no object.
pub open spec fn get_spec(value: JsonNode, key: Seq<char>) -> Option<JsonNode> {
    match value {
        JsonNode::Object(entries) => if exists|i: int| first_key(entries@, key, i) {
            Some(entries@[choose|i: int| first_key(entries@, key, i)].1)
        } else {
            None
        },
        _ => None,
    }
}

/// `value.get(key).and_then(Value::as_str)`.
pub open spec fn get_str_spec(value: JsonNode, key: Seq<char>) -> Option<Seq<char>> {
    match get_spec(value, key) {
        Some(JsonNode::Str(s)) => Some(s@),
        _ => None,
    }
}

/// `value.get(key).and_then(Value::as_array)`, as the sequence of items.
pub open spec fn get_array_spec(value: JsonNode, key: Seq<char>) -> Option<Seq<JsonNode>> {
    match get_spec(value, key) {
        Some(JsonNode::Array(items)) => Some(items@),
        _ => None,
    }
}

pub proof fn lemma_first_key_unique(entries: Seq<(String, JsonNode)>, key: Seq<char>, i: int, j: int)
    requires
        first_key(entries, key, i),
        first_key(entries, key, j),
    ensures
        i == j,
{
    if i < j {
        assert(entries[i].0@ != key);
    } else if j < i {
        assert(entries[j].0@ != key);
    }
}

/// Position of the first entry with key `key`.
pub fn key_index(entries: &Vec<(String, JsonNode)>, key: &str) -> (r: Option<usize>)
    ensures
        match r {
            Some(i) => first_key(entries@, key@, i as int),
            None => forall|i: int| !first_key(entries@, key@, i),
        },
{
    let mut j: usize = 0;
    while j < entries.len()
        invariant
            j <= entries.len(),
            forall|k: int| 0 <= k < j ==> entries@[k].0@ != key@,
        decreases entries.len() - j,
    {
        if str_eq(entries[j].0.as_str(), key) {
            return Some(j);
        }
        j += 1;
    }
    None
}

/// `value.get(key)`.
pub fn get_entry<'a>(value: &'a JsonNode, key: &str) -> (r: Option<&'a JsonNode>)
    ensures
        match r {
            Some(v) => get_spec(*value, key@) == Some(*v),
            None => get_spec(*value, key@) is None,
        },
{
    match value {
        JsonNode::Object(entries) => match key_index(entries, key) {
            Some(i) => {
                proof {
                    let w = choose|k: int| first_key(entries@, key@, k);
                    lemma_first_key_unique(entries@, key@, i as int, w);
                }
                Some(&entries[i].1)
            },
            None => None,
        },
        _ => None,
    }
}

/// `value.get(key).and_then(Value::as_str)`.
pub fn get_str<'a>(value: &'a JsonNode, key: &str) -> (r: Option<&'a String>)
    ensures
        match r {
            Some(s) => get_str_spec(*value, key@) == Some(s@),
            None => get_str_spec(*value, key@) is None,
        },
{
    match get_entry(value, key) {
        Some(JsonNode::Str(s)) => Some(s),
        _ => None,
    }
}

/// `value.get(key).and_then(Value::as_array)`.
pub fn get_array<'a>(value: &'a JsonNode, key: &str) -> (r: Option<&'a Vec<JsonNode>>)
    ensures
        match r {
            Some(items) => get_array_spec(*value, key@) == Some(items@),
            None => get_array_spec(*value, key@) is None,
        },
{
    match get_entry(value, key) {
        Some(JsonNode::Array(items)) => Some(items),
        _ => None,
    }
}

/// The mathematical value of a `JsonNode`.
pub enum JsonView {
    Null,
    Bool(bool),
    Number(Seq<char>),
    Str(Seq<char>),
    Array(Seq<JsonView>),
    Object(Seq<(Seq<char>, JsonView)>),
}

pub open spec fn node_view(value: JsonNode) -> JsonView
    decreases value,
{
    match value {
        JsonNode::Null => JsonView::Null,
        JsonNode::Bool(b) => JsonView::Bool(b),
        JsonNode::Number(t) => JsonView::Number(t@),
        JsonNode::Str(s) => JsonView::Str(s@),
        JsonNode::Array(items) => JsonView::Array(items_view(items@)),
        JsonNode::Object(entries) => JsonView::Object(entries_view(entries@)),
    }
}

pub open spec fn items_view(items: Seq<JsonNode>) -> Seq<JsonView>
    decreases items,
{
    if items.len() == 0 {
        Seq::empty()
    } else {
        items_view(items.subrange(0, items.len() - 1)).push(node_view(items[items.len() - 1]))
    }
}

pub open spec fn entries_view(entries: Seq<(String, JsonNode)>) -> Seq<(Seq<char>, JsonView)>
    decreases entries,
{
    if entries.len() == 0 {
        Seq::empty()
    } else {
        let last = entries[entries.len() - 1];
        entries_view(entries.subrange(0, entries.len() - 1)).push((last.0@, node_view(last.1)))
    }
}

impl View for JsonNode {
    type V = JsonView;

    open spec fn view(&self) -> JsonView {
        node_view(*self)
    }
}

/// The view of a sequence of values is the sequence of their views.
pub proof fn lemma_items_view(items: Seq<JsonNode>)
    ensures
        items_view(items).len() == items.len(),
        forall|i: int| 0 <= i < items.len() ==> #[trigger] items_view(items)[i] == node_view(items[i]),
    decreases items.len(),
{
    if items.len() > 0 {
        let pre = items.subrange(0, items.len() - 1);
        lemma_items_view(pre);
        assert forall|i: int| 0 <= i < items.len() implies #[trigger] items_view(items)[i] == node_view(
            items[i],
        ) by {
            if i < items.len() - 1 {
                assert(pre[i] == items[i]);
            }
        }
    }
}

/// The view of object entries is the sequence of their keys and value views.
pub proof fn lemma_entries_view(entries: Seq<(String, JsonNode)>)
    ensures
        entries_view(entries).len() == entries.len(),
        forall|i: int|
            0 <= i < entries.len() ==> #[trigger] entries_view(entries)[i] == (
                entries[i].0@,
                node_view(entries[i].1),
            ),
    decreases entries.len(),
{
    if entries.len() > 0 {
        let pre = entries.subrange(0, entries.len() - 1);
        lemma_entries_view(pre);
        assert forall|i: int| 0 <= i < entries.len() implies #[trigger] entries_view(entries)[i] == (
            entries[i].0@,
            node_view(entries[i].1),
        ) by {
            if i < entries.len() - 1 {
                assert(pre[i] == entries[i]);
            }
        }
    }
}

/// A JSON string.
pub fn jstr(s: &str) -> (r: JsonNode)
    ensures
        r@ == JsonView::Str(s@),
{
    JsonNode::Str(owned(s))
}

/// A JSON string holding `s`.
pub fn jstring(s: String) -> (r: JsonNode)
    ensures
        r@ == JsonView::Str(s@),
{
    JsonNode::Str(s)
}

/// A JSON number written in decimal.
pub fn jnum(n: u64) -> (r: JsonNode)
    ensures
        r@ == JsonView::Number(int_dec(n as int)),
{
    JsonNode::Number(u64_to_string(n))
}

/// A JSON array of the given values.
pub fn jarr(items: Vec<JsonNode>) -> (r: JsonNode)
    ensures
        r@ == JsonView::Array(Seq::new(items@.len(), |i: int| items@[i]@)),
{
    proof {
        lemma_items_view(items@);
        assert(items_view(items@) =~= Seq::new(items@.len(), |i: int| items@[i]@));
    }
    JsonNode::Array(items)
}

/// A JSON object with the given entries, in order.
pub fn jobj(entries: Vec<(String, JsonNode)>) -> (r: JsonNode)
    ensures
        r@ == JsonView::Object(Seq::new(entries@.len(), |i: int| (entries@[i].0@, entries@[i].1@))),
{
    proof {
        lemma_entries_view(entries@);
        assert(entries_view(entries@) =~= Seq::new(
            entries@.len(),
            |i: int| (entries@[i].0@, entries@[i].1@),
        ));
    }
    JsonNode::Object(entries)
}

/// A JSON number with the decimal value `n`.
pub open spec fn num_view(n: int) -> JsonView {
    JsonView::Number(int_dec(n))
}

/// An object entry.
pub fn entry(key: &str, value: JsonNode) -> (r: (String, JsonNode))
    ensures
        r.0@ == key@,
        r.1 == value,
{
    (owned(key), value)
}

} // verus!
