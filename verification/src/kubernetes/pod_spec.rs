//! JSON values as `serde_json` holds them, for the check of pod specs.

use vstd::prelude::*;

use crate::json::{self, Json, JsonView};

verus! {

#[verifier::external_type_specification]
#[verifier::external_body]
pub struct ExValue(serde_json::Value);

/// The JSON value that a `serde_json::Value` holds: its objects are maps, and a number
/// is the text that it is displayed as.
pub uninterp spec fn value_spec(v: serde_json::Value) -> JsonView;

/// The JSON value that `serde_json::from_str` reads in a text; null where it can read
/// none.
pub uninterp spec fn read_spec(text: Seq<char>) -> JsonView;

/// What `serde_json::from_value` says is wrong with a JSON value as a
/// `k8s_openapi` pod spec; nothing where it is one.
pub uninterp spec fn pod_spec_error_spec(pod: JsonView) -> Option<Seq<char>>;

/// `serde_json::Value::Null`.
#[verifier::external_body]
fn null_value() -> (r: serde_json::Value)
    ensures
        value_spec(r) == JsonView::Null,
{
    serde_json::Value::Null
}

/// `serde_json::Value::Bool` of a flag.
#[verifier::external_body]
fn bool_value(b: bool) -> (r: serde_json::Value)
    ensures
        value_spec(r) == JsonView::Bool(b),
{
    serde_json::Value::Bool(b)
}

/// `serde_json::Value::String` of a text.
#[verifier::external_body]
fn text_value(t: &str) -> (r: serde_json::Value)
    ensures
        value_spec(r) == JsonView::Text(t@),
{
    serde_json::Value::String(t.to_string())
}

/// `serde_json::from_str` on a text, with null where it fails. What it reads depends on
/// the text alone.
#[verifier::external_body]
fn read_value(t: &str) -> (r: serde_json::Value)
    ensures
        value_spec(r) == read_spec(t@),
{
    serde_json::from_str(t).unwrap_or_default()
}

/// `serde_json::Value::Array` of values, in their order.
#[verifier::external_body]
fn array_value(items: Vec<serde_json::Value>) -> (r: serde_json::Value)
    ensures
        value_spec(r) == JsonView::Array(items@.map_values(|v: serde_json::Value| value_spec(v))),
{
    serde_json::Value::Array(items)
}

/// The map that entries make up: the last entry under a key counts.
pub open spec fn entries_spec(entries: Seq<(String, serde_json::Value)>) -> Map<Seq<char>, JsonView>
    decreases entries.len(),
{
    if entries.len() == 0 {
        Map::empty()
    } else {
        entries_spec(entries.drop_last()).insert(entries.last().0@, value_spec(entries.last().1))
    }
}

/// `serde_json::Value::Object` of the `serde_json::Map` that entries are collected into:
/// they are inserted one after the other, and the last one under a key counts.
#[verifier::external_body]
fn object_value(entries: Vec<(String, serde_json::Value)>) -> (r: serde_json::Value)
    ensures
        value_spec(r) == JsonView::Object(entries_spec(entries@)),
{
    serde_json::Value::Object(entries.into_iter().collect())
}

/// A JSON value with its numbers as `serde_json` reads them.
pub open spec fn as_read(j: JsonView) -> JsonView
    decreases j,
{
    match j {
        JsonView::Number(t) => read_spec(t),
        JsonView::Array(items) => JsonView::Array(
            Seq::new(
                items.len(),
                |i: int|
                    if 0 <= i < items.len() {
                        as_read(items[i])
                    } else {
                        JsonView::Null
                    },
            ),
        ),
        JsonView::Object(m) => JsonView::Object(
            Map::new(
                |k: Seq<char>| m.dom().contains(k),
                |k: Seq<char>|
                    if m.dom().contains(k) {
                        as_read(m[k])
                    } else {
                        JsonView::Null
                    },
            ),
        ),
        _ => j,
    }
}

fn to_value(j: &Json) -> (r: serde_json::Value)
    ensures
        value_spec(r) == as_read(j.deep_view()),
    decreases j,
{
    match j {
        Json::Null => null_value(),
        Json::Bool(b) => bool_value(*b),
        Json::Number(n) => read_value(n.as_str()),
        Json::Text(t) => text_value(t.as_str()),
        Json::Array(items) => {
            let ghost f = |v: serde_json::Value| value_spec(v);
            let mut values: Vec<serde_json::Value> = Vec::new();
            for i in 0..items.len()
                invariant
                    decreases_to!(j => items@),
                    values@.len() == i,
                    forall|k: int|
                        0 <= k < i ==> value_spec(#[trigger] values@[k]) == as_read(
                            json::json_view(items@[k]),
                        ),
            {
                assert(decreases_to!(j => items@[i as int]));
                values.push(to_value(&items[i]));
            }
            proof {
                json::lemma_array_view(items@);
                let views = json::array_view(items@);
                assert(as_read(j.deep_view()) == as_read(JsonView::Array(views)));
                assert(as_read(JsonView::Array(views)) == JsonView::Array(
                    values@.map_values(f),
                )) by {
                    assert(as_read(JsonView::Array(views)) matches JsonView::Array(read) && read
                        =~= values@.map_values(f));
                }
            }
            array_value(values)
        },
        Json::Object(entries) => {
            let mut values: Vec<(String, serde_json::Value)> = Vec::new();
            assert(as_read(JsonView::Object(json::object_view(entries@.take(0)))) matches JsonView::Object(
                m,
            ) && m =~= entries_spec(values@));
            for i in 0..entries.len()
                invariant
                    decreases_to!(j => entries@),
                    JsonView::Object(entries_spec(values@)) == as_read(
                        JsonView::Object(json::object_view(entries@.take(i as int))),
                    ),
            {
                let ghost before = values@;
                let ghost shorter = entries@.take(i as int);
                let ghost longer = entries@.take(i + 1);
                assert(decreases_to!(j => entries@[i as int].1));
                let value = to_value(&entries[i].1);
                let pair = (entries[i].0.clone(), value);
                values.push(pair);
                proof {
                    assert(longer.drop_last() =~= shorter);
                    assert(longer.last() == entries@[i as int]);
                    assert(values@.drop_last() =~= before);
                    assert(values@.last() == pair);
                    assert(as_read(JsonView::Object(json::object_view(longer))) matches JsonView::Object(
                        m,
                    ) && m =~= entries_spec(values@));
                }
            }
            assert(entries@.take(entries@.len() as int) =~= entries@);
            object_value(values)
        },
    }
}

/// `serde_json::from_value` into a `k8s_openapi` pod spec: the message of its
/// error, where it fails, depends on the JSON value alone.
#[verifier::external_body]
fn value_error(pod: serde_json::Value) -> (r: Option<String>)
    ensures
        r.deep_view() == pod_spec_error_spec(value_spec(pod)),
{
    serde_json::from_value::<k8s_openapi::api::core::v1::PodSpec>(pod).err().map(|e| e.to_string())
}

/// What is wrong with a JSON value as a pod spec.
pub fn pod_spec_error(pod: &Json) -> (r: Option<String>)
    ensures
        r.deep_view() == pod_spec_error_spec(as_read(pod.deep_view())),
{
    value_error(to_value(pod))
}

/// Only the numbers of a value are read anew: lists keep their items and objects their members,
/// each in its place, and everything else is as it was.
pub proof fn law_only_numbers_are_read(j: JsonView, key: Seq<char>, i: int)
    ensures
        j is Null || j is Bool || j is Text ==> as_read(j) == j,
        j matches JsonView::Number(t) ==> as_read(j) == read_spec(t),
        j matches JsonView::Array(items) ==> (as_read(j) matches JsonView::Array(read)
            && read.len() == items.len() && (0 <= i < items.len() ==> read[i] == as_read(
            items[i],
        ))),
        j matches JsonView::Object(members) ==> (as_read(j) matches JsonView::Object(read)
            && read.dom() == members.dom() && (members.dom().contains(key) ==> read[key] == as_read(
            members[key],
        ))),
{
    if let JsonView::Object(members) = j {
        let read = as_read(j)->Object_0;
        assert(read.dom() =~= members.dom());
    }
}

} // verus!
