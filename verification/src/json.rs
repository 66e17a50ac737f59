//! JSON values: the type that pod specs, requests and replies are written in.

use vstd::prelude::*;

use crate::decimal;
use crate::text;

verus! {

/// A JSON value. A number is kept as its text. Where an object repeats a key,
/// its last entry counts.
#[derive(Debug)]
pub enum Json {
    Null,
    Bool(bool),
    Number(String),
    Text(String),
    Array(Vec<Json>),
    Object(Vec<(String, Json)>),
}

/// What a JSON value is: objects are maps.
#[verifier::ext_equal]
pub enum JsonView {
    Null,
    Bool(bool),
    Number(Seq<char>),
    Text(Seq<char>),
    Array(Seq<JsonView>),
    Object(Map<Seq<char>, JsonView>),
}

pub open spec fn json_view(j: Json) -> JsonView
    decreases j,
{
    match j {
        Json::Null => JsonView::Null,
        Json::Bool(b) => JsonView::Bool(b),
        Json::Number(n) => JsonView::Number(n@),
        Json::Text(t) => JsonView::Text(t@),
        Json::Array(items) => JsonView::Array(array_view(items@)),
        Json::Object(entries) => JsonView::Object(object_view(entries@)),
    }
}

pub open spec fn array_view(items: Seq<Json>) -> Seq<JsonView>
    decreases items,
{
    if items.len() == 0 {
        Seq::empty()
    } else {
        array_view(items.drop_last()).push(json_view(items.last()))
    }
}

pub open spec fn object_view(entries: Seq<(String, Json)>) -> Map<Seq<char>, JsonView>
    decreases entries,
{
    if entries.len() == 0 {
        Map::empty()
    } else {
        object_view(entries.drop_last()).insert(entries.last().0@, json_view(entries.last().1))
    }
}

impl DeepView for Json {
    type V = JsonView;

    open spec fn deep_view(&self) -> JsonView {
        json_view(*self)
    }
}

impl JsonView {
    /// The member under `key`, where the value is an object that has one.
    pub open spec fn get(self, key: Seq<char>) -> Option<JsonView> {
        match self {
            JsonView::Object(m) => if m.dom().contains(key) {
                Some(m[key])
            } else {
                None
            },
            _ => None,
        }
    }

    pub open spec fn as_array(self) -> Option<Seq<JsonView>> {
        match self {
            JsonView::Array(a) => Some(a),
            _ => None,
        }
    }

    pub open spec fn as_text(self) -> Option<Seq<char>> {
        match self {
            JsonView::Text(t) => Some(t),
            _ => None,
        }
    }

    pub open spec fn as_i64(self) -> Option<int> {
        match self {
            JsonView::Number(n) => decimal::parse_i64_spec(n),
            _ => None,
        }
    }

    /// An object, or the null that becomes one when a member is set.
    pub open spec fn takes_members(self) -> bool {
        self is Object || self is Null
    }

    /// The object with the member under `key` set to `value`.
    pub open spec fn set(self, key: Seq<char>, value: JsonView) -> JsonView {
        match self {
            JsonView::Object(m) => JsonView::Object(m.insert(key, value)),
            _ => JsonView::Object(Map::empty().insert(key, value)),
        }
    }

    /// The text under `key`, where there is one.
    pub open spec fn get_text(self, key: Seq<char>) -> Option<Seq<char>> {
        match self.get(key) {
            Some(v) => v.as_text(),
            None => None,
        }
    }

    /// The array under `key`, where there is one.
    pub open spec fn get_array(self, key: Seq<char>) -> Option<Seq<JsonView>> {
        match self.get(key) {
            Some(v) => v.as_array(),
            None => None,
        }
    }
}

pub proof fn lemma_array_view(items: Seq<Json>)
    ensures
        array_view(items).len() == items.len(),
        forall|i: int|
            0 <= i < items.len() ==> #[trigger] array_view(items)[i] == json_view(items[i]),
    decreases items.len(),
{
    if items.len() > 0 {
        lemma_array_view(items.drop_last());
        assert forall|i: int| 0 <= i < items.len() implies #[trigger] array_view(items)[i]
            == json_view(items[i]) by {
            if i < items.len() - 1 {
                assert(array_view(items)[i] == array_view(items.drop_last())[i]);
            }
        }
    }
}

/// The view of a vector of values is the sequence of their views.
pub proof fn lemma_array_deep_view(items: Vec<Json>)
    ensures
        array_view(items@) == items.deep_view(),
{
    lemma_array_view(items@);
    assert(array_view(items@) =~= items.deep_view());
}

proof fn lemma_object_absent(entries: Seq<(String, Json)>, key: Seq<char>)
    requires
        forall|i: int| 0 <= i < entries.len() ==> (#[trigger] entries[i]).0@ != key,
    ensures
        !object_view(entries).dom().contains(key),
    decreases entries.len(),
{
    if entries.len() > 0 {
        lemma_object_absent(entries.drop_last(), key);
        assert(entries[entries.len() - 1].0@ != key);
    }
}

proof fn lemma_object_at(entries: Seq<(String, Json)>, k: int)
    requires
        0 <= k < entries.len(),
        forall|i: int| k < i < entries.len() ==> (#[trigger] entries[i]).0@ != entries[k].0@,
    ensures
        object_view(entries).dom().contains(entries[k].0@),
        object_view(entries)[entries[k].0@] == json_view(entries[k].1),
    decreases entries.len(),
{
    if k < entries.len() - 1 {
        lemma_object_at(entries.drop_last(), k);
        assert(entries[entries.len() - 1].0@ != entries[k].0@);
    }
}

proof fn lemma_object_replace(entries: Seq<(String, Json)>, k: int, name: String, value: Json)
    requires
        0 <= k < entries.len(),
        name@ == entries[k].0@,
        forall|i: int| k < i < entries.len() ==> (#[trigger] entries[i]).0@ != entries[k].0@,
    ensures
        object_view(entries.update(k, (name, value))) == object_view(entries).insert(
            name@,
            json_view(value),
        ),
    decreases entries.len(),
{
    let after = entries.update(k, (name, value));
    if k == entries.len() - 1 {
        assert(after.drop_last() =~= entries.drop_last());
        assert(object_view(after) =~= object_view(entries).insert(name@, json_view(value)));
    } else {
        lemma_object_replace(entries.drop_last(), k, name, value);
        assert(after.drop_last() =~= entries.drop_last().update(k, (name, value)));
        assert(entries[entries.len() - 1].0@ != entries[k].0@);
        assert(object_view(after) =~= object_view(entries).insert(name@, json_view(value)));
    }
}

/// The position of the entry that counts for `key`.
fn find_entry(entries: &Vec<(String, Json)>, key: &str) -> (r: Option<usize>)
    ensures
        match r {
            Some(k) => k < entries@.len() && entries@[k as int].0@ == key@ && forall|i: int|
                k < i < entries@.len() ==> (#[trigger] entries@[i]).0@ != key@,
            None => forall|i: int| 0 <= i < entries@.len() ==> (#[trigger] entries@[i]).0@ != key@,
        },
{
    let mut k: usize = entries.len();
    while k > 0
        invariant
            k <= entries@.len(),
            forall|i: int| k <= i < entries@.len() ==> (#[trigger] entries@[i]).0@ != key@,
        decreases k,
    {
        k = k - 1;
        if text::eq(entries[k].0.as_str(), key) {
            return Some(k);
        }
    }
    None
}

impl Json {
    /// An object without members.
    pub fn object() -> (r: Json)
        ensures
            r.deep_view() == JsonView::Object(Map::empty()),
    {
        let r = Json::Object(Vec::new());
        assert(object_view(Seq::<(String, Json)>::empty()) == Map::<
            Seq<char>,
            JsonView,
        >::empty());
        r
    }

    /// A text value.
    pub fn text(s: &str) -> (r: Json)
        ensures
            r.deep_view() == JsonView::Text(s@),
    {
        Json::Text(s.to_owned())
    }

    /// An array of values.
    pub fn array(items: Vec<Json>) -> (r: Json)
        ensures
            r.deep_view() == JsonView::Array(items.deep_view()),
    {
        proof {
            lemma_array_deep_view(items);
        }
        Json::Array(items)
    }

    /// The member under `key`.
    pub fn get(&self, key: &str) -> (r: Option<&Json>)
        ensures
            match r {
                Some(v) => self.deep_view().get(key@) == Some(v.deep_view()),
                None => self.deep_view().get(key@) is None,
            },
    {
        match self {
            Json::Object(entries) => match find_entry(entries, key) {
                Some(k) => {
                    proof {
                        lemma_object_at(entries@, k as int);
                    }
                    Some(&entries[k].1)
                },
                None => {
                    proof {
                        lemma_object_absent(entries@, key@);
                    }
                    None
                },
            },
            _ => None,
        }
    }

    /// Whether there is a member under `key`.
    pub fn has(&self, key: &str) -> (r: bool)
        ensures
            r == (self.deep_view().get(key@) is Some),
    {
        self.get(key).is_some()
    }

    /// The text under `key`.
    pub fn get_text(&self, key: &str) -> (r: Option<&String>)
        ensures
            match r {
                Some(t) => self.deep_view().get_text(key@) == Some(t@),
                None => self.deep_view().get_text(key@) is None,
            },
    {
        match self.get(key) {
            Some(Json::Text(t)) => Some(t),
            _ => None,
        }
    }

    /// The array under `key`.
    pub fn get_array(&self, key: &str) -> (r: Option<&Vec<Json>>)
        ensures
            match r {
                Some(a) => self.deep_view().get_array(key@) == Some(a.deep_view()),
                None => self.deep_view().get_array(key@) is None,
            },
    {
        match self.get(key) {
            Some(Json::Array(items)) => {
                proof {
                    lemma_array_deep_view(*items);
                }
                Some(items)
            },
            _ => None,
        }
    }

    /// The integer that the value is, where it fits 64 bits.
    pub fn as_i64(&self) -> (r: Option<i64>)
        ensures
            self.deep_view().as_i64() == (match r {
                Some(n) => Some(n as int),
                None => None,
            }),
    {
        match self {
            Json::Number(n) => decimal::parse_i64(n.as_str()),
            _ => None,
        }
    }

    /// Whether a member can be set on the value.
    pub fn takes_members(&self) -> (r: bool)
        ensures
            r == self.deep_view().takes_members(),
    {
        match self {
            Json::Object(_) => true,
            Json::Null => true,
            _ => false,
        }
    }

    /// Sets the member under `key`.
    pub fn set(self, key: &str, value: Json) -> (r: Json)
        requires
            self.deep_view().takes_members(),
        ensures
            r.deep_view() == self.deep_view().set(key@, value.deep_view()),
    {
        match self {
            Json::Object(entries) => {
                let mut entries = entries;
                let ghost before = entries@;
                match find_entry(&entries, key) {
                    Some(k) => {
                        let name = key.to_owned();
                        proof {
                            lemma_object_replace(before, k as int, name, value);
                        }
                        entries.set(k, (name, value));
                    },
                    None => {
                        entries.push((key.to_owned(), value));
                        assert(entries@.drop_last() =~= before);
                    },
                }
                Json::Object(entries)
            },
            _ => {
                let mut entries: Vec<(String, Json)> = Vec::new();
                entries.push((key.to_owned(), value));
                assert(entries@.drop_last().len() == 0);
                assert(object_view(entries@.drop_last()) =~= Map::empty());
                Json::Object(entries)
            },
        }
    }

    /// A copy of the value.
    pub fn copy(&self) -> (r: Json)
        ensures
            r.deep_view() == self.deep_view(),
        decreases self,
    {
        match self {
            Json::Null => Json::Null,
            Json::Bool(b) => Json::Bool(*b),
            Json::Number(n) => Json::Number(n.clone()),
            Json::Text(t) => Json::Text(t.clone()),
            Json::Array(items) => {
                let mut copies: Vec<Json> = Vec::new();
                for i in 0..items.len()
                    invariant
                        copies@.len() == i,
                        array_view(copies@) == array_view(items@.take(i as int)),
                        decreases_to!(self => items@),
                {
                    let ghost so_far = copies@;
                    assert(decreases_to!(self => items@[i as int]));
                    copies.push(items[i].copy());
                    assert(copies@.drop_last() =~= so_far);
                    assert(items@.take(i + 1).drop_last() =~= items@.take(i as int));
                }
                assert(items@.take(items@.len() as int) =~= items@);
                Json::Array(copies)
            },
            Json::Object(entries) => {
                let mut copies: Vec<(String, Json)> = Vec::new();
                for i in 0..entries.len()
                    invariant
                        copies@.len() == i,
                        object_view(copies@) == object_view(entries@.take(i as int)),
                        decreases_to!(self => entries@),
                {
                    let ghost so_far = copies@;
                    assert(decreases_to!(self => entries@[i as int].1));
                    copies.push((entries[i].0.clone(), entries[i].1.copy()));
                    assert(copies@.drop_last() =~= so_far);
                    assert(entries@.take(i + 1).drop_last() =~= entries@.take(i as int));
                }
                assert(entries@.take(entries@.len() as int) =~= entries@);
                Json::Object(copies)
            },
        }
    }
}

/// A member that is set is found again, under its key and as what it is; every other member
/// stays what it was. What is no object holds no members.
pub proof fn law_members(v: JsonView, key: Seq<char>, value: JsonView, other: Seq<char>)
    ensures
        v.set(key, value).get(key) == Some(value),
        v.set(key, value) is Object,
        other != key ==> v.set(key, value).get(other) == v.get(other),
        !(v is Object) ==> v.get(key) is None,
        forall|t: Seq<char>|
            v.get_text(key) == Some(t) <==> #[trigger] v.get(key) == Some(JsonView::Text(t)),
        forall|a: Seq<JsonView>|
            v.get_array(key) == Some(a) <==> #[trigger] v.get(key) == Some(JsonView::Array(a)),
{
    let m = v.set(key, value);
    assert forall|t: Seq<char>|
        v.get_text(key) == Some(t) <==> #[trigger] v.get(key) == Some(JsonView::Text(t)) by {}
    assert forall|a: Seq<JsonView>|
        v.get_array(key) == Some(a) <==> #[trigger] v.get(key) == Some(JsonView::Array(a)) by {}
}

} // verus!
