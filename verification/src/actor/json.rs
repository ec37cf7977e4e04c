//! JSON documents as a function's input is assembled from them.
use vstd::prelude::*;

use crate::text::text_lt;

verus! {

/// A JSON value.  Numbers are held as integers; objects keep their members
/// in key order, as a JSON map does.
#[derive(Debug, PartialEq)]
pub enum JsonValue {
    Null,
    Bool(bool),
    Number(i64),
    Text(String),
    Array(Vec<JsonValue>),
    Object(Vec<(String, JsonValue)>),
}

/// What a JSON value is, with texts as character sequences.
pub enum JsonView {
    Null,
    Bool(bool),
    Number(i64),
    Text(Seq<char>),
    Array(Seq<JsonView>),
    Object(Seq<(Seq<char>, JsonView)>),
}

/// The view of a JSON value.
pub open spec fn json_view(v: JsonValue) -> JsonView
    decreases v,
{
    match v {
        JsonValue::Null => JsonView::Null,
        JsonValue::Bool(b) => JsonView::Bool(b),
        JsonValue::Number(n) => JsonView::Number(n),
        JsonValue::Text(s) => JsonView::Text(s@),
        JsonValue::Array(items) => JsonView::Array(
            Seq::new(
                items@.len(),
                |i: int|
                    if 0 <= i < items@.len() {
                        proof {
                            assert(decreases_to!(items => items@));
                            assert(decreases_to!(items@ => items@[i]));
                        }
                        json_view(items@[i])
                    } else {
                        JsonView::Null
                    },
            ),
        ),
        JsonValue::Object(fields) => JsonView::Object(
            Seq::new(
                fields@.len(),
                |i: int|
                    if 0 <= i < fields@.len() {
                        proof {
                            assert(decreases_to!(fields => fields@));
                            assert(decreases_to!(fields@ => fields@[i]));
                            assert(decreases_to!(fields@[i] => fields@[i].1));
                        }
                        (fields@[i].0@, json_view(fields@[i].1))
                    } else {
                        (Seq::empty(), JsonView::Null)
                    },
            ),
        ),
    }
}

/// The views of array items.
pub open spec fn items_view(items: Seq<JsonValue>) -> Seq<JsonView> {
    Seq::new(items.len(), |i: int| json_view(items[i]))
}

/// The views of object members.
pub open spec fn members_view(members: Seq<(String, JsonValue)>) -> Seq<(Seq<char>, JsonView)> {
    Seq::new(members.len(), |i: int| (members[i].0@, json_view(members[i].1)))
}

pub proof fn lemma_array_view(items: Vec<JsonValue>)
    ensures
        json_view(JsonValue::Array(items)) == JsonView::Array(items_view(items@)),
{
    match json_view(JsonValue::Array(items)) {
        JsonView::Array(a) => {
            assert(a =~= items_view(items@));
        },
        _ => {},
    }
}

pub proof fn lemma_object_view(members: Vec<(String, JsonValue)>)
    ensures
        json_view(JsonValue::Object(members)) == JsonView::Object(members_view(members@)),
{
    match json_view(JsonValue::Object(members)) {
        JsonView::Object(a) => {
            assert(a =~= members_view(members@));
        },
        _ => {},
    }
}

/// An array's items long enough to hold an index: nulls are added up to it.
pub open spec fn pad_to(items: Seq<JsonView>, index: nat) -> Seq<JsonView> {
    if items.len() <= index {
        items + Seq::new((index + 1 - items.len()) as nat, |i: int| JsonView::Null)
    } else {
        items
    }
}

/// Where a key belongs among an object's members: after those with smaller keys.
pub open spec fn key_index(members: Seq<(Seq<char>, JsonView)>, key: Seq<char>) -> nat
    decreases members.len(),
{
    if members.len() == 0 || !text_lt(members[0].0, key) {
        0
    } else {
        1 + key_index(members.drop_first(), key)
    }
}

/// An object's members with the key present: a null member is added where
/// the key belongs, unless it is there.
pub open spec fn with_key(members: Seq<(Seq<char>, JsonView)>, key: Seq<char>) -> Seq<(Seq<char>, JsonView)> {
    let i = key_index(members, key);
    if i < members.len() && members[i as int].0 == key {
        members
    } else {
        members.insert(i as int, (key, JsonView::Null))
    }
}

/// The place a scan stops at is where the key belongs.
pub proof fn lemma_key_index(members: Seq<(Seq<char>, JsonView)>, key: Seq<char>, j: int)
    requires
        0 <= j <= members.len(),
        forall|k: int| 0 <= k < j ==> text_lt(#[trigger] members[k].0, key),
        j < members.len() ==> !text_lt(members[j].0, key),
    ensures
        key_index(members, key) == j,
    decreases j,
{
    if j > 0 {
        let t = members.drop_first();
        assert forall|k: int| 0 <= k < j - 1 implies text_lt(#[trigger] t[k].0, key) by {
            assert(t[k] == members[k + 1]);
        }
        if j - 1 < t.len() {
            assert(t[j - 1] == members[j]);
        }
        lemma_key_index(t, key, j - 1);
        assert(text_lt(members[0].0, key));
    }
}

} // verus!
