//! JSON documents, and their flattening into a map from dotted paths to
//! the values at the leaves.
//!
//! Flattening walks the objects of a document. A member `k` of an object
//! that is reached under the path `p` is reached under `p.k`, or under `k`
//! where `p` is empty. A member named `@tag` stands for the object itself:
//! its value is filed under `p`. Everything that is not an object is a
//! leaf, and so is an empty object. Where two leaves meet under one path,
//! the later one stays.

use crate::model::offer::properties::RealBits;
use crate::ordered_map::{lemma_position, map_of, OrderedMap};
use crate::text::text_eq;
use vstd::prelude::*;

verus! {

/// A JSON number: a whole number, or a real number by its bits.
#[derive(Clone, Copy, Debug, PartialEq)]
pub enum JsonNumber {
    PosInt(u64),
    NegInt(i64),
    Real(RealBits),
}

/// A JSON document. The members of an object are kept in the order in
/// which they are walked.
#[derive(Debug, PartialEq)]
pub enum JsonValue {
    Null,
    Bool(bool),
    Number(JsonNumber),
    Text(String),
    Array(Vec<JsonValue>),
    Object(Vec<(String, JsonValue)>),
}

/// A JSON document as the contracts see it.
pub enum JsonView {
    Null,
    Bool(bool),
    Number(JsonNumber),
    Text(Seq<char>),
    Array(Seq<JsonView>),
    Object(Seq<(Seq<char>, JsonView)>),
}

/// The document as the contracts see it.
pub open spec fn json_view(value: JsonValue) -> JsonView
    decreases value,
{
    match value {
        JsonValue::Null => JsonView::Null,
        JsonValue::Bool(b) => JsonView::Bool(b),
        JsonValue::Number(n) => JsonView::Number(n),
        JsonValue::Text(t) => JsonView::Text(t@),
        JsonValue::Array(items) => JsonView::Array(
            Seq::new(
                items@.len(),
                |i: int|
                    if 0 <= i < items@.len() {
                        json_view(items@[i])
                    } else {
                        JsonView::Null
                    },
            ),
        ),
        JsonValue::Object(members) => JsonView::Object(
            Seq::new(
                members@.len(),
                |i: int|
                    if 0 <= i < members@.len() {
                        (members@[i].0@, json_view(members@[i].1))
                    } else {
                        (Seq::empty(), JsonView::Null)
                    },
            ),
        ),
    }
}

impl View for JsonValue {
    type V = JsonView;

    open spec fn view(&self) -> JsonView {
        json_view(*self)
    }
}

impl Clone for JsonValue {
    /// A copy of the document.
    fn clone(&self) -> (r: JsonValue)
        ensures
            r@ == self@,
        decreases self,
    {
        match self {
            JsonValue::Null => JsonValue::Null,
            JsonValue::Bool(b) => JsonValue::Bool(*b),
            JsonValue::Number(n) => JsonValue::Number(*n),
            JsonValue::Text(t) => JsonValue::Text(t.clone()),
            JsonValue::Array(items) => {
                let mut copies: Vec<JsonValue> = Vec::new();
                let mut i: usize = 0;
                while i < items.len()
                    invariant
                        i <= items.len(),
                        copies@.len() == i,
                        *self is Array,
                        *items == self->Array_0,
                        forall|j: int| 0 <= j < i ==> (#[trigger] copies@[j])@ == items@[j]@,
                    decreases items.len() - i,
                {
                    proof {
                        assert(decreases_to!(*self => self->Array_0));
                        assert(decreases_to!(*items => items@));
                        assert(decreases_to!(items@ => items@[i as int]));
                    }
                    copies.push(items[i].clone());
                    i += 1;
                }
                let r = JsonValue::Array(copies);
                proof {
                    assert(r@->Array_0 =~= self@->Array_0);
                }
                r
            },
            JsonValue::Object(members) => {
                let mut copies: Vec<(String, JsonValue)> = Vec::new();
                let mut i: usize = 0;
                while i < members.len()
                    invariant
                        i <= members.len(),
                        copies@.len() == i,
                        *self is Object,
                        *members == self->Object_0,
                        forall|j: int|
                            0 <= j < i ==> (#[trigger] copies@[j]).0@ == members@[j].0@
                                && copies@[j].1@ == members@[j].1@,
                    decreases members.len() - i,
                {
                    proof {
                        assert(decreases_to!(*self => self->Object_0));
                        assert(decreases_to!(*members => members@));
                        assert(decreases_to!(members@ => members@[i as int]));
                        assert(decreases_to!(members@[i as int] => members@[i as int].1));
                    }
                    copies.push((members[i].0.clone(), members[i].1.clone()));
                    i += 1;
                }
                let r = JsonValue::Object(copies);
                proof {
                    assert(r@->Object_0 =~= self@->Object_0);
                }
                r
            },
        }
    }
}

/// The members of an object as the contracts see them.
pub open spec fn member_views(members: Seq<(String, JsonValue)>) -> Seq<(Seq<char>, JsonView)> {
    Seq::new(members.len(), |i: int| (members[i].0@, members[i].1@))
}

/// The views of a run of documents.
pub open spec fn views(values: Seq<JsonValue>) -> Seq<JsonView> {
    Seq::new(values.len(), |i: int| values[i]@)
}

/// The document of a real number: the number itself where it is finite,
/// `null` where it is not.
pub open spec fn real_json(x: RealBits) -> JsonView {
    if (x.bits / 0x10_0000_0000_0000) % 0x800 == 0x7ff {
        JsonView::Null
    } else {
        JsonView::Number(JsonNumber::Real(x))
    }
}

/// The document of a whole number.
pub open spec fn unsigned_json(n: u64) -> JsonView {
    JsonView::Number(JsonNumber::PosInt(n))
}

/// Appends a member to the members of an object.
pub fn put_member(members: &mut Vec<(String, JsonValue)>, key: &str, value: JsonValue)
    ensures
        member_views(final(members)@) == member_views(old(members)@).push((key@, value@)),
{
    members.push((key.to_owned(), value));
    proof {
        assert(member_views(members@) =~= member_views(old(members)@).push((key@, value@)));
    }
}

/// The object with the given members.
pub fn object_of(members: Vec<(String, JsonValue)>) -> (r: JsonValue)
    ensures
        r@ == JsonView::Object(member_views(members@)),
{
    let r = JsonValue::Object(members);
    proof {
        assert(r@->Object_0 =~= member_views(members@));
    }
    r
}

/// The array with the given items.
pub fn array_of(items: Vec<JsonValue>) -> (r: JsonValue)
    ensures
        r@ == JsonView::Array(views(items@)),
{
    let r = JsonValue::Array(items);
    proof {
        assert(r@->Array_0 =~= views(items@));
    }
    r
}

/// The document of a text.
pub fn text_of(s: &str) -> (r: JsonValue)
    ensures
        r@ == JsonView::Text(s@),
{
    JsonValue::Text(s.to_owned())
}

/// The document of a whole number.
pub fn unsigned_of(n: u64) -> (r: JsonValue)
    ensures
        r@ == unsigned_json(n),
{
    JsonValue::Number(JsonNumber::PosInt(n))
}

/// The document of a real number.
pub fn real_of(x: RealBits) -> (r: JsonValue)
    ensures
        r@ == real_json(x),
{
    if (x.bits / 0x10_0000_0000_0000) % 0x800 == 0x7ff {
        JsonValue::Null
    } else {
        JsonValue::Number(JsonNumber::Real(x))
    }
}

/// The path of the member `key` of an object that stands under `prefix`.
pub open spec fn member_path(prefix: Seq<char>, key: Seq<char>) -> Seq<char> {
    if prefix.len() == 0 {
        key
    } else {
        prefix + "."@ + key
    }
}

/// The map `result` with the leaves of `value` filed under `prefix`.
pub open spec fn flattened_into(
    result: Map<Seq<char>, JsonView>,
    prefix: Seq<char>,
    value: JsonView,
) -> Map<Seq<char>, JsonView>
    decreases value,
{
    match value {
        JsonView::Object(members) => if members.len() == 0 {
            result.insert(prefix, value)
        } else {
            members_into(result, prefix, members, members.len())
        },
        _ => result.insert(prefix, value),
    }
}

/// The map `result` with the leaves of the first `n` members of an object
/// that stands under `prefix`.
pub open spec fn members_into(
    result: Map<Seq<char>, JsonView>,
    prefix: Seq<char>,
    members: Seq<(Seq<char>, JsonView)>,
    n: nat,
) -> Map<Seq<char>, JsonView>
    decreases members, n,
{
    if n == 0 || n > members.len() {
        result
    } else {
        let earlier = members_into(result, prefix, members, (n - 1) as nat);
        let member = members[n - 1];
        if member.0 == "@tag"@ {
            earlier.insert(prefix, member.1)
        } else {
            flattened_into(earlier, member_path(prefix, member.0), member.1)
        }
    }
}

/// The flattening of a document.
pub open spec fn flat(value: JsonView) -> Map<Seq<char>, JsonView> {
    flattened_into(Map::empty(), Seq::empty(), value)
}

/// The map from paths to leaves that an ordered map of documents stands
/// for.
pub open spec fn leaves(m: OrderedMap<JsonValue>) -> Map<Seq<char>, JsonView> {
    map_of(m.keys(), views(m.values()))
}

/// Files `value` under `key` among the leaves.
fn file_leaf(result: &mut OrderedMap<JsonValue>, key: String, value: JsonValue)
    requires
        old(result).wf(),
    ensures
        final(result).wf(),
        leaves(*final(result)) == leaves(*old(result)).insert(key@, value@),
{
    let _ = result.insert(key, value);
    proof {
        lemma_leaves(*old(result));
        lemma_leaves(*result);
        assert(leaves(*result) =~= leaves(*old(result)).insert(key@, value@));
    }
}

/// The leaves are filed under the keys of the map, and each is the view of
/// the document under its key.
proof fn lemma_leaves(m: OrderedMap<JsonValue>)
    requires
        m.wf(),
    ensures
        leaves(m).dom() == map_of(m.keys(), m.values()).dom(),
        forall|k: Seq<char>| #[trigger]
            leaves(m).dom().contains(k) ==> leaves(m)[k] == map_of(m.keys(), m.values())[k]@,
{
    assert(leaves(m).dom() =~= map_of(m.keys(), m.values()).dom());
    assert forall|k: Seq<char>| #[trigger] leaves(m).dom().contains(k) implies leaves(m)[k]
        == map_of(m.keys(), m.values())[k]@ by {
        lemma_position(m.keys(), k);
    }
}

/// Files the leaves of `value` under `prefix`.
fn flatten_inner(prefix: String, result: &mut OrderedMap<JsonValue>, value: JsonValue)
    requires
        old(result).wf(),
    ensures
        final(result).wf(),
        leaves(*final(result)) == flattened_into(leaves(*old(result)), prefix@, value@),
    decreases value,
{
    let ghost document = value;
    match value {
        JsonValue::Object(members) => {
            if members.len() == 0 {
                file_leaf(result, prefix, JsonValue::Object(members));
            } else {
                let ghost start = leaves(*result);
                let ghost held = members;
                let ghost all = document@->Object_0;
                for member in it: members
                    invariant
                        result.wf(),
                        it.seq() == held@,
                        document == value,
                        document is Object,
                        held == document->Object_0,
                        document@ == JsonView::Object(all),
                        all.len() == held@.len(),
                        forall|i: int|
                            0 <= i < held@.len() ==> #[trigger] all[i] == (
                                held@[i].0@,
                                held@[i].1@,
                            ),
                        leaves(*result) == members_into(start, prefix@, all, it.index() as nat),
                {
                    let (key, inner) = member;
                    proof {
                        let at = it.index() as int;
                        assert(inner == held@[at].1);
                        assert(decreases_to!(document => document->Object_0));
                        assert(decreases_to!(held => held@));
                        assert(decreases_to!(held@ => held@[at]));
                        assert(decreases_to!(held@[at] => held@[at].1));
                    }
                    if text_eq(key.as_str(), "@tag") {
                        file_leaf(result, prefix.clone(), inner);
                    } else {
                        let path = if prefix.as_str().unicode_len() == 0 {
                            key
                        } else {
                            prefix.clone().concat(".").concat(key.as_str())
                        };
                        flatten_inner(path, result, inner);
                    }
                }
            }
        },
        other => {
            file_leaf(result, prefix, other);
        },
    }
}

/// Flattens a document. The result holds the paths in ascending order.
pub fn flatten(value: JsonValue) -> (r: OrderedMap<JsonValue>)
    ensures
        r.wf(),
        leaves(r) == flat(value@),
{
    let mut result: OrderedMap<JsonValue> = OrderedMap::new();
    proof {
        assert(leaves(result) =~= Map::<Seq<char>, JsonView>::empty());
    }
    flatten_inner(String::new(), &mut result, value);
    result
}

} // verus!
