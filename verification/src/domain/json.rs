//! A JSON document as plain values.
use vstd::prelude::*;

verus! {

/// A JSON number, as serde_json keeps it.
#[derive(Debug, Clone, Copy, PartialEq, Eq)]
pub enum JsonNumber {
    PosInt(u64),
    NegInt(i64),
    FloatBits(u64),
}

/// A JSON value.
#[derive(Debug, PartialEq)]
pub enum JsonValue {
    Null,
    Bool(bool),
    Number(JsonNumber),
    String(String),
    Array(Vec<JsonValue>),
    Object(Vec<(String, JsonValue)>),
}

/// A JSON value with its texts as character sequences.
pub ghost enum JsonView {
    Null,
    Bool(bool),
    Number(JsonNumber),
    Str(Seq<char>),
    Array(Seq<JsonView>),
    Object(Seq<(Seq<char>, JsonView)>),
}

impl View for JsonValue {
    type V = JsonView;

    open spec fn view(&self) -> JsonView
        decreases self,
    {
        match self {
            JsonValue::Null => JsonView::Null,
            JsonValue::Bool(b) => JsonView::Bool(*b),
            JsonValue::Number(n) => JsonView::Number(*n),
            JsonValue::String(s) => JsonView::Str(s@),
            JsonValue::Array(items) => JsonView::Array(Seq::new(items@.len(), |i: int|
                if 0 <= i < items@.len() { items@[i].view() } else { JsonView::Null })),
            JsonValue::Object(entries) => JsonView::Object(Seq::new(entries@.len(), |i: int|
                if 0 <= i < entries@.len() { (entries@[i].0@, entries@[i].1.view()) } else { (Seq::empty(), JsonView::Null) })),
        }
    }
}

/// The value of the first entry named `key`, if any.
pub open spec fn lookup(entries: Seq<(Seq<char>, JsonView)>, key: Seq<char>) -> Option<JsonView>
    decreases entries.len(),
{
    if entries.len() == 0 {
        None
    } else if entries[0].0 == key {
        Some(entries[0].1)
    } else {
        lookup(entries.skip(1), key)
    }
}

/// `v[key]` in serde_json: the member named `key` of an object, or null.
pub open spec fn member(v: JsonView, key: Seq<char>) -> JsonView {
    match v {
        JsonView::Object(entries) => match lookup(entries, key) {
            Some(x) => x,
            None => JsonView::Null,
        },
        _ => JsonView::Null,
    }
}

/// Whether `v` is an object with an entry named `key`.
pub open spec fn has_key(v: JsonView, key: Seq<char>) -> bool {
    match v {
        JsonView::Object(entries) => lookup(entries, key) is Some,
        _ => false,
    }
}

/// The text of a JSON string.
pub open spec fn as_text(v: JsonView) -> Option<Seq<char>> {
    match v {
        JsonView::Str(s) => Some(s),
        _ => None,
    }
}

/// The value of a JSON boolean.
pub open spec fn as_flag(v: JsonView) -> Option<bool> {
    match v {
        JsonView::Bool(b) => Some(b),
        _ => None,
    }
}

/// The value of a JSON number that is a non-negative integer.
pub open spec fn as_unsigned(v: JsonView) -> Option<u64> {
    match v {
        JsonView::Number(JsonNumber::PosInt(n)) => Some(n),
        _ => None,
    }
}

/// Whether `v` is a JSON object.
pub open spec fn is_object(v: JsonView) -> bool {
    v is Object
}

proof fn lemma_lookup_skip(entries: Seq<(Seq<char>, JsonView)>, key: Seq<char>, i: int)
    requires
        0 <= i < entries.len(),
        entries[i].0 != key,
    ensures
        lookup(entries.skip(i), key) == lookup(entries.skip(i + 1), key),
{
    assert(entries.skip(i)[0] == entries[i]);
    assert(entries.skip(i).skip(1) =~= entries.skip(i + 1));
}

/// The member named `key` of an object, if any.
pub fn get_member<'a>(v: &'a JsonValue, key: &str) -> (res: Option<&'a JsonValue>)
    ensures
        match res {
            Some(x) => v@ is Object && member(v@, key@) == x@ && has_key(v@, key@),
            None => !has_key(v@, key@) && member(v@, key@) == JsonView::Null,
        },
{
    match v {
        JsonValue::Object(entries) => {
            let ghost es = v@->Object_0;
            proof { lemma_object_view(*v); }
            assert(es.skip(0) =~= es);
            assert(es.len() == entries@.len());
            assert forall|k: int| 0 <= k < es.len() implies #[trigger] es[k] == (entries@[k].0@, entries@[k].1@) by {
                assert(es[k] == (entries@[k].0@, entries@[k].1@));
            }
            let mut i: usize = 0;
            while i < entries.len()
                invariant
                    v@ == JsonView::Object(es),
                    *v == JsonValue::Object(*entries),
                    es.len() == entries@.len(),
                    forall|k: int| 0 <= k < es.len() ==> #[trigger] es[k] == (entries@[k].0@, entries@[k].1@),
                    i <= es.len(),
                    lookup(es, key@) == lookup(es.skip(i as int), key@),
                decreases es.len() - i,
            {
                assert(es[i as int] == (entries@[i as int].0@, entries@[i as int].1@));
                if crate::text::same_text(entries[i].0.as_str(), key) {
                    assert(es.skip(i as int)[0] == es[i as int]);
                    return Some(&entries[i].1);
                }
                proof { lemma_lookup_skip(es, key@, i as int); }
                i = i + 1;
            }
            None
        },
        _ => None,
    }
}

/// The text of the member `key` of `v`, if that member is a JSON string.
pub fn member_text<'a>(v: &'a JsonValue, key: &str) -> (res: Option<&'a str>)
    ensures
        match res {
            Some(t) => as_text(member(v@, key@)) == Some(t@),
            None => as_text(member(v@, key@)) is None,
        },
{
    match get_member(v, key) {
        Some(JsonValue::String(s)) => Some(s.as_str()),
        _ => None,
    }
}

/// The value of the member `key` of `v`, if that member is a JSON boolean.
pub fn member_flag(v: &JsonValue, key: &str) -> (res: Option<bool>)
    ensures
        res == as_flag(member(v@, key@)),
{
    match get_member(v, key) {
        Some(JsonValue::Bool(b)) => Some(*b),
        _ => None,
    }
}

pub proof fn lemma_object_view(v: JsonValue)
    requires
        v is Object,
    ensures
        v@ is Object,
        v@->Object_0.len() == v->Object_0@.len(),
        forall|k: int| 0 <= k < v->Object_0@.len() ==> #[trigger] v@->Object_0[k]
            == (v->Object_0@[k].0@, v->Object_0@[k].1@),
{
    reveal_with_fuel(<JsonValue as View>::view, 2);
}

pub proof fn lemma_array_view(v: JsonValue)
    requires
        v is Array,
    ensures
        v@ is Array,
        v@->Array_0.len() == v->Array_0@.len(),
        forall|k: int| 0 <= k < v->Array_0@.len() ==> #[trigger] v@->Array_0[k] == v->Array_0@[k]@,
{
    reveal_with_fuel(<JsonValue as View>::view, 2);
}

/// Each value's view is of the same kind as the value.
pub proof fn lemma_view_kind(v: JsonValue)
    ensures
        v is Null <==> v@ is Null,
        v is Bool <==> v@ is Bool,
        v is Number <==> v@ is Number,
        v is String <==> v@ is Str,
        v is Array <==> v@ is Array,
        v is Object <==> v@ is Object,
        v is Bool ==> v@ == JsonView::Bool(v->Bool_0),
        v is String ==> v@ == JsonView::Str(v->String_0@),
        v is Number ==> v@ == JsonView::Number(v->Number_0),
{
    reveal_with_fuel(<JsonValue as View>::view, 2);
}

/// The member named `key` of `v`, taken out of it; null when there is none.
pub fn take_member(v: JsonValue, key: &str) -> (res: JsonValue)
    ensures
        res@ == member(v@, key@),
{
    proof { lemma_view_kind(v); }
    let ghost orig = v;
    match v {
        JsonValue::Object(entries) => {
            let ghost whole = JsonValue::Object(entries);
            assert(orig == whole);
            proof { lemma_object_view(whole); }
            let ghost es = whole@->Object_0;
            assert(orig@ == JsonView::Object(es));
            let mut entries = entries;
            assert(es.skip(0) =~= es);
            let mut i: usize = 0;
            while i < entries.len()
                invariant
                    orig@ == JsonView::Object(es),
                    v == orig,
                    es.len() == entries@.len(),
                    forall|k: int| 0 <= k < es.len() ==> #[trigger] es[k] == (entries@[k].0@, entries@[k].1@),
                    i <= es.len(),
                    lookup(es, key@) == lookup(es.skip(i as int), key@),
                decreases es.len() - i,
            {
                assert(es[i as int] == (entries@[i as int].0@, entries@[i as int].1@));
                if crate::text::same_text(entries[i].0.as_str(), key) {
                    assert(es.skip(i as int)[0] == es[i as int]);
                    assert(lookup(es, key@) == Some(es[i as int].1));
                    let ghost expected = entries@[i as int].1;
                    let (_, value) = entries.remove(i);
                    assert(value@ == es[i as int].1);
                    return value;
                }
                proof { lemma_lookup_skip(es, key@, i as int); }
                i = i + 1;
            }
            let res = JsonValue::Null;
            proof { lemma_view_kind(res); }
            res
        },
        _ => {
            let res = JsonValue::Null;
            proof { lemma_view_kind(res); }
            res
        },
    }
}

/// The entry found by `lookup` is the first one with the key.
pub proof fn lemma_lookup_first(entries: Seq<(Seq<char>, JsonView)>, key: Seq<char>, i: int)
    requires
        0 <= i < entries.len(),
        entries[i].0 == key,
        forall|k: int| 0 <= k < i ==> (#[trigger] entries[k]).0 != key,
    ensures
        lookup(entries, key) == Some(entries[i].1),
    decreases i,
{
    if i > 0 {
        let rest = entries.skip(1);
        assert forall|k: int| 0 <= k < i - 1 implies (#[trigger] rest[k]).0 != key by {
            assert(rest[k] == entries[k + 1]);
        }
        lemma_lookup_first(rest, key, i - 1);
    }
}

/// `lookup` finds nothing when no entry has the key.
pub proof fn lemma_lookup_absent(entries: Seq<(Seq<char>, JsonView)>, key: Seq<char>)
    requires
        forall|k: int| 0 <= k < entries.len() ==> (#[trigger] entries[k]).0 != key,
    ensures
        lookup(entries, key) is None,
    decreases entries.len(),
{
    if entries.len() > 0 {
        let rest = entries.skip(1);
        assert forall|k: int| 0 <= k < rest.len() implies (#[trigger] rest[k]).0 != key by {
            assert(rest[k] == entries[k + 1]);
        }
        lemma_lookup_absent(rest, key);
    }
}

} // verus!
