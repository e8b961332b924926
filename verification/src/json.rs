//! The JSON documents exchanged with the DaZeus core.
//!
//! The protocol carries JSON in both directions. This module holds the
//! crate's own document type, its mathematical model, and the two trusted
//! calls into serde_json that turn documents into bytes and back.

use vstd::prelude::*;
use crate::error::Error;

verus! {

/// A JSON document.
///
/// Numbers are held as signed 64-bit integers: the protocol itself sends
/// only strings and booleans, and every number observed from the core in
/// practice is integral. Objects keep their fields in insertion order.
#[derive(Debug)]
pub enum JsonValue {
    Null,
    Bool(bool),
    Num(i64),
    Str(String),
    Arr(Vec<JsonValue>),
    Obj(Vec<(String, JsonValue)>),
}

/// The mathematical model of a JSON document, used by contracts.
#[verifier::ext_equal]
pub enum JsonSpec {
    Null,
    Bool(bool),
    Num(i64),
    Str(Seq<char>),
    Arr(Seq<JsonSpec>),
    Obj(Seq<(Seq<char>, JsonSpec)>),
}

/// The model of an object's field list.
pub open spec fn fields_view(fields: Seq<(String, JsonValue)>) -> Seq<(Seq<char>, JsonSpec)>
    decreases fields,
{
    if fields.len() == 0 {
        Seq::empty()
    } else {
        proof {
            vstd::seq::axiom_seq_subrange_decreases(fields, 0, fields.len() - 1);
            assert(fields.subrange(0, fields.len() - 1) == fields.drop_last());
            assert(decreases_to!(fields => fields.last()));
            assert(decreases_to!(fields.last() => fields.last().1));
        }
        fields_view(fields.drop_last()).push((fields.last().0@, fields.last().1@))
    }
}

/// The model of an array's item list.
pub open spec fn items_view(items: Seq<JsonValue>) -> Seq<JsonSpec>
    decreases items,
{
    if items.len() == 0 {
        Seq::empty()
    } else {
        proof {
            vstd::seq::axiom_seq_subrange_decreases(items, 0, items.len() - 1);
            assert(items.subrange(0, items.len() - 1) == items.drop_last());
        }
        items_view(items.drop_last()).push(items.last()@)
    }
}

impl View for JsonValue {
    type V = JsonSpec;

    open spec fn view(&self) -> JsonSpec
        decreases self,
    {
        match self {
            JsonValue::Null => JsonSpec::Null,
            JsonValue::Bool(b) => JsonSpec::Bool(*b),
            JsonValue::Num(n) => JsonSpec::Num(*n),
            JsonValue::Str(s) => JsonSpec::Str(s@),
            JsonValue::Arr(items) => JsonSpec::Arr(items_view(items@)),
            JsonValue::Obj(fields) => JsonSpec::Obj(fields_view(fields@)),
        }
    }
}

/// The model of a field list is as long as the list itself.
pub broadcast proof fn lemma_fields_view_len(s: Seq<(String, JsonValue)>)
    ensures
        (#[trigger] fields_view(s)).len() == s.len(),
    decreases s.len(),
{
    if s.len() > 0 {
        lemma_fields_view_len(s.drop_last());
        assert(fields_view(s) == fields_view(s.drop_last()).push((s.last().0@, s.last().1@)));
    }
}

/// The model of a field list is the field-wise model.
pub broadcast proof fn lemma_fields_view_index(s: Seq<(String, JsonValue)>, i: int)
    requires
        0 <= i < s.len(),
    ensures
        (#[trigger] fields_view(s)[i]) == (s[i].0@, s[i].1@),
    decreases s.len(),
{
    lemma_fields_view_len(s);
    lemma_fields_view_len(s.drop_last());
    assert(fields_view(s) == fields_view(s.drop_last()).push((s.last().0@, s.last().1@)));
    if i < s.len() - 1 {
        lemma_fields_view_index(s.drop_last(), i);
    }
}

/// The model of an item list is as long as the list itself.
pub broadcast proof fn lemma_items_view_len(s: Seq<JsonValue>)
    ensures
        (#[trigger] items_view(s)).len() == s.len(),
    decreases s.len(),
{
    if s.len() > 0 {
        lemma_items_view_len(s.drop_last());
        assert(items_view(s) == items_view(s.drop_last()).push(s.last()@));
    }
}

/// The model of an item list is the item-wise model.
pub broadcast proof fn lemma_items_view_index(s: Seq<JsonValue>, i: int)
    requires
        0 <= i < s.len(),
    ensures
        (#[trigger] items_view(s)[i]) == s[i]@,
    decreases s.len(),
{
    lemma_items_view_len(s);
    lemma_items_view_len(s.drop_last());
    assert(items_view(s) == items_view(s.drop_last()).push(s.last()@));
    if i < s.len() - 1 {
        lemma_items_view_index(s.drop_last(), i);
    }
}

impl Clone for JsonValue {
    /// A clone of a document has the same model.
    #[verifier::loop_isolation(false)]
    fn clone(&self) -> (r: Self)
        ensures
            r@ == self@,
        decreases self,
    {
        match self {
            JsonValue::Null => JsonValue::Null,
            JsonValue::Bool(b) => JsonValue::Bool(*b),
            JsonValue::Num(n) => JsonValue::Num(*n),
            JsonValue::Str(s) => JsonValue::Str(s.clone()),
            JsonValue::Arr(items) => {
                let n = items.len();
                let mut out: Vec<JsonValue> = Vec::new();
                let mut i: usize = 0;
                while i < n
                    invariant
                        0 <= i <= n,
                        n == items@.len(),
                        items_view(out@) =~= items_view(items@.take(i as int)),
                    decreases n - i,
                {
                    proof {
                        assert(decreases_to!(*self => self->Arr_0));
                        assert(self->Arr_0 == *items);
                        assert(decreases_to!(*items => items@));
                        assert(decreases_to!(items@ => items@[i as int]));
                        assert(decreases_to!(*self => items@[i as int]));
                        lemma_items_view_len(out@);
                        assert(items@.take(i + 1).drop_last() =~= items@.take(i as int));
                        assert(items@.take(i + 1).last() == items@[i as int]);
                    }
                    let ghost prev = out@;
                    out.push(items[i].clone());
                    proof {
                        assert(out@.drop_last() =~= prev);
                        assert(items_view(out@) == items_view(prev).push(out@.last()@));
                    }
                    i += 1;
                }
                proof {
                    assert(items@.take(n as int) =~= items@);
                }
                JsonValue::Arr(out)
            },
            JsonValue::Obj(fields) => {
                let n = fields.len();
                let mut out: Vec<(String, JsonValue)> = Vec::new();
                let mut i: usize = 0;
                while i < n
                    invariant
                        0 <= i <= n,
                        n == fields@.len(),
                        fields_view(out@) =~= fields_view(fields@.take(i as int)),
                    decreases n - i,
                {
                    proof {
                        assert(decreases_to!(*self => self->Obj_0));
                        assert(self->Obj_0 == *fields);
                        assert(decreases_to!(*fields => fields@));
                        assert(decreases_to!(fields@ => fields@[i as int]));
                        assert(decreases_to!(fields@[i as int] => fields@[i as int].1));
                        assert(decreases_to!(*self => fields@[i as int].1));
                        lemma_fields_view_len(out@);
                        assert(fields@.take(i + 1).drop_last() =~= fields@.take(i as int));
                        assert(fields@.take(i + 1).last() == fields@[i as int]);
                    }
                    let ghost prev = out@;
                    out.push((fields[i].0.clone(), fields[i].1.clone()));
                    proof {
                        assert(out@.drop_last() =~= prev);
                        assert(fields_view(out@) == fields_view(prev).push(
                            (out@.last().0@, out@.last().1@),
                        ));
                    }
                    i += 1;
                }
                proof {
                    assert(fields@.take(n as int) =~= fields@);
                }
                JsonValue::Obj(out)
            },
        }
    }
}

impl vstd::std_specs::cmp::PartialEqSpecImpl for JsonValue {
    open spec fn obeys_eq_spec() -> bool {
        true
    }

    open spec fn eq_spec(&self, other: &JsonValue) -> bool {
        self@ == other@
    }
}

impl PartialEq for JsonValue {
    /// Two documents are equal when their models are: same shape, same
    /// scalars, same fields in the same order.
    #[verifier::loop_isolation(false)]
    fn eq(&self, other: &JsonValue) -> (r: bool)
        decreases self,
    {
        match (self, other) {
            (JsonValue::Null, JsonValue::Null) => true,
            (JsonValue::Bool(a), JsonValue::Bool(b)) => a == b,
            (JsonValue::Num(a), JsonValue::Num(b)) => a == b,
            (JsonValue::Str(a), JsonValue::Str(b)) => str_eq(a.as_str(), b.as_str()),
            (JsonValue::Arr(a), JsonValue::Arr(b)) => {
                let n = a.len();
                if n != b.len() {
                    proof {
                        lemma_items_view_len(a@);
                        lemma_items_view_len(b@);
                    }
                    return false;
                }
                let mut i: usize = 0;
                while i < n
                    invariant
                        0 <= i <= n,
                        n == a@.len(),
                        n == b@.len(),
                        forall|k: int|
                            0 <= k < i ==> items_view(a@)[k] == #[trigger] items_view(b@)[k],
                    decreases n - i,
                {
                    proof {
                        assert(decreases_to!(*self => self->Arr_0));
                        assert(self->Arr_0 == *a);
                        assert(decreases_to!(*a => a@));
                        assert(decreases_to!(a@ => a@[i as int]));
                        assert(decreases_to!(*self => a@[i as int]));
                        lemma_items_view_index(a@, i as int);
                        lemma_items_view_index(b@, i as int);
                    }
                    if !(a[i] == b[i]) {
                        proof {
                            lemma_items_view_len(a@);
                            lemma_items_view_len(b@);
                        }
                        return false;
                    }
                    i += 1;
                }
                proof {
                    lemma_items_view_len(a@);
                    lemma_items_view_len(b@);
                    assert(items_view(a@) =~= items_view(b@));
                }
                true
            },
            (JsonValue::Obj(a), JsonValue::Obj(b)) => {
                let n = a.len();
                if n != b.len() {
                    proof {
                        lemma_fields_view_len(a@);
                        lemma_fields_view_len(b@);
                    }
                    return false;
                }
                let mut i: usize = 0;
                while i < n
                    invariant
                        0 <= i <= n,
                        n == a@.len(),
                        n == b@.len(),
                        forall|k: int|
                            0 <= k < i ==> fields_view(a@)[k] == #[trigger] fields_view(b@)[k],
                    decreases n - i,
                {
                    proof {
                        assert(decreases_to!(*self => self->Obj_0));
                        assert(self->Obj_0 == *a);
                        assert(decreases_to!(*a => a@));
                        assert(decreases_to!(a@ => a@[i as int]));
                        assert(decreases_to!(a@[i as int] => a@[i as int].1));
                        assert(decreases_to!(*self => a@[i as int].1));
                        lemma_fields_view_index(a@, i as int);
                        lemma_fields_view_index(b@, i as int);
                    }
                    if !str_eq(a[i].0.as_str(), b[i].0.as_str()) {
                        proof {
                            lemma_fields_view_len(a@);
                            lemma_fields_view_len(b@);
                        }
                        return false;
                    }
                    if !(a[i].1 == b[i].1) {
                        proof {
                            lemma_fields_view_len(a@);
                            lemma_fields_view_len(b@);
                        }
                        return false;
                    }
                    i += 1;
                }
                proof {
                    lemma_fields_view_len(a@);
                    lemma_fields_view_len(b@);
                    assert(fields_view(a@) =~= fields_view(b@));
                }
                true
            },
            _ => false,
        }
    }
}

/// No two fields of the list share a key.
pub open spec fn distinct_keys(fields: Seq<(Seq<char>, JsonSpec)>) -> bool {
    forall|i: int, j: int| 0 <= i < j < fields.len() ==> fields[i].0 != fields[j].0
}

/// Every object in the document has distinct keys.
pub open spec fn json_wf(j: JsonSpec) -> bool
    decreases j,
{
    match j {
        JsonSpec::Arr(items) => forall|i: int|
            0 <= i < items.len() ==> json_wf(#[trigger] items[i]),
        JsonSpec::Obj(fields) => distinct_keys(fields) && forall|i: int|
            0 <= i < fields.len() ==> json_wf(#[trigger] fields[i].1),
        _ => true,
    }
}

/// The value under the first field with the given key, if any.
pub open spec fn obj_lookup(fields: Seq<(Seq<char>, JsonSpec)>, key: Seq<char>) -> Option<
    JsonSpec,
>
    decreases fields.len(),
{
    if fields.len() == 0 {
        None
    } else if fields[0].0 == key {
        Some(fields[0].1)
    } else {
        obj_lookup(fields.drop_first(), key)
    }
}

/// The value under a key of an object document; `None` for any other
/// document, or when the key is absent.
pub open spec fn json_get(j: JsonSpec, key: Seq<char>) -> Option<JsonSpec> {
    match j {
        JsonSpec::Obj(fields) => obj_lookup(fields, key),
        _ => None,
    }
}

/// Whether the document is an object holding the given key.
pub open spec fn json_has_key(j: JsonSpec, key: Seq<char>) -> bool {
    json_get(j, key) is Some
}

/// Whether the document nests at most `n` containers deep: scalars
/// always fit, and an array or object needs one level for itself and
/// `n - 1` for everything under it.
pub open spec fn json_depth_le(j: JsonSpec, n: nat) -> bool
    decreases j,
{
    match j {
        JsonSpec::Arr(items) => n > 0 && forall|i: int|
            0 <= i < items.len() ==> json_depth_le(#[trigger] items[i], (n - 1) as nat),
        JsonSpec::Obj(fields) => n > 0 && forall|i: int|
            0 <= i < fields.len() ==> json_depth_le(#[trigger] fields[i].1, (n - 1) as nat),
        _ => true,
    }
}

/// Two strings hold the same characters.
pub fn str_eq(a: &str, b: &str) -> (r: bool)
    ensures
        r == (a@ == b@),
{
    let alen = a.unicode_len();
    let blen = b.unicode_len();
    if alen != blen {
        return false;
    }
    let mut i: usize = 0;
    while i < alen
        invariant
            0 <= i <= alen,
            alen == a@.len(),
            alen == b@.len(),
            forall|k: int| 0 <= k < i ==> a@[k] == b@[k],
        decreases alen - i,
    {
        if a.get_char(i) != b.get_char(i) {
            return false;
        }
        i += 1;
    }
    assert(a@ =~= b@);
    true
}

proof fn lemma_lookup_unroll(
    fields: Seq<(Seq<char>, JsonSpec)>,
    key: Seq<char>,
    i: int,
)
    requires
        0 <= i <= fields.len(),
        forall|k: int| 0 <= k < i ==> fields[k].0 != key,
    ensures
        obj_lookup(fields, key) == obj_lookup(fields.skip(i), key),
    decreases i,
{
    if i > 0 {
        assert(fields.skip(0) =~= fields);
        lemma_lookup_unroll(fields, key, i - 1);
        let tail = fields.skip(i - 1);
        assert(tail[0] == fields[i - 1]);
        assert(tail.drop_first() =~= fields.skip(i));
    } else {
        assert(fields.skip(0) =~= fields);
    }
}

/// The first field with the given key in an object's field list.
pub fn json_obj_get<'a>(fields: &'a Vec<(String, JsonValue)>, key: &str) -> (r: Option<
    &'a JsonValue,
>)
    ensures
        match r {
            Some(v) => obj_lookup(fields_view(fields@), key@) == Some(v@),
            None => obj_lookup(fields_view(fields@), key@) is None,
        },
{
    proof {
        broadcast use lemma_fields_view_len, lemma_fields_view_index;

    }
    let ghost model = fields_view(fields@);
    let n = fields.len();
    let mut i: usize = 0;
    while i < n
        invariant
            0 <= i <= n,
            n == fields.len(),
            model == fields_view(fields@),
            model.len() == n,
            forall|k: int| 0 <= k < i ==> model[k].0 != key@,
        decreases n - i,
    {
        if str_eq(fields[i].0.as_str(), key) {
            proof {
                lemma_fields_view_index(fields@, i as int);
                lemma_lookup_unroll(model, key@, i as int);
                assert(model.skip(i as int)[0] == model[i as int]);
            }
            return Some(&fields[i].1);
        }
        proof {
            lemma_fields_view_index(fields@, i as int);
        }
        i += 1;
    }
    proof {
        lemma_lookup_unroll(model, key@, n as int);
        assert(model.skip(n as int) =~= Seq::<(Seq<char>, JsonSpec)>::empty());
    }
    None
}

#[verifier::external_type_specification]
#[verifier::external_body]
pub struct ExSerdeValue(serde_json::Value);

/// The bytes that serde_json serializes a document to.
pub uninterp spec fn json_text(v: JsonSpec) -> Seq<u8>;

/// The document that serde_json parses a byte sequence to, mapped into
/// this crate's model; `None` where the bytes are not JSON the model can
/// hold.
pub uninterp spec fn json_parse(bytes: Seq<u8>) -> Option<JsonSpec>;

/// Converts a document of this library into serde_json's value type, one
/// constructor for one constructor.
#[verifier::external_body]
fn to_serde(v: &JsonValue) -> serde_json::Value {
    match v {
        JsonValue::Null => serde_json::Value::Null,
        JsonValue::Bool(b) => serde_json::Value::Bool(*b),
        JsonValue::Num(n) => serde_json::Value::Number(serde_json::Number::from(*n)),
        JsonValue::Str(s) => serde_json::Value::String(s.clone()),
        JsonValue::Arr(items) => serde_json::Value::Array(items.iter().map(to_serde).collect()),
        JsonValue::Obj(fields) => serde_json::Value::Object(
            fields.iter().map(|f| (f.0.clone(), to_serde(&f.1))).collect(),
        ),
    }
}

/// Converts serde_json's value type into a document of this library, one
/// constructor for one constructor; a number that does not fit an i64 has
/// no counterpart in the model and yields `None`.
#[verifier::external_body]
fn from_serde(v: &serde_json::Value) -> Option<JsonValue> {
    Some(
        match v {
            serde_json::Value::Null => JsonValue::Null,
            serde_json::Value::Bool(b) => JsonValue::Bool(*b),
            serde_json::Value::Number(n) => JsonValue::Num(n.as_i64()?),
            serde_json::Value::String(s) => JsonValue::Str(s.clone()),
            serde_json::Value::Array(i) => JsonValue::Arr(
                i.iter().map(from_serde).collect::<Option<Vec<_>>>()?,
            ),
            serde_json::Value::Object(f) => JsonValue::Obj(
                f.iter().map(|e| Some((e.0.clone(), from_serde(e.1)?))).collect::<Option<Vec<_>>>()?,
            ),
        },
    )
}

/// Relies on serde_json::to_vec: the serialized form of a JSON document is
/// a function of the document alone; serialization never yields empty
/// output; an object serializes to text starting with `{`; and, with
/// object keys kept in insertion order by the `preserve_order` feature,
/// parsing the serialized text yields the document back whenever no object
/// in it repeats a key and no more than 127 containers nest (the parser
/// starts a recursion allowance of 128 and spends one entering each
/// container, refusing the 128th; the serializer has no such limit, so
/// deeper documents serialize to text the parser then refuses).
#[verifier::external_body]
pub fn json_to_bytes(v: &JsonValue) -> (r: Vec<u8>)
    ensures
        r@ == json_text(v@),
        r@.len() > 0,
        v@ is Obj ==> r@[0] == 123u8,
        json_wf(v@) && json_depth_le(v@, 127) ==> json_parse(r@) == Some(v@),
{
    serde_json::to_vec(&to_serde(v)).unwrap()
}

/// Relies on serde_json::from_slice: whether a byte sequence parses as
/// JSON, and the document it parses to, are functions of the bytes alone;
/// a repeated object key keeps the last value, so a parsed document never
/// repeats a key.
#[verifier::external_body]
pub fn json_from_bytes(bytes: &[u8]) -> (r: Result<JsonValue, Error>)
    ensures
        match r {
            Ok(v) => json_parse(bytes@) == Some(v@) && json_wf(v@),
            Err(e) => json_parse(bytes@) is None && e is JsonParserError,
        },
{
    match serde_json::from_slice::<serde_json::Value>(bytes) {
        Ok(v) => from_serde(&v).ok_or_else(
            || Error::JsonParserError("number out of range".to_string()),
        ),
        Err(e) => Err(Error::JsonParserError(e.to_string())),
    }
}

} // verus!
