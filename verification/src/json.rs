//! The dynamic values that checkpoint events carry, and their JSON form. Numbers are held as bit
//! patterns: they are moved and told finite or not, and nothing is computed with them.

use vstd::prelude::*;

verus! {

/// An IEEE 754 double, held as its bit pattern.
#[derive(Clone, Copy, PartialEq, Eq, Debug, Structural)]
pub struct Double {
    pub bits: u64,
}

impl Double {
    /// The biased exponent: the eleven bits below the sign.
    pub open spec fn exponent(self) -> int {
        (self.bits as int / 0x10_0000_0000_0000) % 0x800
    }

    /// Neither an infinity nor a NaN: those two have all exponent bits set.
    pub open spec fn finite(self) -> bool {
        self.exponent() != 0x7ff
    }

    /// Whether the double is a number that JSON can write.
    pub fn is_finite(&self) -> (finite: bool)
        ensures
            finite == self.finite(),
    {
        (self.bits / 0x10_0000_0000_0000) % 0x800 != 0x7ff
    }
}

/// A dynamically typed value of a protobuf message. Without a kind it stands for an error.
pub struct ProtoValue {
    pub kind: Option<ProtoKind>,
}

/// The kinds of a [`ProtoValue`].
pub enum ProtoKind {
    NullValue(i32),
    NumberValue(Double),
    StringValue(String),
    BoolValue(bool),
    StructValue(ProtoStruct),
    ListValue(ProtoList),
}

/// A structured value: its fields in the order of their keys, no key twice (see
/// [`value_ordered`]).
pub struct ProtoStruct {
    pub fields: Vec<ProtoField>,
}

/// One field of a [`ProtoStruct`].
pub struct ProtoField {
    pub key: String,
    pub value: ProtoValue,
}

/// A repeated value.
pub struct ProtoList {
    pub values: Vec<ProtoValue>,
}

/// A JSON document. An object holds its members in the order of their keys, no key twice.
pub enum JsonValue {
    Null,
    Bool(bool),
    Number(Double),
    String(String),
    Array(Vec<JsonValue>),
    Object(Vec<JsonMember>),
}

/// One member of a JSON object.
pub struct JsonMember {
    pub key: String,
    pub value: JsonValue,
}

/// What a [`JsonValue`] is, as a mathematical value.
#[verifier::ext_equal]
pub enum JsonModel {
    Null,
    Bool(bool),
    Number(Double),
    String(Seq<char>),
    Array(Seq<JsonModel>),
    Object(Seq<(Seq<char>, JsonModel)>),
}

/// The model of a JSON document.
pub open spec fn json_model(value: JsonValue) -> JsonModel
    decreases value,
{
    match value {
        JsonValue::Null => JsonModel::Null,
        JsonValue::Bool(b) => JsonModel::Bool(b),
        JsonValue::Number(n) => JsonModel::Number(n),
        JsonValue::String(s) => JsonModel::String(s@),
        JsonValue::Array(items) => JsonModel::Array(json_array_model(items@)),
        JsonValue::Object(members) => JsonModel::Object(json_object_model(members@)),
    }
}

/// The models of the items of an array.
pub open spec fn json_array_model(items: Seq<JsonValue>) -> Seq<JsonModel>
    decreases items,
{
    if items.len() == 0 {
        Seq::empty()
    } else {
        json_array_model(items.drop_last()).push(json_model(items.last()))
    }
}

/// The members of an object, each as its key and the model of its value.
pub open spec fn json_object_model(members: Seq<JsonMember>) -> Seq<(Seq<char>, JsonModel)>
    decreases members,
{
    if members.len() == 0 {
        Seq::empty()
    } else {
        json_object_model(members.drop_last()).push(
            (members.last().key@, json_model(members.last().value)),
        )
    }
}

/// The JSON form of a protobuf value. A value without a kind and a number that is not finite
/// have none.
pub open spec fn json_of(value: ProtoValue) -> Option<JsonModel>
    decreases value,
{
    match value.kind {
        None => None,
        Some(ProtoKind::NullValue(_)) => Some(JsonModel::Null),
        Some(ProtoKind::NumberValue(n)) => if n.finite() {
            Some(JsonModel::Number(n))
        } else {
            None
        },
        Some(ProtoKind::StringValue(s)) => Some(JsonModel::String(s@)),
        Some(ProtoKind::BoolValue(b)) => Some(JsonModel::Bool(b)),
        Some(ProtoKind::StructValue(s)) => Some(JsonModel::Object(json_of_fields(s.fields@))),
        Some(ProtoKind::ListValue(l)) => Some(JsonModel::Array(json_of_items(l.values@))),
    }
}

/// The JSON forms of the values that have one, in their order.
pub open spec fn json_of_items(values: Seq<ProtoValue>) -> Seq<JsonModel>
    decreases values,
{
    if values.len() == 0 {
        Seq::empty()
    } else {
        let rest = json_of_items(values.drop_last());
        match json_of(values.last()) {
            Some(json) => rest.push(json),
            None => rest,
        }
    }
}

/// The fields whose value has a JSON form, in their order.
pub open spec fn json_of_fields(fields: Seq<ProtoField>) -> Seq<(Seq<char>, JsonModel)>
    decreases fields,
{
    if fields.len() == 0 {
        Seq::empty()
    } else {
        let rest = json_of_fields(fields.drop_last());
        match json_of(fields.last().value) {
            Some(json) => rest.push((fields.last().key@, json)),
            None => rest,
        }
    }
}

/// The item of a list is smaller than the value that holds the list.
proof fn lemma_item_is_smaller(value: ProtoValue, i: int)
    requires
        value.kind matches Some(ProtoKind::ListValue(l)) && 0 <= i < l.values@.len(),
    ensures
        decreases_to!(value => value.kind->Some_0->ListValue_0.values@[i]),
{
    let list = value.kind->Some_0->ListValue_0;
    assert(decreases_to!(value => value.kind));
    assert(decreases_to!(value.kind => value.kind->Some_0));
    assert(decreases_to!(value.kind->Some_0 => list));
    assert(decreases_to!(list => list.values));
    assert(decreases_to!(list.values => list.values@));
    assert(decreases_to!(list.values@ => list.values@[i]));
}

/// The value of a field is smaller than the value that holds the struct.
proof fn lemma_field_is_smaller(value: ProtoValue, i: int)
    requires
        value.kind matches Some(ProtoKind::StructValue(s)) && 0 <= i < s.fields@.len(),
    ensures
        decreases_to!(value => value.kind->Some_0->StructValue_0.fields@[i].value),
{
    let s = value.kind->Some_0->StructValue_0;
    assert(decreases_to!(value => value.kind));
    assert(decreases_to!(value.kind => value.kind->Some_0));
    assert(decreases_to!(value.kind->Some_0 => s));
    assert(decreases_to!(s => s.fields));
    assert(decreases_to!(s.fields => s.fields@));
    assert(decreases_to!(s.fields@ => s.fields@[i]));
    assert(decreases_to!(s.fields@[i] => s.fields@[i].value));
}

/// Converts a protobuf value to JSON. Items of a list and fields of a struct that have no JSON
/// form are left out.
pub fn prost_value_to_serde_json(value: ProtoValue) -> (json: Option<JsonValue>)
    ensures
        json is Some <==> json_of(value) is Some,
        json matches Some(json) ==> json_of(value) == Some(json_model(json)),
    decreases value,
{
    let kind = match value.kind {
        Some(kind) => kind,
        None => {
            return None;
        },
    };
    match kind {
        ProtoKind::NullValue(_) => Some(JsonValue::Null),
        ProtoKind::NumberValue(n) => if n.is_finite() {
            Some(JsonValue::Number(n))
        } else {
            None
        },
        ProtoKind::StringValue(s) => Some(JsonValue::String(s)),
        ProtoKind::BoolValue(b) => Some(JsonValue::Bool(b)),
        ProtoKind::StructValue(s) => {
            let ghost fields = s.fields@;
            let mut members: Vec<JsonMember> = Vec::new();
            for field in it: s.fields.into_iter()
                invariant
                    it.seq() == fields,
                    value.kind == Some(kind),
                    kind == ProtoKind::StructValue(s),
                    s.fields@ == fields,
                    json_object_model(members@) == json_of_fields(fields.take(it.index() as int)),
            {
                let ghost done = members@;
                proof {
                    lemma_field_is_smaller(value, it.index() as int);
                }
                assert(fields.take(it.index() + 1).drop_last() =~= fields.take(it.index() as int));
                if let Some(json) = prost_value_to_serde_json(field.value) {
                    members.push(JsonMember { key: field.key, value: json });
                    assert(members@.drop_last() =~= done);
                }
            }
            assert(fields.take(fields.len() as int) =~= fields);
            Some(JsonValue::Object(members))
        },
        ProtoKind::ListValue(l) => {
            let ghost values = l.values@;
            let mut items: Vec<JsonValue> = Vec::new();
            for item in it: l.values.into_iter()
                invariant
                    it.seq() == values,
                    value.kind == Some(kind),
                    kind == ProtoKind::ListValue(l),
                    l.values@ == values,
                    json_array_model(items@) == json_of_items(values.take(it.index() as int)),
            {
                let ghost done = items@;
                proof {
                    lemma_item_is_smaller(value, it.index() as int);
                }
                assert(values.take(it.index() + 1).drop_last() =~= values.take(it.index() as int));
                if let Some(json) = prost_value_to_serde_json(item) {
                    items.push(json);
                    assert(items@.drop_last() =~= done);
                }
            }
            assert(values.take(values.len() as int) =~= values);
            Some(JsonValue::Array(items))
        },
    }
}

/// The order of keys: by their characters, the first difference deciding, a prefix first.
pub open spec fn key_before(a: Seq<char>, b: Seq<char>) -> bool {
    exists|i: int|
        {
            &&& 0 <= i <= a.len()
            &&& i < b.len()
            &&& #[trigger] a.take(i) == b.take(i)
            &&& i == a.len() || (a[i] as int) < (b[i] as int)
        }
}

/// Every struct inside the value holds its fields in the order of their keys, no key twice.
pub open spec fn value_ordered(value: ProtoValue) -> bool
    decreases value,
{
    match value.kind {
        Some(ProtoKind::StructValue(s)) => fields_ordered(s.fields@),
        Some(ProtoKind::ListValue(l)) => items_ordered(l.values@),
        _ => true,
    }
}

/// The fields stand in the order of their keys, no key twice, and so does all inside them.
pub open spec fn fields_ordered(fields: Seq<ProtoField>) -> bool
    decreases fields,
{
    fields.len() > 0 ==> {
        let last = fields.last();
        &&& fields_ordered(fields.drop_last())
        &&& value_ordered(last.value)
        &&& forall|i: int| 0 <= i < fields.len() - 1 ==> key_before(#[trigger] fields[i].key@, last.key@)
    }
}

/// Each of the values is ordered.
pub open spec fn items_ordered(values: Seq<ProtoValue>) -> bool
    decreases values,
{
    values.len() > 0 ==> items_ordered(values.drop_last()) && value_ordered(values.last())
}

/// Every object inside the document holds its members in the order of their keys, no key twice.
pub open spec fn json_ordered(json: JsonModel) -> bool
    decreases json,
{
    match json {
        JsonModel::Object(members) => json_members_ordered(members),
        JsonModel::Array(items) => json_items_ordered(items),
        _ => true,
    }
}

/// The members stand in the order of their keys, no key twice, and so does all inside them.
pub open spec fn json_members_ordered(members: Seq<(Seq<char>, JsonModel)>) -> bool
    decreases members,
{
    members.len() > 0 ==> {
        let last = members.last();
        &&& json_members_ordered(members.drop_last())
        &&& json_ordered(last.1)
        &&& forall|i: int| 0 <= i < members.len() - 1 ==> key_before(#[trigger] members[i].0, last.0)
    }
}

/// Each of the documents is ordered.
pub open spec fn json_items_ordered(items: Seq<JsonModel>) -> bool
    decreases items,
{
    items.len() > 0 ==> json_items_ordered(items.drop_last()) && json_ordered(items.last())
}

/// Every number inside the document is finite, as JSON asks.
pub open spec fn json_finite(json: JsonModel) -> bool
    decreases json,
{
    match json {
        JsonModel::Number(n) => n.finite(),
        JsonModel::Object(members) => json_members_finite(members),
        JsonModel::Array(items) => json_items_finite(items),
        _ => true,
    }
}

/// Every number inside the members is finite.
pub open spec fn json_members_finite(members: Seq<(Seq<char>, JsonModel)>) -> bool
    decreases members,
{
    members.len() > 0 ==> json_members_finite(members.drop_last()) && json_finite(members.last().1)
}

/// Every number inside the items is finite.
pub open spec fn json_items_finite(items: Seq<JsonModel>) -> bool
    decreases items,
{
    items.len() > 0 ==> json_items_finite(items.drop_last()) && json_finite(items.last())
}

/// A member of the converted object has the key of some field.
proof fn lemma_member_keys_are_field_keys(fields: Seq<ProtoField>)
    ensures
        forall|k: int|
            0 <= k < json_of_fields(fields).len() ==> exists|i: int|
                0 <= i < fields.len() && (#[trigger] fields[i]).key@ == (
                #[trigger] json_of_fields(fields)[k]).0,
    decreases fields.len(),
{
    if fields.len() > 0 {
        let init = fields.drop_last();
        lemma_member_keys_are_field_keys(init);
        assert forall|k: int| 0 <= k < json_of_fields(fields).len() implies exists|i: int|
            0 <= i < fields.len() && (#[trigger] fields[i]).key@ == (
            #[trigger] json_of_fields(fields)[k]).0 by {
            if k < json_of_fields(init).len() {
                assert(json_of_fields(fields)[k] == json_of_fields(init)[k]);
                let i = choose|i: int|
                    0 <= i < init.len() && (#[trigger] init[i]).key@ == json_of_fields(init)[k].0;
                assert(fields[i].key@ == json_of_fields(fields)[k].0);
            } else {
                assert(fields[fields.len() - 1].key@ == json_of_fields(fields)[k].0);
            }
        }
    }
}

/// Conversion keeps every object a map: the members of an object stand in the order of their
/// keys, no key twice, if the fields they came from did.
pub proof fn law_conversion_keeps_key_order(value: ProtoValue)
    requires
        value_ordered(value),
    ensures
        json_of(value) matches Some(json) ==> json_ordered(json),
    decreases value,
{
    match value.kind {
        Some(ProtoKind::StructValue(s)) => {
            lemma_fields_keep_key_order(s.fields@);
        },
        Some(ProtoKind::ListValue(l)) => {
            lemma_items_keep_key_order(l.values@);
        },
        _ => {},
    }
}

proof fn lemma_fields_keep_key_order(fields: Seq<ProtoField>)
    requires
        fields_ordered(fields),
    ensures
        json_members_ordered(json_of_fields(fields)),
    decreases fields,
{
    if fields.len() > 0 {
        let init = fields.drop_last();
        let rest = json_of_fields(init);
        lemma_fields_keep_key_order(init);
        law_conversion_keeps_key_order(fields.last().value);
        if let Some(json) = json_of(fields.last().value) {
            let members = json_of_fields(fields);
            assert(members.drop_last() =~= rest);
            lemma_member_keys_are_field_keys(init);
            assert forall|k: int| 0 <= k < members.len() - 1 implies key_before(
                #[trigger] members[k].0,
                members.last().0,
            ) by {
                assert(members[k] == rest[k]);
                let i = choose|i: int|
                    0 <= i < init.len() && (#[trigger] init[i]).key@ == rest[k].0;
                assert(fields[i].key@ == members[k].0);
            }
        }
    }
}

proof fn lemma_items_keep_key_order(values: Seq<ProtoValue>)
    requires
        items_ordered(values),
    ensures
        json_items_ordered(json_of_items(values)),
    decreases values,
{
    if values.len() > 0 {
        lemma_items_keep_key_order(values.drop_last());
        law_conversion_keeps_key_order(values.last());
        if let Some(json) = json_of(values.last()) {
            assert(json_of_items(values).drop_last() =~= json_of_items(values.drop_last()));
        }
    }
}

/// Every number in a converted document is finite, however deep it stands.
pub proof fn law_converted_numbers_are_finite(value: ProtoValue)
    ensures
        json_of(value) matches Some(json) ==> json_finite(json),
    decreases value,
{
    match value.kind {
        Some(ProtoKind::StructValue(s)) => {
            lemma_converted_fields_are_finite(s.fields@);
        },
        Some(ProtoKind::ListValue(l)) => {
            lemma_converted_items_are_finite(l.values@);
        },
        _ => {},
    }
}

proof fn lemma_converted_fields_are_finite(fields: Seq<ProtoField>)
    ensures
        json_members_finite(json_of_fields(fields)),
    decreases fields,
{
    if fields.len() > 0 {
        lemma_converted_fields_are_finite(fields.drop_last());
        law_converted_numbers_are_finite(fields.last().value);
        if let Some(json) = json_of(fields.last().value) {
            assert(json_of_fields(fields).drop_last() =~= json_of_fields(fields.drop_last()));
        }
    }
}

proof fn lemma_converted_items_are_finite(values: Seq<ProtoValue>)
    ensures
        json_items_finite(json_of_items(values)),
    decreases values,
{
    if values.len() > 0 {
        lemma_converted_items_are_finite(values.drop_last());
        law_converted_numbers_are_finite(values.last());
        if let Some(json) = json_of(values.last()) {
            assert(json_of_items(values).drop_last() =~= json_of_items(values.drop_last()));
        }
    }
}

/// A list whose items all have a JSON form keeps every one of them in its place.
pub proof fn law_full_list_keeps_every_item(values: Seq<ProtoValue>)
    requires
        forall|i: int| 0 <= i < values.len() ==> json_of(#[trigger] values[i]) is Some,
    ensures
        json_of_items(values).len() == values.len(),
        forall|i: int|
            0 <= i < values.len() ==> json_of(#[trigger] values[i]) == Some(
                json_of_items(values)[i],
            ),
    decreases values.len(),
{
    if values.len() > 0 {
        let init = values.drop_last();
        assert forall|i: int| 0 <= i < init.len() implies json_of(#[trigger] init[i]) is Some by {
            assert(init[i] == values[i]);
        }
        law_full_list_keeps_every_item(init);
        assert(json_of(values[values.len() - 1]) is Some);
        assert forall|i: int| 0 <= i < values.len() implies json_of(#[trigger] values[i]) == Some(
            json_of_items(values)[i],
        ) by {
            if i < init.len() {
                assert(init[i] == values[i]);
            }
        }
    }
}

/// A struct whose values all have a JSON form keeps every field in its place.
pub proof fn law_full_struct_keeps_every_field(fields: Seq<ProtoField>)
    requires
        forall|i: int| 0 <= i < fields.len() ==> json_of((#[trigger] fields[i]).value) is Some,
    ensures
        json_of_fields(fields).len() == fields.len(),
        forall|i: int|
            0 <= i < fields.len() ==> {
                &&& json_of_fields(fields)[i].0 == (#[trigger] fields[i]).key@
                &&& json_of(fields[i].value) == Some(json_of_fields(fields)[i].1)
            },
    decreases fields.len(),
{
    if fields.len() > 0 {
        let init = fields.drop_last();
        assert forall|i: int| 0 <= i < init.len() implies json_of((#[trigger] init[i]).value)
            is Some by {
            assert(init[i] == fields[i]);
        }
        law_full_struct_keeps_every_field(init);
        assert(json_of(fields[fields.len() - 1].value) is Some);
        assert forall|i: int| 0 <= i < fields.len() implies {
            &&& json_of_fields(fields)[i].0 == (#[trigger] fields[i]).key@
            &&& json_of(fields[i].value) == Some(json_of_fields(fields)[i].1)
        } by {
            if i < init.len() {
                assert(init[i] == fields[i]);
            }
        }
    }
}

/// A double is finite just where its bits without the sign stand below those of infinity.
pub proof fn law_finite_doubles_stand_below_infinity(n: Double)
    ensures
        n.finite() <==> n.bits % 0x8000_0000_0000_0000 < 0x7ff0_0000_0000_0000,
{
    let b = n.bits as int;
    let q = b / 0x10_0000_0000_0000;
    let r = b % 0x10_0000_0000_0000;
    let hi = q / 0x800;
    let lo = q % 0x800;
    assert(b == q * 0x10_0000_0000_0000 + r);
    assert(q == hi * 0x800 + lo);
    assert(0 <= hi <= 1);
    assert(b == hi * 0x8000_0000_0000_0000 + lo * 0x10_0000_0000_0000 + r);
    assert(b % 0x8000_0000_0000_0000 == lo * 0x10_0000_0000_0000 + r);
}

/// Places in a list of that length, each once, in rising order.
pub open spec fn rising(places: Seq<int>, count: nat) -> bool {
    &&& forall|k: int| 0 <= k < places.len() ==> 0 <= #[trigger] places[k] < count
    &&& forall|j: int, k: int|
        0 <= j < k < places.len() ==> #[trigger] places[j] < #[trigger] places[k]
}

/// A value that holds no others is what it says: null, a text, a truth value, or a number where
/// that number is finite. A value without a kind is nothing.
pub proof fn law_plain_value_keeps_what_it_says(value: ProtoValue)
    ensures
        match value.kind {
            None => json_of(value) is None,
            Some(ProtoKind::NullValue(_)) => json_of(value) == Some(JsonModel::Null),
            Some(ProtoKind::StringValue(text)) => json_of(value) == Some(
                JsonModel::String(text@),
            ),
            Some(ProtoKind::BoolValue(truth)) => json_of(value) == Some(JsonModel::Bool(truth)),
            Some(ProtoKind::NumberValue(n)) => {
                &&& n.bits % 0x8000_0000_0000_0000 < 0x7ff0_0000_0000_0000 ==> json_of(value)
                    == Some(JsonModel::Number(n))
                &&& n.bits % 0x8000_0000_0000_0000 >= 0x7ff0_0000_0000_0000 ==> json_of(value)
                    is None
            },
            Some(ProtoKind::StructValue(_)) => json_of(value) is Some,
            Some(ProtoKind::ListValue(_)) => json_of(value) is Some,
        },
{
    if let Some(ProtoKind::NumberValue(n)) = value.kind {
        law_finite_doubles_stand_below_infinity(n);
    }
}

/// A struct is an object, whatever its fields are. The object has a member for each field whose
/// value has a JSON form, under the key of the field, in the order of the fields, and no other.
pub proof fn law_struct_is_an_object_of_its_fields(value: ProtoValue, fields: Seq<ProtoField>)
    requires
        value.kind matches Some(ProtoKind::StructValue(s)) && s.fields@ == fields,
    ensures
        json_of(value) matches Some(JsonModel::Object(members)) && {
            &&& exists|places: Seq<int>|
                {
                    &&& #[trigger] rising(places, fields.len())
                    &&& places.len() == members.len()
                    &&& forall|k: int|
                        0 <= k < places.len() ==> {
                            &&& (#[trigger] members[k]).0 == fields[places[k]].key@
                            &&& json_of(fields[places[k]].value) == Some(members[k].1)
                        }
                }
            &&& forall|i: int|
                0 <= i < fields.len() && json_of((#[trigger] fields[i]).value) is Some
                    ==> members.contains((fields[i].key@, json_of(fields[i].value)->0))
        },
{
    lemma_members_come_from_fields(fields);
}

proof fn lemma_members_come_from_fields(fields: Seq<ProtoField>)
    ensures
        exists|places: Seq<int>|
            {
                &&& #[trigger] rising(places, fields.len())
                &&& places.len() == json_of_fields(fields).len()
                &&& forall|k: int|
                    0 <= k < places.len() ==> {
                        &&& (#[trigger] json_of_fields(fields)[k]).0 == fields[places[k]].key@
                        &&& json_of(fields[places[k]].value) == Some(json_of_fields(fields)[k].1)
                    }
            },
        forall|i: int|
            0 <= i < fields.len() && json_of((#[trigger] fields[i]).value) is Some
                ==> json_of_fields(fields).contains(
                (fields[i].key@, json_of(fields[i].value)->0),
            ),
    decreases fields.len(),
{
    let all = json_of_fields(fields);
    if fields.len() == 0 {
        assert(rising(Seq::<int>::empty(), fields.len()));
    } else {
        let init = fields.drop_last();
        let last = fields.len() - 1;
        let rest = json_of_fields(init);
        lemma_members_come_from_fields(init);
        let before = choose|places: Seq<int>|
            {
                &&& #[trigger] rising(places, init.len())
                &&& places.len() == rest.len()
                &&& forall|k: int|
                    0 <= k < places.len() ==> {
                        &&& (#[trigger] rest[k]).0 == init[places[k]].key@
                        &&& json_of(init[places[k]].value) == Some(rest[k].1)
                    }
            };
        let places = if json_of(fields[last].value) is Some {
            before.push(last)
        } else {
            before
        };
        assert(rising(places, fields.len()));
        assert forall|k: int| 0 <= k < places.len() implies {
            &&& (#[trigger] all[k]).0 == fields[places[k]].key@
            &&& json_of(fields[places[k]].value) == Some(all[k].1)
        } by {
            if k < before.len() {
                assert(all[k] == rest[k]);
                assert(before[k] == places[k]);
                assert(init[places[k]] == fields[places[k]]);
            }
        }
        assert forall|i: int|
            0 <= i < fields.len() && json_of((#[trigger] fields[i]).value)
                is Some implies all.contains((fields[i].key@, json_of(fields[i].value)->0)) by {
            let member = (fields[i].key@, json_of(fields[i].value)->0);
            if i < last {
                assert(init[i] == fields[i]);
                let k = choose|k: int| 0 <= k < rest.len() && rest[k] == member;
                assert(all[k] == member);
            } else {
                assert(all[rest.len() as int] == member);
            }
        }
    }
}

/// A list is an array, whatever its items are. The array has the JSON form of each item that has
/// one, in the order of the items, and no other.
pub proof fn law_list_is_an_array_of_its_items(value: ProtoValue, values: Seq<ProtoValue>)
    requires
        value.kind matches Some(ProtoKind::ListValue(l)) && l.values@ == values,
    ensures
        json_of(value) matches Some(JsonModel::Array(items)) && exists|places: Seq<int>|
            {
                &&& #[trigger] rising(places, values.len())
                &&& places.len() == items.len()
                &&& forall|k: int|
                    0 <= k < places.len() ==> json_of(values[places[k]]) == Some(
                        #[trigger] items[k],
                    )
                &&& forall|i: int|
                    0 <= i < values.len() && json_of(#[trigger] values[i]) is Some
                        ==> places.contains(i)
            },
{
    lemma_items_come_from_values(values);
}

proof fn lemma_items_come_from_values(values: Seq<ProtoValue>)
    ensures
        exists|places: Seq<int>|
            {
                &&& #[trigger] rising(places, values.len())
                &&& places.len() == json_of_items(values).len()
                &&& forall|k: int|
                    0 <= k < places.len() ==> json_of(values[places[k]]) == Some(
                        #[trigger] json_of_items(values)[k],
                    )
                &&& forall|i: int|
                    0 <= i < values.len() && json_of(#[trigger] values[i]) is Some
                        ==> places.contains(i)
            },
    decreases values.len(),
{
    let all = json_of_items(values);
    if values.len() == 0 {
        assert(rising(Seq::<int>::empty(), values.len()));
    } else {
        let init = values.drop_last();
        let last = values.len() - 1;
        let rest = json_of_items(init);
        lemma_items_come_from_values(init);
        let before = choose|places: Seq<int>|
            {
                &&& #[trigger] rising(places, init.len())
                &&& places.len() == rest.len()
                &&& forall|k: int|
                    0 <= k < places.len() ==> json_of(init[places[k]]) == Some(#[trigger] rest[k])
                &&& forall|i: int|
                    0 <= i < init.len() && json_of(#[trigger] init[i]) is Some ==> places.contains(
                        i,
                    )
            };
        let places = if json_of(values[last]) is Some {
            before.push(last)
        } else {
            before
        };
        assert(rising(places, values.len()));
        assert forall|k: int| 0 <= k < places.len() implies json_of(values[places[k]]) == Some(
            #[trigger] all[k],
        ) by {
            if k < before.len() {
                assert(all[k] == rest[k]);
                assert(before[k] == places[k]);
                assert(init[places[k]] == values[places[k]]);
            }
        }
        assert forall|i: int|
            0 <= i < values.len() && json_of(#[trigger] values[i]) is Some implies places.contains(
            i,
        ) by {
            if i < last {
                assert(init[i] == values[i]);
                let k = choose|k: int| 0 <= k < before.len() && before[k] == i;
                assert(places[k] == i);
            } else {
                assert(places[before.len() as int] == i);
            }
        }
    }
}

/// The model of a document shows all of it: each plain value as it is, each item of an array in
/// its place, and each member of an object in its place under its key.
pub proof fn law_model_shows_the_whole_document(value: JsonValue)
    ensures
        match value {
            JsonValue::Null => json_model(value) == JsonModel::Null,
            JsonValue::Bool(truth) => json_model(value) == JsonModel::Bool(truth),
            JsonValue::Number(n) => json_model(value) == JsonModel::Number(n),
            JsonValue::String(text) => json_model(value) == JsonModel::String(text@),
            JsonValue::Array(items) => json_model(value) matches JsonModel::Array(models) && {
                &&& models.len() == items@.len()
                &&& forall|i: int|
                    0 <= i < models.len() ==> #[trigger] models[i] == json_model(items@[i])
            },
            JsonValue::Object(members) => json_model(value) matches JsonModel::Object(models) && {
                &&& models.len() == members@.len()
                &&& forall|i: int|
                    0 <= i < models.len() ==> {
                        &&& (#[trigger] models[i]).0 == members@[i].key@
                        &&& models[i].1 == json_model(members@[i].value)
                    }
            },
        },
{
    match value {
        JsonValue::Array(items) => {
            lemma_array_model_shows_every_item(items@);
        },
        JsonValue::Object(members) => {
            lemma_object_model_shows_every_member(members@);
        },
        _ => {},
    }
}

proof fn lemma_array_model_shows_every_item(items: Seq<JsonValue>)
    ensures
        json_array_model(items).len() == items.len(),
        forall|i: int|
            0 <= i < items.len() ==> #[trigger] json_array_model(items)[i] == json_model(items[i]),
    decreases items.len(),
{
    if items.len() > 0 {
        lemma_array_model_shows_every_item(items.drop_last());
    }
}

proof fn lemma_object_model_shows_every_member(members: Seq<JsonMember>)
    ensures
        json_object_model(members).len() == members.len(),
        forall|i: int|
            0 <= i < members.len() ==> #[trigger] json_object_model(members)[i] == (
                members[i].key@,
                json_model(members[i].value),
            ),
    decreases members.len(),
{
    if members.len() > 0 {
        lemma_object_model_shows_every_member(members.drop_last());
    }
}

} // verus!
