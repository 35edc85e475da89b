//! Reading values: field paths, string and JSON renderings.

use vstd::prelude::*;

use prost_reflect::DynamicMessage;

use crate::encoding::{
    base64_encode, base64_standard, json_text, json_to_string, lemma_array_view, lemma_object_view,
    json_objects_ordered, keys_ordered, lemma_obj_insert_all, lemma_obj_insert_ordered,
    members_view, obj_insert, object_insert, JsonValue, JsonView,
};
use crate::error::{ProtoDuckError, ProtoDuckErrorView};
use crate::reflect::message_model;
use crate::path::{parse_field_path, parts_view, PathPart, PathPartView};
use crate::schema::{is_list, Cardinality, FieldKind, FieldSchema, EnumValueSchema, Schema};
use crate::text::{
    bool_text, int_decimal, nat_decimal, parse_bool_spec, parse_signed, parse_unsigned,
};
use crate::text::{
    bool_chars, i64_decimal, parse_bool_chars, parse_signed_chars, parse_unsigned_chars,
    push_chars, push_str, str_to_chars, string_from_chars, u64_decimal,
};
use crate::value::{
    copy_map_key, copy_message, copy_value, map_key_eq, lemma_list_view, lemma_map_view, lemma_message_view, MapKey,
    MapKeyView, MessageValue, MessageView, ProtoValue, ValueView, value_ok,
};

verus! {

/// The kind of the values a field holds: for a map, the kind of the map's
/// value field; otherwise the field's own kind.
pub open spec fn element_kind(schema: Schema, f: FieldSchema) -> FieldKind {
    if f.is_map {
        match f.kind {
            FieldKind::Message(m) => schema.messages@[m as int].fields@[1].kind,
            k => k,
        }
    } else {
        f.kind
    }
}

/// The kind of a map field's keys (`None` for a field that is not a map).
pub open spec fn map_key_kind(schema: Schema, f: FieldSchema) -> Option<FieldKind> {
    if f.is_map {
        match f.kind {
            FieldKind::Message(m) => Some(schema.messages@[m as int].fields@[0].kind),
            _ => None,
        }
    } else {
        None
    }
}

/// The name of the first value in `values[i..]` whose number is `n`.
pub open spec fn enum_name_from(values: Seq<EnumValueSchema>, n: i32, i: int) -> Option<Seq<char>>
    decreases values.len() - i,
{
    if i < 0 || i >= values.len() {
        None
    } else if values[i].number == n {
        Some(values[i].name@)
    } else {
        enum_name_from(values, n, i + 1)
    }
}

/// The name of the value numbered `n` of enum type `e`, if it has one.
pub open spec fn enum_value_name(schema: Schema, e: usize, n: i32) -> Option<Seq<char>> {
    enum_name_from(schema.enums@[e as int].values@, n, 0)
}

/// The default value of a kind: zero, `false`, empty, the enum's default
/// number, or a message with no field set.
pub open spec fn kind_default(schema: Schema, k: FieldKind) -> ValueView {
    match k {
        FieldKind::Double | FieldKind::Float => ValueView::Float("0"@, "0.0"@),
        FieldKind::Int32 | FieldKind::Sint32 | FieldKind::Sfixed32 => ValueView::I32(0),
        FieldKind::Int64 | FieldKind::Sint64 | FieldKind::Sfixed64 => ValueView::I64(0),
        FieldKind::Uint32 | FieldKind::Fixed32 => ValueView::U32(0),
        FieldKind::Uint64 | FieldKind::Fixed64 => ValueView::U64(0),
        FieldKind::Bool => ValueView::Bool(false),
        FieldKind::String => ValueView::String(seq![]),
        FieldKind::Bytes => ValueView::Bytes(seq![]),
        FieldKind::Enum(e) => ValueView::EnumNumber(schema.enums@[e as int].default_number),
        FieldKind::Message(m) => ValueView::Message(
            MessageView {
                type_index: m,
                fields: Seq::new(schema.messages@[m as int].fields@.len(), |i: int| None),
            },
        ),
    }
}

/// The value a field has when it is not set: an empty list or map, the
/// declared default, or the default of its kind.
pub open spec fn field_default(schema: Schema, f: FieldSchema) -> ValueView {
    if is_list(f) {
        ValueView::List(seq![])
    } else if f.is_map {
        ValueView::MapEntries(seq![])
    } else {
        match f.explicit_default {
            Some(d) => d@,
            None => kind_default(schema, f.kind),
        }
    }
}

/// Whether field `j` of the message is set.
pub open spec fn field_is_set(mv: MessageView, j: int) -> bool {
    0 <= j < mv.fields.len() && mv.fields[j] is Some
}

/// The value of field `j` of the message: the value it is set to, or the
/// field's default.
pub open spec fn field_value(schema: Schema, mv: MessageView, j: int) -> ValueView {
    if field_is_set(mv, j) {
        mv.fields[j]->Some_0
    } else {
        field_default(schema, schema.messages@[mv.type_index as int].fields@[j])
    }
}

/// Enum numbers replaced by their names, within lists and map values too,
/// where the values are of enum kind `k` and the number has a name.
pub open spec fn resolve_kind(schema: Schema, v: ValueView, k: FieldKind) -> ValueView
    decreases v,
{
    match v {
        ValueView::EnumNumber(n) => match k {
            FieldKind::Enum(e) => match enum_value_name(schema, e, n) {
                Some(name) => ValueView::String(name),
                None => v,
            },
            _ => v,
        },
        ValueView::List(items) => ValueView::List(
            Seq::new(
                items.len(),
                |i: int|
                    if 0 <= i < items.len() {
                        proof {
                            assert(decreases_to!(v => items));
                        }
                        resolve_kind(schema, items[i], k)
                    } else {
                        v
                    },
            ),
        ),
        ValueView::MapEntries(e) => ValueView::MapEntries(
            Seq::new(
                e.len(),
                |i: int|
                    if 0 <= i < e.len() {
                        proof {
                            assert(decreases_to!(v => e));
                            assert(decreases_to!(e => e[i]));
                        }
                        (e[i].0, resolve_kind(schema, e[i].1, k))
                    } else {
                        (MapKeyView::Bool(false), v)
                    },
            ),
        ),
        _ => v,
    }
}

/// The name of a kind, as protobuf writes it (`enum` and `message` for the
/// named kinds).
pub open spec fn kind_name(k: FieldKind) -> Seq<char> {
    match k {
        FieldKind::Double => "double"@,
        FieldKind::Float => "float"@,
        FieldKind::Int64 => "int64"@,
        FieldKind::Uint64 => "uint64"@,
        FieldKind::Int32 => "int32"@,
        FieldKind::Fixed64 => "fixed64"@,
        FieldKind::Fixed32 => "fixed32"@,
        FieldKind::Bool => "bool"@,
        FieldKind::String => "string"@,
        FieldKind::Bytes => "bytes"@,
        FieldKind::Uint32 => "uint32"@,
        FieldKind::Sfixed32 => "sfixed32"@,
        FieldKind::Sfixed64 => "sfixed64"@,
        FieldKind::Sint32 => "sint32"@,
        FieldKind::Sint64 => "sint64"@,
        FieldKind::Enum(_) => "enum"@,
        FieldKind::Message(_) => "message"@,
    }
}

/// The text of a map key.
pub open spec fn map_key_text(k: MapKeyView) -> Seq<char> {
    match k {
        MapKeyView::Bool(b) => bool_text(b),
        MapKeyView::I32(i) => int_decimal(i as int),
        MapKeyView::I64(i) => int_decimal(i as int),
        MapKeyView::U32(u) => nat_decimal(u as nat),
        MapKeyView::U64(u) => nat_decimal(u as nat),
        MapKeyView::String(s) => s,
    }
}

/// The JSON of a value whose elements are of kind `k`: integers as numbers,
/// floats by their JSON text, strings as strings, bytes as their base64
/// text, enum numbers as the value's name when it has one (as the number
/// otherwise), messages as objects, lists as arrays and maps as objects
/// keyed by the text of their keys.
pub open spec fn value_json(schema: Schema, v: ValueView, k: FieldKind) -> JsonView
    decreases v, 0int,
{
    match v {
        ValueView::Bool(b) => JsonView::Bool(b),
        ValueView::I32(i) => JsonView::Number(int_decimal(i as int)),
        ValueView::I64(i) => JsonView::Number(int_decimal(i as int)),
        ValueView::U32(u) => JsonView::Number(nat_decimal(u as nat)),
        ValueView::U64(u) => JsonView::Number(nat_decimal(u as nat)),
        ValueView::Float(_, j) => JsonView::Number(j),
        ValueView::String(s) => JsonView::Str(s),
        ValueView::Bytes(b) => JsonView::Str(base64_standard(b)),
        ValueView::EnumNumber(n) => match k {
            FieldKind::Enum(e) => match enum_value_name(schema, e, n) {
                Some(name) => JsonView::Str(name),
                None => JsonView::Number(int_decimal(n as int)),
            },
            _ => JsonView::Number(int_decimal(n as int)),
        },
        ValueView::Message(mv) => {
            proof {
                assert(decreases_to!(v => mv));
            }
            JsonView::Object(
                message_members(
                    schema,
                    mv,
                    schema.messages@[mv.type_index as int].fields@.len() as int,
                ),
            )
        },
        ValueView::List(items) => {
            proof {
                assert(decreases_to!(v => items));
            }
            JsonView::Array(json_items(schema, items, k, items.len() as int))
        },
        ValueView::MapEntries(e) => {
            proof {
                assert(decreases_to!(v => e));
            }
            JsonView::Object(map_members(schema, e, k, e.len() as int))
        },
    }
}

/// The JSON of `items[0..n)`.
pub open spec fn json_items(schema: Schema, items: Seq<ValueView>, k: FieldKind, n: int) -> Seq<
    JsonView,
>
    decreases items, n,
{
    if n <= 0 || n > items.len() {
        seq![]
    } else {
        proof {
            assert(decreases_to!(items => items[n - 1]));
        }
        json_items(schema, items, k, n - 1).push(value_json(schema, items[n - 1], k))
    }
}

/// The members for the map entries `e[0..n)`, inserted in order.
pub open spec fn map_members(
    schema: Schema,
    e: Seq<(MapKeyView, ValueView)>,
    k: FieldKind,
    n: int,
) -> Seq<(Seq<char>, JsonView)>
    decreases e, n,
{
    if n <= 0 || n > e.len() {
        seq![]
    } else {
        proof {
            assert(decreases_to!(e => e[n - 1]));
            assert(decreases_to!(e[n - 1] => e[n - 1].1));
        }
        obj_insert(
            map_members(schema, e, k, n - 1),
            map_key_text(e[n - 1].0),
            value_json(schema, e[n - 1].1, k),
        )
    }
}

/// The members for the first `n` fields of a message: a set field with its
/// value, an unset repeated field with `[]`, an unset map with `{}`; other
/// unset fields are left out.
pub open spec fn message_members(schema: Schema, mv: MessageView, n: int) -> Seq<
    (Seq<char>, JsonView),
>
    decreases mv, n,
{
    let fields = schema.messages@[mv.type_index as int].fields@;
    if n <= 0 || n > fields.len() {
        seq![]
    } else {
        let prev = message_members(schema, mv, n - 1);
        let f = fields[n - 1];
        if field_is_set(mv, n - 1) {
            proof {
                assert(decreases_to!(mv => mv.fields));
                assert(decreases_to!(mv.fields => mv.fields[n - 1]));
                assert(decreases_to!(mv.fields[n - 1] => mv.fields[n - 1]->Some_0));
            }
            obj_insert(
                prev,
                f.name@,
                value_json(schema, mv.fields[n - 1]->Some_0, element_kind(schema, f)),
            )
        } else if is_list(f) {
            obj_insert(prev, f.name@, JsonView::Array(seq![]))
        } else if f.is_map {
            obj_insert(prev, f.name@, JsonView::Object(seq![]))
        } else {
            prev
        }
    }
}

/// The JSON object of a message.
pub open spec fn message_json(schema: Schema, mv: MessageView) -> JsonView {
    JsonView::Object(
        message_members(schema, mv, schema.messages@[mv.type_index as int].fields@.len() as int),
    )
}

/// The JSON of a value whose enum numbers are already replaced by their
/// names where they have one: the numbers left are written as numbers, as
/// a kind that is not an enum writes them.
pub open spec fn resolved_json(schema: Schema, v: ValueView) -> JsonView {
    value_json(schema, v, FieldKind::Int32)
}

/// The text of a value: booleans and integers as `to_string` writes them,
/// floats by their display text, strings as they are, bytes as base64,
/// enum numbers as numbers, and messages, lists and maps as their compact
/// JSON (a JSON object, array and object).
pub open spec fn value_text(schema: Schema, v: ValueView) -> Seq<char> {
    match v {
        ValueView::Bool(b) => bool_text(b),
        ValueView::I32(i) => int_decimal(i as int),
        ValueView::I64(i) => int_decimal(i as int),
        ValueView::U32(u) => nat_decimal(u as nat),
        ValueView::U64(u) => nat_decimal(u as nat),
        ValueView::Float(d, _) => d,
        ValueView::String(s) => s,
        ValueView::Bytes(b) => base64_standard(b),
        ValueView::EnumNumber(n) => int_decimal(n as int),
        ValueView::Message(mv) => json_text(message_json(schema, mv)),
        ValueView::List(_) | ValueView::MapEntries(_) => json_text(resolved_json(schema, v)),
    }
}

/// The index of the first field in `fields[i..]` named `name`.
pub open spec fn find_field_from(fields: Seq<FieldSchema>, name: Seq<char>, i: int) -> Option<int>
    decreases fields.len() - i,
{
    if i < 0 || i >= fields.len() {
        None
    } else if fields[i].name@ == name {
        Some(i)
    } else {
        find_field_from(fields, name, i + 1)
    }
}

/// The value of the first entry whose key is `k`.
pub open spec fn map_lookup(e: Seq<(MapKeyView, ValueView)>, k: MapKeyView, i: int) -> Option<
    ValueView,
>
    decreases e.len() - i,
{
    if i < 0 || i >= e.len() {
        None
    } else if e[i].0 == k {
        Some(e[i].1)
    } else {
        map_lookup(e, k, i + 1)
    }
}

/// The error for a map key that does not parse as the map's key kind.
pub open spec fn invalid_map_key_error(key: Seq<char>, k: FieldKind, path: Seq<char>) -> ProtoDuckErrorView {
    ProtoDuckErrorView::InvalidFieldPath(
        "Map key '"@ + key + "' cannot be parsed as "@ + kind_name(k) + " in '"@ + path + "'"@,
    )
}

/// The map key that `key` stands for in a map whose keys are of kind
/// `key_kind`: parsed as the key kind demands.
pub open spec fn parse_map_key_spec(key: Seq<char>, key_kind: Option<FieldKind>, path: Seq<char>) -> Result<
    MapKeyView,
    ProtoDuckErrorView,
> {
    match key_kind {
        None => Err(
            ProtoDuckErrorView::InvalidFieldPath(
                "Cannot resolve map key '"@ + key + "' without map key type metadata in '"@
                    + path + "'"@,
            ),
        ),
        Some(k) => match k {
            FieldKind::Bool => match parse_bool_spec(key) {
                Some(b) => Ok(MapKeyView::Bool(b)),
                None => Err(invalid_map_key_error(key, k, path)),
            },
            FieldKind::Int32 | FieldKind::Sint32 | FieldKind::Sfixed32 => match parse_signed(
                key,
                i32::MIN as int,
                i32::MAX as int,
            ) {
                Some(v) => Ok(MapKeyView::I32(v as i32)),
                None => Err(invalid_map_key_error(key, k, path)),
            },
            FieldKind::Int64 | FieldKind::Sint64 | FieldKind::Sfixed64 => match parse_signed(
                key,
                i64::MIN as int,
                i64::MAX as int,
            ) {
                Some(v) => Ok(MapKeyView::I64(v as i64)),
                None => Err(invalid_map_key_error(key, k, path)),
            },
            FieldKind::Uint32 | FieldKind::Fixed32 => match parse_unsigned(key, u32::MAX as nat) {
                Some(v) => Ok(MapKeyView::U32(v as u32)),
                None => Err(invalid_map_key_error(key, k, path)),
            },
            FieldKind::Uint64 | FieldKind::Fixed64 => match parse_unsigned(key, u64::MAX as nat) {
                Some(v) => Ok(MapKeyView::U64(v as u64)),
                None => Err(invalid_map_key_error(key, k, path)),
            },
            FieldKind::String => Ok(MapKeyView::String(key)),
            _ => Err(
                ProtoDuckErrorView::InvalidFieldPath(
                    "Unsupported map key type for '"@ + key + "' in '"@ + path + "'"@,
                ),
            ),
        },
    }
}

/// Looking up `key` in a map: the value of its entry, or `MapKeyNotFound`.
pub open spec fn map_step(
    e: Seq<(MapKeyView, ValueView)>,
    key: Seq<char>,
    key_kind: Option<FieldKind>,
    path: Seq<char>,
) -> Result<(ValueView, Option<FieldKind>), ProtoDuckErrorView> {
    match parse_map_key_spec(key, key_kind, path) {
        Err(err) => Err(err),
        Ok(mk) => match map_lookup(e, mk, 0) {
            Some(val) => Ok((val, None)),
            None => Err(ProtoDuckErrorView::MapKeyNotFound(key, path)),
        },
    }
}

/// One step along a field path from the value `v` (whose map key kind, when
/// `v` is a map, is `key_kind`); `path` is the whole path, for messages.
pub open spec fn apply_part(
    schema: Schema,
    v: ValueView,
    key_kind: Option<FieldKind>,
    part: PathPartView,
    path: Seq<char>,
) -> Result<(ValueView, Option<FieldKind>), ProtoDuckErrorView> {
    match (v, part) {
        (ValueView::Message(mv), PathPartView::Field(name)) => {
            let msg = schema.messages@[mv.type_index as int];
            match find_field_from(msg.fields@, name, 0) {
                None => Err(ProtoDuckErrorView::FieldNotFound(name, msg.full_name@)),
                Some(j) => {
                    let f = msg.fields@[j];
                    Ok(
                        (
                            resolve_kind(schema, field_value(schema, mv, j), element_kind(schema, f)),
                            map_key_kind(schema, f),
                        ),
                    )
                },
            }
        },
        (ValueView::List(items), PathPartView::Index(i)) => if i < items.len() {
            Ok((items[i as int], None))
        } else {
            Err(ProtoDuckErrorView::IndexOutOfBounds(i, path, items.len() as usize))
        },
        (ValueView::MapEntries(e), PathPartView::MapKey(key)) => map_step(e, key, key_kind, path),
        (ValueView::MapEntries(e), PathPartView::Index(i)) => map_step(
            e,
            nat_decimal(i as nat),
            key_kind,
            path,
        ),
        (ValueView::List(_), PathPartView::Field(f)) => Err(
            ProtoDuckErrorView::InvalidFieldPath(
                "Cannot access field '"@ + f + "' on a repeated value - use an index first"@,
            ),
        ),
        (_, PathPartView::Index(_)) => Err(ProtoDuckErrorView::NotARepeatedField(path)),
        (_, PathPartView::MapKey(k)) => Err(
            ProtoDuckErrorView::InvalidFieldPath(
                "Cannot access map key '"@ + k + "' on non-map value"@,
            ),
        ),
        (_, PathPartView::Field(f)) => Err(
            ProtoDuckErrorView::InvalidFieldPath(
                "Cannot access field '"@ + f + "' on non-message value"@,
            ),
        ),
    }
}

/// Following `parts` from `v`, one step after the other.
pub open spec fn navigate(
    schema: Schema,
    v: ValueView,
    key_kind: Option<FieldKind>,
    parts: Seq<PathPartView>,
    path: Seq<char>,
) -> Result<ValueView, ProtoDuckErrorView>
    decreases parts.len(),
{
    if parts.len() == 0 {
        Ok(v)
    } else {
        match apply_part(schema, v, key_kind, parts[0], path) {
            Err(e) => Err(e),
            Ok((v2, k2)) => navigate(schema, v2, k2, parts.drop_first(), path),
        }
    }
}

/// The value that `path` names in the message `mv`.
pub open spec fn navigate_spec(schema: Schema, mv: MessageView, path: Seq<char>) -> Result<
    ValueView,
    ProtoDuckErrorView,
> {
    match crate::path::parse_path(path) {
        Err(e) => Err(crate::path::path_syntax_error_view(e)),
        Ok(parts) => navigate(schema, ValueView::Message(mv), None, parts, path),
    }
}

/// The text of the value that `path` names in the message `mv`.
pub open spec fn extract_spec(schema: Schema, mv: MessageView, path: Seq<char>) -> Result<
    Seq<char>,
    ProtoDuckErrorView,
> {
    match navigate_spec(schema, mv, path) {
        Err(e) => Err(e),
        Ok(v) => Ok(value_text(schema, v)),
    }
}

} // verus!

verus! {

/// The name of a kind (see [`kind_name`]).
pub fn field_kind_name(kind: FieldKind) -> (r: &'static str)
    ensures
        r@ == kind_name(kind),
{
    match kind {
        FieldKind::Double => "double",
        FieldKind::Float => "float",
        FieldKind::Int64 => "int64",
        FieldKind::Uint64 => "uint64",
        FieldKind::Int32 => "int32",
        FieldKind::Fixed64 => "fixed64",
        FieldKind::Fixed32 => "fixed32",
        FieldKind::Bool => "bool",
        FieldKind::String => "string",
        FieldKind::Bytes => "bytes",
        FieldKind::Uint32 => "uint32",
        FieldKind::Sfixed32 => "sfixed32",
        FieldKind::Sfixed64 => "sfixed64",
        FieldKind::Sint32 => "sint32",
        FieldKind::Sint64 => "sint64",
        FieldKind::Enum(_) => "enum",
        FieldKind::Message(_) => "message",
    }
}

/// The text of a map key.
pub fn map_key_to_string(key: &MapKey) -> (r: String)
    ensures
        r@ == map_key_text(key@),
{
    match key {
        MapKey::Bool(b) => string_from_chars(bool_chars(*b).as_slice()),
        MapKey::I32(i) => string_from_chars(i64_decimal(*i as i64).as_slice()),
        MapKey::I64(i) => string_from_chars(i64_decimal(*i).as_slice()),
        MapKey::U32(u) => string_from_chars(u64_decimal(*u as u64).as_slice()),
        MapKey::U64(u) => string_from_chars(u64_decimal(*u).as_slice()),
        MapKey::String(s) => s.clone(),
    }
}

/// The kind of the values a field holds (see [`element_kind`]).
pub fn field_element_kind(schema: &Schema, field: &FieldSchema) -> (r: FieldKind)
    requires
        schema.field_ok(*field),
    ensures
        r == element_kind(*schema, *field),
{
    if field.is_map {
        match field.kind {
            FieldKind::Message(m) => schema.messages[m].fields[1].kind,
            k => k,
        }
    } else {
        field.kind
    }
}

/// The kind of a map field's keys, or `None` when the field is not a map.
pub fn map_key_field_descriptor(schema: &Schema, field: &FieldSchema) -> (r: Option<FieldKind>)
    requires
        schema.field_ok(*field),
    ensures
        r == map_key_kind(*schema, *field),
{
    if field.is_map {
        match field.kind {
            FieldKind::Message(m) => Some(schema.messages[m].fields[0].kind),
            _ => None,
        }
    } else {
        None
    }
}

/// The name of the value numbered `n` of enum type `e`, if it has one.
pub fn enum_value_name_of(schema: &Schema, e: usize, n: i32) -> (r: Option<String>)
    requires
        e < schema.enums@.len(),
    ensures
        match enum_value_name(*schema, e, n) {
            Some(name) => r matches Some(s) && s@ == name,
            None => r is None,
        },
{
    let values = &schema.enums[e].values;
    let mut i: usize = 0;
    while i < values.len()
        invariant
            i <= values@.len(),
            *values == schema.enums@[e as int].values,
            enum_value_name(*schema, e, n) == enum_name_from(values@, n, i as int),
        decreases values.len() - i,
    {
        if values[i].number == n {
            return Some(values[i].name.clone());
        }
        i = i + 1;
    }
    None
}


/// The default value of a kind (see [`kind_default`]).
pub fn kind_default_value(schema: &Schema, kind: FieldKind) -> (r: ProtoValue)
    requires
        schema.kind_ok(kind),
    ensures
        r@ == kind_default(*schema, kind),
{
    match kind {
        FieldKind::Double | FieldKind::Float => ProtoValue::Float {
            display: String::from_str("0"),
            json: String::from_str("0.0"),
        },
        FieldKind::Int32 | FieldKind::Sint32 | FieldKind::Sfixed32 => ProtoValue::I32(0),
        FieldKind::Int64 | FieldKind::Sint64 | FieldKind::Sfixed64 => ProtoValue::I64(0),
        FieldKind::Uint32 | FieldKind::Fixed32 => ProtoValue::U32(0),
        FieldKind::Uint64 | FieldKind::Fixed64 => ProtoValue::U64(0),
        FieldKind::Bool => ProtoValue::Bool(false),
        FieldKind::String => ProtoValue::String(String::new()),
        FieldKind::Bytes => {
            let b: Vec<u8> = Vec::new();
            proof {
                assert(ProtoValue::Bytes(b)@ == ValueView::Bytes(b@));
                assert(b@ =~= Seq::<u8>::empty());
            }
            ProtoValue::Bytes(b)
        },
        FieldKind::Enum(e) => ProtoValue::EnumNumber(schema.enums[e].default_number),
        FieldKind::Message(m) => {
            let n = schema.messages[m].fields.len();
            let mut fields: Vec<Option<ProtoValue>> = Vec::new();
            let mut i: usize = 0;
            while i < n
                invariant
                    i <= n,
                    fields@.len() == i,
                    forall|k: int| 0 <= k < i ==> #[trigger] fields@[k] is None,
                decreases n - i,
            {
                fields.push(None);
                i = i + 1;
            }
            let mv = MessageValue { type_index: m, fields };
            proof {
                lemma_message_view(mv);
                assert(mv@.fields =~= Seq::new(
                    schema.messages@[m as int].fields@.len(),
                    |i: int| None::<ValueView>,
                ));
            }
            ProtoValue::Message(mv)
        },
    }
}

/// The value a field has when it is not set (see [`field_default`]).
pub fn default_value(schema: &Schema, field: &FieldSchema) -> (r: ProtoValue)
    requires
        schema.field_ok(*field),
    ensures
        r@ == field_default(*schema, *field),
{
    if field.cardinality == Cardinality::Repeated && !field.is_map {
        let items: Vec<ProtoValue> = Vec::new();
        proof {
            lemma_list_view(items);
            assert(ProtoValue::List(items)@->List_0 =~= Seq::<ValueView>::empty());
        }
        ProtoValue::List(items)
    } else if field.is_map {
        let entries: Vec<(MapKey, ProtoValue)> = Vec::new();
        proof {
            lemma_map_view(entries);
            assert(ProtoValue::MapEntries(entries)@->MapEntries_0 =~= Seq::<
                (MapKeyView, ValueView),
            >::empty());
        }
        ProtoValue::MapEntries(entries)
    } else {
        match &field.explicit_default {
            Some(d) => copy_value(d),
            None => kind_default_value(schema, field.kind),
        }
    }
}

/// `v` with enum numbers of kind `k` replaced by their names (see
/// [`resolve_kind`]).
pub fn resolve_with_kind(schema: &Schema, v: &ProtoValue, kind: FieldKind) -> (r: ProtoValue)
    requires
        schema.kind_ok(kind),
    ensures
        r@ == resolve_kind(*schema, v@, kind),
    decreases v,
{
    match v {
        ProtoValue::EnumNumber(n) => match kind {
            FieldKind::Enum(e) => match enum_value_name_of(schema, e, *n) {
                Some(name) => ProtoValue::String(name),
                None => ProtoValue::EnumNumber(*n),
            },
            _ => ProtoValue::EnumNumber(*n),
        },
        ProtoValue::List(items) => {
            let mut out: Vec<ProtoValue> = Vec::new();
            let mut i: usize = 0;
            proof {
                lemma_list_view(*items);
            }
            while i < items.len()
                invariant
                    *v == ProtoValue::List(*items),
                    schema.kind_ok(kind),
                    i <= items@.len(),
                    out@.len() == i,
                    forall|k: int|
                        0 <= k < i ==> #[trigger] out@[k]@ == resolve_kind(
                            *schema,
                            items@[k]@,
                            kind,
                        ),
                decreases items.len() - i,
            {
                proof {
                    assert(decreases_to!(*v => (*v)->List_0));
                    assert(decreases_to!(*items => items@));
                    assert(decreases_to!(items@ => items@[i as int]));
                }
                let c = resolve_with_kind(schema, &items[i], kind);
                out.push(c);
                i = i + 1;
            }
            proof {
                lemma_list_view(out);
                let a = ProtoValue::List(out)@->List_0;
                let b = resolve_kind(*schema, v@, kind)->List_0;
                assert(a =~= b);
            }
            ProtoValue::List(out)
        },
        ProtoValue::MapEntries(entries) => {
            let mut out: Vec<(MapKey, ProtoValue)> = Vec::new();
            let mut i: usize = 0;
            proof {
                lemma_map_view(*entries);
            }
            while i < entries.len()
                invariant
                    *v == ProtoValue::MapEntries(*entries),
                    schema.kind_ok(kind),
                    i <= entries@.len(),
                    out@.len() == i,
                    forall|k: int|
                        0 <= k < i ==> (#[trigger] out@[k]).0@ == entries@[k].0@ && out@[k].1@
                            == resolve_kind(*schema, entries@[k].1@, kind),
                decreases entries.len() - i,
            {
                proof {
                    assert(decreases_to!(*v => (*v)->MapEntries_0));
                    assert(decreases_to!(*entries => entries@));
                    assert(decreases_to!(entries@ => entries@[i as int]));
                    assert(decreases_to!(entries@[i as int] => entries@[i as int].1));
                }
                let k = copy_map_key(&entries[i].0);
                let c = resolve_with_kind(schema, &entries[i].1, kind);
                out.push((k, c));
                i = i + 1;
            }
            proof {
                lemma_map_view(out);
                let a = ProtoValue::MapEntries(out)@->MapEntries_0;
                let b = resolve_kind(*schema, v@, kind)->MapEntries_0;
                assert(a =~= b);
            }
            ProtoValue::MapEntries(out)
        },
        _ => copy_value(v),
    }
}

/// The value of a field with enum numbers replaced by their names, in lists
/// and in map values too (for a map the values' kind decides).
pub fn resolve_enum_names(schema: &Schema, value: &ProtoValue, field: &FieldSchema) -> (r:
    ProtoValue)
    requires
        schema.wf(),
        schema.field_ok(*field),
    ensures
        r@ == resolve_kind(*schema, value@, element_kind(*schema, *field)),
{
    let k = field_element_kind(schema, field);
    proof {
        if field.is_map {
            if let FieldKind::Message(m) = field.kind {
                assert(schema.field_ok(schema.messages@[m as int].fields@[1]));
            }
        }
    }
    resolve_with_kind(schema, value, k)
}


proof fn lemma_json_items(schema: Schema, items: Seq<ValueView>, k: FieldKind, n: int)
    requires
        0 <= n <= items.len(),
    ensures
        json_items(schema, items, k, n).len() == n,
        forall|x: int|
            0 <= x < n ==> #[trigger] json_items(schema, items, k, n)[x] == value_json(
                schema,
                items[x],
                k,
            ),
    decreases n,
{
    if n > 0 {
        lemma_json_items(schema, items, k, n - 1);
    }
}

proof fn lemma_map_entry_kind_ok(schema: Schema, f: FieldSchema)
    requires
        schema.wf(),
        schema.field_ok(f),
    ensures
        schema.kind_ok(element_kind(schema, f)),
{
    if f.is_map {
        if let FieldKind::Message(m) = f.kind {
            assert(schema.field_ok(schema.messages@[m as int].fields@[1]));
        }
    }
}

/// The JSON of a value whose elements are of kind `kind` (see [`value_json`]).
pub fn value_to_json_kind(schema: &Schema, v: &ProtoValue, kind: FieldKind) -> (r: JsonValue)
    requires
        schema.wf(),
        schema.kind_ok(kind),
        value_ok(*schema, v@),
    ensures
        r@ == value_json(*schema, v@, kind),
    decreases v,
{
    match v {
        ProtoValue::Bool(b) => JsonValue::Bool(*b),
        ProtoValue::I32(i) => JsonValue::Number(string_from_chars(i64_decimal(*i as i64).as_slice())),
        ProtoValue::I64(i) => JsonValue::Number(string_from_chars(i64_decimal(*i).as_slice())),
        ProtoValue::U32(u) => JsonValue::Number(string_from_chars(u64_decimal(*u as u64).as_slice())),
        ProtoValue::U64(u) => JsonValue::Number(string_from_chars(u64_decimal(*u).as_slice())),
        ProtoValue::Float { display: _, json } => JsonValue::Number(json.clone()),
        ProtoValue::String(s) => JsonValue::Str(s.clone()),
        ProtoValue::Bytes(b) => JsonValue::Str(base64_encode(b.as_slice())),
        ProtoValue::EnumNumber(n) => {
            let named = match kind {
                FieldKind::Enum(e) => enum_value_name_of(schema, e, *n),
                _ => None,
            };
            match named {
                Some(name) => JsonValue::Str(name),
                None => JsonValue::Number(string_from_chars(i64_decimal(*n as i64).as_slice())),
            }
        },
        ProtoValue::Message(m) => {
            proof {
                assert(decreases_to!(*v => (*v)->Message_0));
                lemma_message_view(*m);
            }
            let members = message_members_exec(schema, m);
            proof {
                lemma_object_view(members);
            }
            JsonValue::Object(members)
        },
        ProtoValue::List(items) => {
            let mut out: Vec<JsonValue> = Vec::new();
            let mut i: usize = 0;
            let ghost iv = v@->List_0;
            proof {
                lemma_list_view(*items);
            }
            while i < items.len()
                invariant
                    *v == ProtoValue::List(*items),
                    schema.wf(),
                    schema.kind_ok(kind),
                    value_ok(*schema, v@),
                    iv == v@->List_0,
                    iv.len() == items@.len(),
                    forall|x: int| 0 <= x < iv.len() ==> #[trigger] iv[x] == items@[x]@,
                    i <= items@.len(),
                    out@.len() == i,
                    forall|x: int|
                        0 <= x < i ==> #[trigger] out@[x]@ == value_json(*schema, iv[x], kind),
                decreases items.len() - i,
            {
                proof {
                    assert(decreases_to!(*v => (*v)->List_0));
                    assert(decreases_to!(*items => items@));
                    assert(decreases_to!(items@ => items@[i as int]));
                    assert(value_ok(*schema, iv[i as int]));
                }
                let c = value_to_json_kind(schema, &items[i], kind);
                out.push(c);
                i = i + 1;
            }
            proof {
                lemma_array_view(out);
                lemma_json_items(*schema, iv, kind, iv.len() as int);
                assert(Seq::new(out@.len(), |x: int| out@[x]@) =~= json_items(
                    *schema,
                    iv,
                    kind,
                    iv.len() as int,
                ));
            }
            JsonValue::Array(out)
        },
        ProtoValue::MapEntries(entries) => {
            let mut members: Vec<(String, JsonValue)> = Vec::new();
            let mut i: usize = 0;
            let ghost ev = v@->MapEntries_0;
            proof {
                lemma_map_view(*entries);
                assert(members_view(members@) =~= map_members(*schema, ev, kind, 0));
            }
            while i < entries.len()
                invariant
                    *v == ProtoValue::MapEntries(*entries),
                    schema.wf(),
                    schema.kind_ok(kind),
                    value_ok(*schema, v@),
                    ev == v@->MapEntries_0,
                    ev.len() == entries@.len(),
                    forall|x: int|
                        0 <= x < ev.len() ==> #[trigger] ev[x] == (
                            entries@[x].0@,
                            entries@[x].1@,
                        ),
                    i <= entries@.len(),
                    members_view(members@) == map_members(*schema, ev, kind, i as int),
                decreases entries.len() - i,
            {
                proof {
                    assert(decreases_to!(*v => (*v)->MapEntries_0));
                    assert(decreases_to!(*entries => entries@));
                    assert(decreases_to!(entries@ => entries@[i as int]));
                    assert(decreases_to!(entries@[i as int] => entries@[i as int].1));
                    assert(value_ok(*schema, ev[i as int].1));
                }
                let key = map_key_to_string(&entries[i].0);
                let c = value_to_json_kind(schema, &entries[i].1, kind);
                object_insert(&mut members, key, c);
                i = i + 1;
            }
            proof {
                lemma_object_view(members);
            }
            JsonValue::Object(members)
        },
    }
}

/// The members of the JSON object of a message (see [`message_members`]).
fn message_members_exec(schema: &Schema, m: &MessageValue) -> (r: Vec<(String, JsonValue)>)
    requires
        schema.wf(),
        value_ok(*schema, ValueView::Message(m@)),
    ensures
        members_view(r@) == message_members(
            *schema,
            m@,
            schema.messages@[m.type_index as int].fields@.len() as int,
        ),
    decreases m,
{
    proof {
        lemma_message_view(*m);
    }
    let fields = &schema.messages[m.type_index].fields;
    let mut members: Vec<(String, JsonValue)> = Vec::new();
    let mut j: usize = 0;
    assert(members_view(members@) =~= message_members(*schema, m@, 0));
    while j < fields.len()
        invariant
            schema.wf(),
            value_ok(*schema, ValueView::Message(m@)),
            m@.type_index == m.type_index,
            m.type_index < schema.messages@.len(),
            *fields == schema.messages@[m.type_index as int].fields,
            m@.fields.len() == m.fields@.len(),
            forall|i: int|
                0 <= i < m.fields@.len() ==> #[trigger] m@.fields[i] == match m.fields@[i] {
                    Some(x) => Some(x@),
                    None => None::<ValueView>,
                },
            j <= fields@.len(),
            members_view(members@) == message_members(*schema, m@, j as int),
        decreases fields.len() - j,
    {
        let f = &fields[j];
        proof {
            assert(schema.field_ok(schema.messages@[m.type_index as int].fields@[j as int]));
            lemma_map_entry_kind_ok(*schema, *f);
        }
        let set = j < m.fields.len() && m.fields[j].is_some();
        if set {
            match &m.fields[j] {
                Some(x) => {
                    proof {
                        assert(decreases_to!(*m => m.fields));
                        assert(decreases_to!(m.fields => m.fields@));
                        assert(decreases_to!(m.fields@ => m.fields@[j as int]));
                        assert(decreases_to!(m.fields@[j as int] => *x));
                        assert(m@.fields[j as int] == Some(x@));
                        assert(value_ok(*schema, x@));
                    }
                    let k = field_element_kind(schema, f);
                    let c = value_to_json_kind(schema, x, k);
                    object_insert(&mut members, f.name.clone(), c);
                },
                None => {},
            }
        } else if f.cardinality == Cardinality::Repeated && !f.is_map {
            let empty: Vec<JsonValue> = Vec::new();
            proof {
                lemma_array_view(empty);
                assert(Seq::new(empty@.len(), |x: int| empty@[x]@) =~= Seq::<JsonView>::empty());
            }
            object_insert(&mut members, f.name.clone(), JsonValue::Array(empty));
        } else if f.is_map {
            let empty: Vec<(String, JsonValue)> = Vec::new();
            proof {
                lemma_object_view(empty);
                assert(members_view(empty@) =~= Seq::<(Seq<char>, JsonView)>::empty());
            }
            object_insert(&mut members, f.name.clone(), JsonValue::Object(empty));
        }
        j = j + 1;
    }
    members
}

/// The JSON object of a message: its set fields, `[]` for unset repeated
/// fields and `{}` for unset maps, members ordered by name.
pub fn model_to_json(schema: &Schema, message: &MessageValue) -> (r: Result<
    JsonValue,
    ProtoDuckError,
>)
    requires
        schema.wf(),
        value_ok(*schema, ValueView::Message(message@)),
    ensures
        r matches Ok(j) && j@ == message_json(*schema, message@),
{
    proof {
        lemma_message_view(*message);
    }
    let members = message_members_exec(schema, message);
    proof {
        lemma_object_view(members);
    }
    Ok(JsonValue::Object(members))
}

/// The JSON of a field's value (see [`value_json`]; the kind that decides
/// enum names is the field's element kind).
pub fn value_to_json(schema: &Schema, value: &ProtoValue, field: &FieldSchema) -> (r: Result<
    JsonValue,
    ProtoDuckError,
>)
    requires
        schema.wf(),
        schema.field_ok(*field),
        value_ok(*schema, value@),
    ensures
        r matches Ok(j) && j@ == value_json(*schema, value@, element_kind(*schema, *field)),
{
    proof {
        lemma_map_entry_kind_ok(*schema, *field);
    }
    let k = field_element_kind(schema, field);
    Ok(value_to_json_kind(schema, value, k))
}


/// Appends the text of `v` (see [`value_text`]) to `out`.
fn write_value_text(schema: &Schema, v: &ProtoValue, out: &mut Vec<char>)
    requires
        schema.wf(),
        value_ok(*schema, v@),
    ensures
        final(out)@ == old(out)@ + value_text(*schema, v@),
{
    match v {
        ProtoValue::Bool(b) => push_chars(out, bool_chars(*b).as_slice()),
        ProtoValue::I32(i) => push_chars(out, i64_decimal(*i as i64).as_slice()),
        ProtoValue::I64(i) => push_chars(out, i64_decimal(*i).as_slice()),
        ProtoValue::U32(u) => push_chars(out, u64_decimal(*u as u64).as_slice()),
        ProtoValue::U64(u) => push_chars(out, u64_decimal(*u).as_slice()),
        ProtoValue::Float { display, json: _ } => push_str(out, display.as_str()),
        ProtoValue::String(s) => push_str(out, s.as_str()),
        ProtoValue::Bytes(b) => {
            let t = base64_encode(b.as_slice());
            push_str(out, t.as_str());
        },
        ProtoValue::EnumNumber(n) => push_chars(out, i64_decimal(*n as i64).as_slice()),
        ProtoValue::Message(m) => {
            proof {
                lemma_message_view(*m);
            }
            match model_to_json(schema, m) {
                Ok(j) => {
                    let t = json_to_string(&j);
                    push_str(out, t.as_str());
                },
                Err(_) => {
                    proof {
                        assert(false);
                    }
                },
            }
        },
        ProtoValue::List(_) | ProtoValue::MapEntries(_) => {
            let j = value_to_json_kind(schema, v, FieldKind::Int32);
            let t = json_to_string(&j);
            push_str(out, t.as_str());
        },
    }
}

/// The text of a value (see [`value_text`]).
pub fn value_to_string(schema: &Schema, value: &ProtoValue) -> (r: Result<String, ProtoDuckError>)
    requires
        schema.wf(),
        value_ok(*schema, value@),
    ensures
        r matches Ok(s) && s@ == value_text(*schema, value@),
{
    let mut out: Vec<char> = Vec::new();
    write_value_text(schema, value, &mut out);
    assert(out@ =~= value_text(*schema, value@));
    Ok(string_from_chars(out.as_slice()))
}


proof fn lemma_resolve_ok(schema: Schema, v: ValueView, k: FieldKind)
    requires
        value_ok(schema, v),
    ensures
        value_ok(schema, resolve_kind(schema, v, k)),
    decreases v,
{
    match v {
        ValueView::List(items) => {
            let r = resolve_kind(schema, v, k)->List_0;
            assert forall|i: int| 0 <= i < r.len() implies value_ok(schema, #[trigger] r[i]) by {
                assert(decreases_to!(v => items));
                assert(value_ok(schema, items[i]));
                lemma_resolve_ok(schema, items[i], k);
            }
        },
        ValueView::MapEntries(e) => {
            let r = resolve_kind(schema, v, k)->MapEntries_0;
            assert forall|i: int| 0 <= i < r.len() implies value_ok(schema, #[trigger] r[i].1) by {
                assert(decreases_to!(v => e));
                assert(decreases_to!(e => e[i]));
                assert(value_ok(schema, e[i].1));
                lemma_resolve_ok(schema, e[i].1, k);
            }
        },
        _ => {},
    }
}

proof fn lemma_field_value_ok(schema: Schema, mv: MessageView, j: int)
    requires
        schema.wf(),
        value_ok(schema, ValueView::Message(mv)),
        0 <= j < schema.messages@[mv.type_index as int].fields@.len(),
    ensures
        value_ok(schema, field_value(schema, mv, j)),
{
    let f = schema.messages@[mv.type_index as int].fields@[j];
    assert(schema.field_ok(f));
    if field_is_set(mv, j) {
        assert(mv.fields[j] is Some);
    } else if !is_list(f) && !f.is_map && f.explicit_default is None {
        if let FieldKind::Message(m) = f.kind {
            let d = kind_default(schema, f.kind);
            assert(d->Message_0.fields =~= Seq::new(
                schema.messages@[m as int].fields@.len(),
                |i: int| None::<ValueView>,
            ));
        }
    }
}

proof fn lemma_map_lookup_ok(schema: Schema, e: Seq<(MapKeyView, ValueView)>, k: MapKeyView, i: int)
    requires
        forall|x: int| 0 <= x < e.len() ==> value_ok(schema, #[trigger] e[x].1),
    ensures
        map_lookup(e, k, i) matches Some(v) ==> value_ok(schema, v),
    decreases e.len() - i,
{
    if 0 <= i < e.len() && e[i].0 != k {
        lemma_map_lookup_ok(schema, e, k, i + 1);
    }
}

/// The error for a map key that does not parse as the map's key kind.
pub fn invalid_map_key(key: &str, kind: FieldKind, full_path: &str) -> (r: ProtoDuckError)
    ensures
        r@ == invalid_map_key_error(key@, kind, full_path@),
{
    ProtoDuckError::InvalidFieldPath(
        String::from_str("Map key '").concat(key).concat("' cannot be parsed as ").concat(
            field_kind_name(kind),
        ).concat(" in '").concat(full_path).concat("'"),
    )
}

/// The map key that `key` stands for in a map whose keys are of kind
/// `key_kind` (see [`parse_map_key_spec`]).
pub fn parse_map_key(key: &str, key_kind: Option<FieldKind>, full_path: &str) -> (r: Result<
    MapKey,
    ProtoDuckError,
>)
    ensures
        match parse_map_key_spec(key@, key_kind, full_path@) {
            Ok(k) => r matches Ok(mk) && mk@ == k,
            Err(e) => r matches Err(x) && x@ == e,
        },
{
    let kind = match key_kind {
        None => {
            return Err(
                ProtoDuckError::InvalidFieldPath(
                    String::from_str("Cannot resolve map key '").concat(key).concat(
                        "' without map key type metadata in '",
                    ).concat(full_path).concat("'"),
                ),
            );
        },
        Some(k) => k,
    };
    let chars = str_to_chars(key);
    match kind {
        FieldKind::Bool => match parse_bool_chars(chars.as_slice()) {
            Some(b) => Ok(MapKey::Bool(b)),
            None => Err(invalid_map_key(key, kind, full_path)),
        },
        FieldKind::Int32 | FieldKind::Sint32 | FieldKind::Sfixed32 => match parse_signed_chars(
            chars.as_slice(),
            i32::MIN as i64,
            i32::MAX as i64,
        ) {
            Some(v) => Ok(MapKey::I32(v as i32)),
            None => Err(invalid_map_key(key, kind, full_path)),
        },
        FieldKind::Int64 | FieldKind::Sint64 | FieldKind::Sfixed64 => match parse_signed_chars(
            chars.as_slice(),
            i64::MIN,
            i64::MAX,
        ) {
            Some(v) => Ok(MapKey::I64(v)),
            None => Err(invalid_map_key(key, kind, full_path)),
        },
        FieldKind::Uint32 | FieldKind::Fixed32 => match parse_unsigned_chars(
            chars.as_slice(),
            u32::MAX as u64,
        ) {
            Some(v) => Ok(MapKey::U32(v as u32)),
            None => Err(invalid_map_key(key, kind, full_path)),
        },
        FieldKind::Uint64 | FieldKind::Fixed64 => match parse_unsigned_chars(
            chars.as_slice(),
            u64::MAX,
        ) {
            Some(v) => Ok(MapKey::U64(v)),
            None => Err(invalid_map_key(key, kind, full_path)),
        },
        FieldKind::String => Ok(MapKey::String(String::from_str(key))),
        _ => Err(
            ProtoDuckError::InvalidFieldPath(
                String::from_str("Unsupported map key type for '").concat(key).concat(
                    "' in '",
                ).concat(full_path).concat("'"),
            ),
        ),
    }
}

/// A value reached along a field path, with the kind of its keys when it is
/// the value of a map field.
pub struct PathValue {
    pub value: ProtoValue,
    pub map_key_kind: Option<FieldKind>,
}

impl PathValue {
    /// A value that is not the value of a map field.
    pub fn new(value: ProtoValue) -> (r: Self)
        ensures
            r.value == value,
            r.map_key_kind is None,
    {
        PathValue { value, map_key_kind: None }
    }

    /// A value together with its map key kind.
    pub fn with_map_key(value: ProtoValue, map_key_kind: Option<FieldKind>) -> (r: Self)
        ensures
            r.value == value,
            r.map_key_kind == map_key_kind,
    {
        PathValue { value, map_key_kind }
    }
}

/// Looks `key` up in a map (see [`map_step`]).
fn map_step_exec(
    entries: &Vec<(MapKey, ProtoValue)>,
    key: &str,
    key_kind: Option<FieldKind>,
    full_path: &str,
) -> (r: Result<PathValue, ProtoDuckError>)
    ensures
        match map_step(
            ProtoValue::MapEntries(*entries)@->MapEntries_0,
            key@,
            key_kind,
            full_path@,
        ) {
            Ok((v, k)) => r matches Ok(pv) && pv.value@ == v && pv.map_key_kind == k,
            Err(e) => r matches Err(x) && x@ == e,
        },
{
    let ghost ev = ProtoValue::MapEntries(*entries)@->MapEntries_0;
    proof {
        lemma_map_view(*entries);
    }
    let mk = match parse_map_key(key, key_kind, full_path) {
        Ok(mk) => mk,
        Err(e) => {
            return Err(e);
        },
    };
    let mut i: usize = 0;
    while i < entries.len()
        invariant
            ev.len() == entries@.len(),
            forall|x: int|
                0 <= x < ev.len() ==> #[trigger] ev[x] == (entries@[x].0@, entries@[x].1@),
            i <= entries@.len(),
            map_lookup(ev, mk@, 0) == map_lookup(ev, mk@, i as int),
            parse_map_key_spec(key@, key_kind, full_path@) == Ok::<MapKeyView, ProtoDuckErrorView>(mk@),
        decreases entries.len() - i,
    {
        if map_key_eq(&entries[i].0, &mk) {
            let c = copy_value(&entries[i].1);
            proof {
                assert(ev[i as int].0 == mk@);
                assert(map_lookup(ev, mk@, i as int) == Some(ev[i as int].1));
                assert(c@ == ev[i as int].1);
                assert(map_step(ev, key@, key_kind, full_path@) == Ok::<
                    (ValueView, Option<FieldKind>),
                    ProtoDuckErrorView,
                >((c@, None)));
            }
            let pv = PathValue::new(c);
            assert(pv.value@ == c@);
            assert(ProtoValue::MapEntries(*entries)@->MapEntries_0 == ev);
            return Ok(pv);
        }
        i = i + 1;
    }
    Err(ProtoDuckError::MapKeyNotFound(String::from_str(key), String::from_str(full_path)))
}

/// One step along a field path (see [`apply_part`]).
pub fn apply_path_part(
    schema: &Schema,
    current: &PathValue,
    part: &PathPart,
    full_path: &str,
) -> (r: Result<PathValue, ProtoDuckError>)
    requires
        schema.wf(),
        value_ok(*schema, current.value@),
    ensures
        match apply_part(*schema, current.value@, current.map_key_kind, part@, full_path@) {
            Ok((v, k)) => r matches Ok(pv) && pv.value@ == v && pv.map_key_kind == k,
            Err(e) => r matches Err(x) && x@ == e,
        },
        r matches Ok(pv) ==> value_ok(*schema, pv.value@),
{
    match (&current.value, part) {
        (ProtoValue::Message(mv), PathPart::Field(name)) => {
            proof {
                lemma_message_view(*mv);
            }
            let msg = &schema.messages[mv.type_index];
            let mut j: usize = 0;
            while j < msg.fields.len() && msg.fields[j].name != *name
                invariant
                    j <= msg.fields@.len(),
                    find_field_from(msg.fields@, name@, 0) == find_field_from(
                        msg.fields@,
                        name@,
                        j as int,
                    ),
                decreases msg.fields.len() - j,
            {
                j = j + 1;
            }
            if j == msg.fields.len() {
                return Err(ProtoDuckError::FieldNotFound(name.clone(), msg.full_name.clone()));
            }
            let f = &msg.fields[j];
            proof {
                assert(schema.field_ok(schema.messages@[mv.type_index as int].fields@[j as int]));
                lemma_map_entry_kind_ok(*schema, *f);
                lemma_field_value_ok(*schema, mv@, j as int);
                lemma_resolve_ok(
                    *schema,
                    field_value(*schema, mv@, j as int),
                    element_kind(*schema, *f),
                );
            }
            let set = j < mv.fields.len() && mv.fields[j].is_some();
            let value = if set {
                match &mv.fields[j] {
                    Some(x) => resolve_enum_names(schema, x, f),
                    None => default_value(schema, f),
                }
            } else {
                let d = default_value(schema, f);
                resolve_enum_names(schema, &d, f)
            };
            let key_kind = map_key_field_descriptor(schema, f);
            Ok(PathValue::with_map_key(value, key_kind))
        },
        (ProtoValue::List(items), PathPart::Index(idx)) => {
            proof {
                lemma_list_view(*items);
            }
            if *idx >= items.len() {
                return Err(
                    ProtoDuckError::IndexOutOfBounds(
                        *idx,
                        String::from_str(full_path),
                        items.len(),
                    ),
                );
            }
            proof {
                assert(value_ok(*schema, current.value@->List_0[*idx as int]));
            }
            Ok(PathValue::new(copy_value(&items[*idx])))
        },
        (ProtoValue::MapEntries(entries), PathPart::MapKey(key)) => {
            proof {
                lemma_map_view(*entries);
                let ev = current.value@->MapEntries_0;
                assert forall|x: int| 0 <= x < ev.len() implies value_ok(*schema, #[trigger] ev[x].1) by {}
                if let Ok(mk) = parse_map_key_spec(key@, current.map_key_kind, full_path@) {
                    lemma_map_lookup_ok(*schema, ev, mk, 0);
                }
            }
            map_step_exec(entries, key.as_str(), current.map_key_kind, full_path)
        },
        (ProtoValue::MapEntries(entries), PathPart::Index(idx)) => {
            let key = string_from_chars(u64_decimal(*idx as u64).as_slice());
            proof {
                lemma_map_view(*entries);
                let ev = current.value@->MapEntries_0;
                assert forall|x: int| 0 <= x < ev.len() implies value_ok(*schema, #[trigger] ev[x].1) by {}
                if let Ok(mk) = parse_map_key_spec(key@, current.map_key_kind, full_path@) {
                    lemma_map_lookup_ok(*schema, ev, mk, 0);
                }
            }
            map_step_exec(entries, key.as_str(), current.map_key_kind, full_path)
        },
        (ProtoValue::List(_), PathPart::Field(f)) => Err(
            ProtoDuckError::InvalidFieldPath(
                String::from_str("Cannot access field '").concat(f.as_str()).concat(
                    "' on a repeated value - use an index first",
                ),
            ),
        ),
        (_, PathPart::Index(_)) => Err(
            ProtoDuckError::NotARepeatedField(String::from_str(full_path)),
        ),
        (_, PathPart::MapKey(k)) => Err(
            ProtoDuckError::InvalidFieldPath(
                String::from_str("Cannot access map key '").concat(k.as_str()).concat(
                    "' on non-map value",
                ),
            ),
        ),
        (_, PathPart::Field(f)) => Err(
            ProtoDuckError::InvalidFieldPath(
                String::from_str("Cannot access field '").concat(f.as_str()).concat(
                    "' on non-message value",
                ),
            ),
        ),
    }
}


/// The value that `path` names in `message` (see [`navigate_spec`]).
pub fn navigate_to_value(schema: &Schema, message: &MessageValue, path: &str) -> (r: Result<
    ProtoValue,
    ProtoDuckError,
>)
    requires
        schema.wf(),
        value_ok(*schema, ValueView::Message(message@)),
    ensures
        match navigate_spec(*schema, message@, path@) {
            Ok(v) => r matches Ok(x) && x@ == v,
            Err(e) => r matches Err(x) && x@ == e,
        },
        r matches Ok(x) ==> value_ok(*schema, x@),
{
    let parts = match parse_field_path(path) {
        Ok(p) => p,
        Err(e) => {
            return Err(e);
        },
    };
    let ghost pv = parts_view(parts@);
    let copy = copy_message(message);
    proof {
        lemma_message_view(copy);
        assert(pv.skip(0) =~= pv);
    }
    let mut current = PathValue::new(ProtoValue::Message(copy));
    let mut i: usize = 0;
    while i < parts.len()
        invariant
            schema.wf(),
            pv == parts_view(parts@),
            i <= parts@.len(),
            value_ok(*schema, current.value@),
            navigate_spec(*schema, message@, path@) == navigate(
                *schema,
                ValueView::Message(message@),
                None,
                pv,
                path@,
            ),
            navigate(*schema, ValueView::Message(message@), None, pv, path@) == navigate(
                *schema,
                current.value@,
                current.map_key_kind,
                pv.skip(i as int),
                path@,
            ),
        decreases parts.len() - i,
    {
        proof {
            assert(pv.skip(i as int)[0] == parts@[i as int]@);
            assert(pv.skip(i as int).drop_first() =~= pv.skip(i + 1));
        }
        match apply_path_part(schema, &current, &parts[i], path) {
            Ok(next) => {
                current = next;
            },
            Err(e) => {
                proof {
                    let rest = pv.skip(i as int);
                    assert(rest.len() > 0);
                    assert(navigate(*schema, current.value@, current.map_key_kind, rest, path@)
                        == Err::<ValueView, ProtoDuckErrorView>(e@));
                }
                return Err(e);
            },
        }
        i = i + 1;
    }
    proof {
        assert(pv.skip(parts@.len() as int) =~= Seq::<PathPartView>::empty());
    }
    Ok(current.value)
}

/// The text of the value that `path` names in `message` (see
/// [`extract_spec`]).
pub fn extract_from_model(schema: &Schema, message: &MessageValue, path: &str) -> (r: Result<
    String,
    ProtoDuckError,
>)
    requires
        schema.wf(),
        value_ok(*schema, ValueView::Message(message@)),
    ensures
        match extract_spec(*schema, message@, path@) {
            Ok(t) => r matches Ok(s) && s@ == t,
            Err(e) => r matches Err(x) && x@ == e,
        },
{
    match navigate_to_value(schema, message, path) {
        Ok(v) => value_to_string(schema, &v),
        Err(e) => Err(e),
    }
}

} // verus!

verus! {

proof fn lemma_value_json_ordered(schema: Schema, v: ValueView, k: FieldKind)
    ensures
        json_objects_ordered(value_json(schema, v, k)),
    decreases v, 0int,
{
    match v {
        ValueView::Message(mv) => {
            assert(decreases_to!(v => mv));
            let n = schema.messages@[mv.type_index as int].fields@.len() as int;
            lemma_message_members_ordered(schema, mv, n);
            let m = message_members(schema, mv, n);
            assert(value_json(schema, v, k) == JsonView::Object(m));
            assert forall|i: int| 0 <= i < m.len() implies json_objects_ordered(
                #[trigger] m[i].1,
            ) by {}
        },
        ValueView::List(items) => {
            assert(decreases_to!(v => items));
            lemma_json_items_ordered(schema, items, k, items.len() as int);
            let a = json_items(schema, items, k, items.len() as int);
            assert(value_json(schema, v, k) == JsonView::Array(a));
            assert forall|i: int| 0 <= i < a.len() implies json_objects_ordered(
                #[trigger] a[i],
            ) by {}
        },
        ValueView::MapEntries(e) => {
            assert(decreases_to!(v => e));
            lemma_map_members_ordered(schema, e, k, e.len() as int);
            let m = map_members(schema, e, k, e.len() as int);
            assert(value_json(schema, v, k) == JsonView::Object(m));
            assert forall|i: int| 0 <= i < m.len() implies json_objects_ordered(
                #[trigger] m[i].1,
            ) by {}
        },
        _ => {},
    }
}

proof fn lemma_json_items_ordered(schema: Schema, items: Seq<ValueView>, k: FieldKind, n: int)
    ensures
        forall|i: int|
            0 <= i < json_items(schema, items, k, n).len() ==> json_objects_ordered(
                #[trigger] json_items(schema, items, k, n)[i],
            ),
    decreases items, n,
{
    if 0 < n <= items.len() {
        assert(decreases_to!(items => items[n - 1]));
        lemma_json_items_ordered(schema, items, k, n - 1);
        lemma_value_json_ordered(schema, items[n - 1], k);
        let prev = json_items(schema, items, k, n - 1);
        let r = json_items(schema, items, k, n);
        assert(r == prev.push(value_json(schema, items[n - 1], k)));
        assert forall|i: int| 0 <= i < r.len() implies json_objects_ordered(#[trigger] r[i]) by {
            if i < prev.len() {
                assert(r[i] == prev[i]);
            }
        }
    }
}

proof fn lemma_map_members_ordered(
    schema: Schema,
    e: Seq<(MapKeyView, ValueView)>,
    k: FieldKind,
    n: int,
)
    ensures
        keys_ordered(map_members(schema, e, k, n)),
        forall|i: int|
            0 <= i < map_members(schema, e, k, n).len() ==> json_objects_ordered(
                (#[trigger] map_members(schema, e, k, n)[i]).1,
            ),
    decreases e, n,
{
    if 0 < n <= e.len() {
        assert(decreases_to!(e => e[n - 1]));
        assert(decreases_to!(e[n - 1] => e[n - 1].1));
        lemma_map_members_ordered(schema, e, k, n - 1);
        lemma_value_json_ordered(schema, e[n - 1].1, k);
        let prev = map_members(schema, e, k, n - 1);
        lemma_obj_insert_ordered(prev, map_key_text(e[n - 1].0), value_json(schema, e[n - 1].1, k));
        let p = |m: (Seq<char>, JsonView)| json_objects_ordered(m.1);
        assert forall|j: int| 0 <= j < prev.len() implies p(#[trigger] prev[j]) by {}
        lemma_obj_insert_all(prev, map_key_text(e[n - 1].0), value_json(schema, e[n - 1].1, k), p);
    }
}

proof fn lemma_message_members_ordered(schema: Schema, mv: MessageView, n: int)
    ensures
        keys_ordered(message_members(schema, mv, n)),
        forall|i: int|
            0 <= i < message_members(schema, mv, n).len() ==> json_objects_ordered(
                (#[trigger] message_members(schema, mv, n)[i]).1,
            ),
    decreases mv, n,
{
    let fields = schema.messages@[mv.type_index as int].fields@;
    if 0 < n <= fields.len() {
        lemma_message_members_ordered(schema, mv, n - 1);
        let prev = message_members(schema, mv, n - 1);
        let f = fields[n - 1];
        let p = |m: (Seq<char>, JsonView)| json_objects_ordered(m.1);
        assert forall|j: int| 0 <= j < prev.len() implies p(#[trigger] prev[j]) by {}
        if field_is_set(mv, n - 1) {
            assert(decreases_to!(mv => mv.fields));
            assert(decreases_to!(mv.fields => mv.fields[n - 1]));
            assert(decreases_to!(mv.fields[n - 1] => mv.fields[n - 1]->Some_0));
            let val = value_json(schema, mv.fields[n - 1]->Some_0, element_kind(schema, f));
            lemma_value_json_ordered(schema, mv.fields[n - 1]->Some_0, element_kind(schema, f));
            lemma_obj_insert_ordered(prev, f.name@, val);
            lemma_obj_insert_all(prev, f.name@, val, p);
        } else if is_list(f) {
            lemma_obj_insert_ordered(prev, f.name@, JsonView::Array(seq![]));
            lemma_obj_insert_all(prev, f.name@, JsonView::Array(seq![]), p);
        } else if f.is_map {
            lemma_obj_insert_ordered(prev, f.name@, JsonView::Object(seq![]));
            lemma_obj_insert_all(prev, f.name@, JsonView::Object(seq![]), p);
        }
    }
}

/// The JSON of a message never repeats a key: every object in it (its own
/// and those of nested messages and maps) lists its members in strictly
/// increasing key order.
pub proof fn law_message_json_keys_ordered(schema: Schema, mv: MessageView)
    ensures
        json_objects_ordered(message_json(schema, mv)),
{
    lemma_message_members_ordered(
        schema,
        mv,
        schema.messages@[mv.type_index as int].fields@.len() as int,
    );
}

/// The JSON of any value: every object in it lists its members in strictly
/// increasing key order.
pub proof fn law_value_json_keys_ordered(schema: Schema, v: ValueView, k: FieldKind)
    ensures
        json_objects_ordered(value_json(schema, v, k)),
{
    lemma_value_json_ordered(schema, v, k);
}

} // verus!

verus! {

/// Following `parts` from `v`: the value reached and its map key kind.
pub open spec fn walk(
    schema: Schema,
    v: ValueView,
    key_kind: Option<FieldKind>,
    parts: Seq<PathPartView>,
    path: Seq<char>,
) -> Result<(ValueView, Option<FieldKind>), ProtoDuckErrorView>
    decreases parts.len(),
{
    if parts.len() == 0 {
        Ok((v, key_kind))
    } else {
        match apply_part(schema, v, key_kind, parts[0], path) {
            Err(e) => Err(e),
            Ok((v2, k2)) => walk(schema, v2, k2, parts.drop_first(), path),
        }
    }
}

/// A path is followed part after part: following `p1` then `p2` reaches what
/// following `p1`, and from where it leads `p2`, reaches; an error on the
/// way through `p1` is the error of the whole.
pub proof fn law_navigate_concat(
    schema: Schema,
    v: ValueView,
    key_kind: Option<FieldKind>,
    p1: Seq<PathPartView>,
    p2: Seq<PathPartView>,
    path: Seq<char>,
)
    ensures
        navigate(schema, v, key_kind, p1 + p2, path) == match walk(schema, v, key_kind, p1, path) {
            Err(e) => Err(e),
            Ok((v2, k2)) => navigate(schema, v2, k2, p2, path),
        },
    decreases p1.len(),
{
    if p1.len() == 0 {
        assert(p1 + p2 =~= p2);
    } else {
        assert((p1 + p2)[0] == p1[0]);
        assert((p1 + p2).drop_first() =~= p1.drop_first() + p2);
        if let Ok((v2, k2)) = apply_part(schema, v, key_kind, p1[0], path) {
            law_navigate_concat(schema, v2, k2, p1.drop_first(), p2, path);
        }
    }
}

/// Reading a field by its name: for a name that is not empty and holds
/// neither `.` nor `[`, the path `name` reads the first field of the
/// message's type with that name, giving the text of its value (the default
/// when the field is unset, enum numbers replaced by their names), or
/// `FieldNotFound` with the name and the type's full name when the type has
/// no such field.
pub proof fn law_field_name_reads_field(schema: Schema, mv: MessageView, name: Seq<char>)
    requires
        name.len() > 0,
        !name.contains('.'),
        !name.contains('['),
    ensures
        extract_spec(schema, mv, name) == match find_field_from(
            schema.messages@[mv.type_index as int].fields@,
            name,
            0,
        ) {
            None => Err(
                ProtoDuckErrorView::FieldNotFound(
                    name,
                    schema.messages@[mv.type_index as int].full_name@,
                ),
            ),
            Some(j) => Ok(
                value_text(
                    schema,
                    resolve_kind(
                        schema,
                        field_value(schema, mv, j),
                        element_kind(schema, schema.messages@[mv.type_index as int].fields@[j]),
                    ),
                ),
            ),
        },
{
    let parts = seq![PathPartView::Field(name)];
    assert(crate::path::renderable(parts, '"'));
    crate::path::law_parse_rendered_path(parts, '"');
    assert(crate::path::render_path(parts, '"') =~= name) by {
        assert(parts.drop_last() =~= Seq::<PathPartView>::empty());
        assert(crate::path::render_path(Seq::<PathPartView>::empty(), '"') == Seq::<char>::empty());
        assert(crate::path::render_part(parts.last(), true, '"') == name);
    }
    assert(crate::path::parse_path(name) == Ok::<Seq<PathPartView>, crate::path::PathSyntaxError>(parts));
    assert(parts.drop_first() =~= Seq::<PathPartView>::empty());
    match apply_part(schema, ValueView::Message(mv), None, parts[0], name) {
        Err(e) => {},
        Ok((v2, k2)) => {
            assert(navigate(schema, v2, k2, Seq::<PathPartView>::empty(), name) == Ok::<ValueView, ProtoDuckErrorView>(v2));
            assert(navigate(schema, ValueView::Message(mv), None, parts, name) == Ok::<ValueView, ProtoDuckErrorView>(v2));
        },
    }
}

/// The key kind that a map key's variant stands for.
pub open spec fn key_fits_kind(mk: MapKeyView, k: FieldKind) -> bool {
    match mk {
        MapKeyView::Bool(_) => k == FieldKind::Bool,
        MapKeyView::I32(_) => k == FieldKind::Int32 || k == FieldKind::Sint32 || k
            == FieldKind::Sfixed32,
        MapKeyView::I64(_) => k == FieldKind::Int64 || k == FieldKind::Sint64 || k
            == FieldKind::Sfixed64,
        MapKeyView::U32(_) => k == FieldKind::Uint32 || k == FieldKind::Fixed32,
        MapKeyView::U64(_) => k == FieldKind::Uint64 || k == FieldKind::Fixed64,
        MapKeyView::String(_) => k == FieldKind::String,
    }
}

/// A map key's text reads back as the key: in a map whose keys are of a
/// kind that the key's variant stands for, the text that renders the key
/// (as in `m[5]`, `m[true]` or `m["k"]`) parses to that very key.
#[verifier::spinoff_prover]
#[verifier::rlimit(40)]
pub proof fn law_map_key_text_round_trip(mk: MapKeyView, k: FieldKind, path: Seq<char>)
    requires
        key_fits_kind(mk, k),
    ensures
        parse_map_key_spec(map_key_text(mk), Some(k), path) == Ok::<MapKeyView, ProtoDuckErrorView>(mk),
{
    match mk {
        MapKeyView::Bool(b) => {},
        MapKeyView::I32(i) => {
            crate::text::lemma_parse_signed_decimal(i as int, i32::MIN as int, i32::MAX as int);
        },
        MapKeyView::I64(i) => {
            crate::text::lemma_parse_signed_decimal(i as int, i64::MIN as int, i64::MAX as int);
        },
        MapKeyView::U32(u) => {
            crate::text::lemma_parse_unsigned_decimal(u as nat, u32::MAX as nat);
        },
        MapKeyView::U64(u) => {
            crate::text::lemma_parse_unsigned_decimal(u as nat, u64::MAX as nat);
        },
        MapKeyView::String(_) => {},
    }
}

/// Replacing enum numbers by their names a second time changes nothing:
/// resolving a resolved value gives it back.
pub proof fn law_resolve_idempotent(schema: Schema, v: ValueView, k: FieldKind)
    ensures
        resolve_kind(schema, resolve_kind(schema, v, k), k) == resolve_kind(schema, v, k),
    decreases v,
{
    match v {
        ValueView::List(items) => {
            let r = resolve_kind(schema, v, k);
            let items1 = r->List_0;
            let rr = resolve_kind(schema, r, k);
            assert forall|i: int| 0 <= i < items.len() implies resolve_kind(
                schema,
                #[trigger] items1[i],
                k,
            ) == items1[i] by {
                assert(decreases_to!(v => items));
                assert(items1[i] == resolve_kind(schema, items[i], k));
                law_resolve_idempotent(schema, items[i], k);
            }
            assert(rr->List_0 =~= items1);
        },
        ValueView::MapEntries(e) => {
            let r = resolve_kind(schema, v, k);
            let e1 = r->MapEntries_0;
            let rr = resolve_kind(schema, r, k);
            assert forall|i: int| 0 <= i < e.len() implies resolve_kind(
                schema,
                (#[trigger] e1[i]).1,
                k,
            ) == e1[i].1 by {
                assert(decreases_to!(v => e));
                assert(decreases_to!(e => e[i]));
                assert(e1[i].1 == resolve_kind(schema, e[i].1, k));
                law_resolve_idempotent(schema, e[i].1, k);
            }
            assert(rr->MapEntries_0 =~= e1);
        },
        _ => {},
    }
}

proof fn lemma_enum_name_first(values: Seq<EnumValueSchema>, n: i32, i: int, k: int)
    requires
        0 <= i <= k < values.len(),
        values[k].number == n,
    ensures
        exists|j: int|
            #![trigger values[j]]
            i <= j <= k && values[j].number == n && (forall|l: int|
                i <= l < j ==> values[l].number != n) && enum_name_from(values, n, i) == Some(
                values[j].name@,
            ),
    decreases k - i,
{
    if values[i].number == n {
        assert(i <= i <= k && values[i].number == n);
    } else {
        lemma_enum_name_first(values, n, i + 1, k);
        let j = choose|j: int|
            #![trigger values[j]]
            i + 1 <= j <= k && values[j].number == n && (forall|l: int|
                i + 1 <= l < j ==> values[l].number != n) && enum_name_from(values, n, i + 1)
                == Some(values[j].name@);
        assert(forall|l: int| i <= l < j ==> values[l].number != n);
    }
}

/// An enum number that the type declares is shown by name: for every value
/// declared by enum type `e`, the JSON (and so the text after names are
/// resolved) of an enum field holding that value's number is the name of
/// the first value declared with that number.
pub proof fn law_declared_enum_number_is_named(schema: Schema, e: usize, k: int)
    requires
        e < schema.enums@.len(),
        0 <= k < schema.enums@[e as int].values@.len(),
    ensures
        exists|j: int|
            #![trigger schema.enums@[e as int].values@[j]]
            0 <= j <= k && schema.enums@[e as int].values@[j].number
                == schema.enums@[e as int].values@[k].number && (forall|l: int|
                0 <= l < j ==> schema.enums@[e as int].values@[l].number
                    != schema.enums@[e as int].values@[k].number) && value_json(
                schema,
                ValueView::EnumNumber(schema.enums@[e as int].values@[k].number),
                FieldKind::Enum(e),
            ) == JsonView::Str(schema.enums@[e as int].values@[j].name@) && resolve_kind(
                schema,
                ValueView::EnumNumber(schema.enums@[e as int].values@[k].number),
                FieldKind::Enum(e),
            ) == ValueView::String(schema.enums@[e as int].values@[j].name@),
{
    let values = schema.enums@[e as int].values@;
    lemma_enum_name_first(values, values[k].number, 0, k);
}

/// An integer in brackets on a map is the key that its decimal text names:
/// `m[5]` reads what `m["5"]` reads.
pub proof fn law_map_index_is_key_text(
    schema: Schema,
    e: Seq<(MapKeyView, ValueView)>,
    key_kind: Option<FieldKind>,
    i: usize,
    path: Seq<char>,
)
    ensures
        apply_part(schema, ValueView::MapEntries(e), key_kind, PathPartView::Index(i), path)
            == apply_part(
            schema,
            ValueView::MapEntries(e),
            key_kind,
            PathPartView::MapKey(nat_decimal(i as nat)),
            path,
        ),
{
}

/// The errors that following a field path can give.
pub open spec fn is_path_error(e: ProtoDuckErrorView) -> bool {
    ||| e is FieldNotFound
    ||| e is IndexOutOfBounds
    ||| e is MapKeyNotFound
    ||| e is InvalidFieldPath
    ||| e is NotARepeatedField
}

proof fn lemma_navigate_errors(
    schema: Schema,
    v: ValueView,
    key_kind: Option<FieldKind>,
    parts: Seq<PathPartView>,
    path: Seq<char>,
)
    ensures
        navigate(schema, v, key_kind, parts, path) matches Err(e) ==> is_path_error(e),
    decreases parts.len(),
{
    if parts.len() > 0 {
        match apply_part(schema, v, key_kind, parts[0], path) {
            Err(e) => {},
            Ok((v2, k2)) => lemma_navigate_errors(schema, v2, k2, parts.drop_first(), path),
        }
    }
}

/// Every error that reading a field path gives is one of the path errors:
/// `FieldNotFound`, `IndexOutOfBounds`, `MapKeyNotFound`, `InvalidFieldPath`
/// or `NotARepeatedField`.
pub proof fn law_extract_errors_are_path_errors(schema: Schema, mv: MessageView, path: Seq<char>)
    ensures
        extract_spec(schema, mv, path) matches Err(e) ==> is_path_error(e),
{
    if let Ok(parts) = crate::path::parse_path(path) {
        lemma_navigate_errors(schema, ValueView::Message(mv), None, parts, path);
    }
}

/// Whether `r` is the outcome `expected` describes: the text, or the error.
pub open spec fn text_outcome(
    r: Result<String, ProtoDuckError>,
    expected: Result<Seq<char>, ProtoDuckErrorView>,
) -> bool {
    match expected {
        Ok(t) => r matches Ok(s) && s@ == t,
        Err(e) => r matches Err(x) && x@ == e,
    }
}

/// The JSON object of a decoded message: the message and the schema of its
/// descriptor pool are read into the library's model (which fails only with
/// `ConversionError`), and [`model_to_json`] renders it.
pub fn message_to_json(message: &DynamicMessage) -> (r: Result<JsonValue, ProtoDuckError>)
    ensures
        r matches Ok(j) ==> exists|s: Schema, mv: MessageView|
            s.wf() && value_ok(s, ValueView::Message(mv)) && j@ == #[trigger] message_json(s, mv),
        r matches Err(e) ==> e@ is ConversionError,
{
    match message_model(message) {
        Ok((schema, mv)) => {
            let r = model_to_json(&schema, &mv);
            proof {
                let j = r->Ok_0;
                assert(j@ == message_json(schema, mv@));
            }
            r
        },
        Err(e) => Err(e),
    }
}

/// The text of the value that `path` names in a decoded message. A path
/// that is not well formed is refused first, as [`parse_field_path`]
/// refuses it; otherwise the message is read into the library's model
/// (which fails only with `ConversionError`) and [`extract_from_model`]
/// follows the path.
pub fn extract_field_value(message: &DynamicMessage, path: &str) -> (r: Result<
    String,
    ProtoDuckError,
>)
    ensures
        crate::path::parse_path(path@) matches Err(pe) ==> r matches Err(e) && e@
            == crate::path::path_syntax_error_view(pe),
        r matches Err(e) ==> is_path_error(e@) || e@ is ConversionError,
        crate::path::parse_path(path@) is Ok ==> (r matches Err(e) && e@ is ConversionError)
            || exists|s: Schema, mv: MessageView|
            s.wf() && value_ok(s, ValueView::Message(mv)) && text_outcome(
                r,
                #[trigger] extract_spec(s, mv, path@),
            ),
{
    if let Err(e) = parse_field_path(path) {
        return Err(e);
    }
    match message_model(message) {
        Ok((schema, mv)) => {
            let r = extract_from_model(&schema, &mv, path);
            proof {
                assert(text_outcome(r, extract_spec(schema, mv@, path@)));
                law_extract_errors_are_path_errors(schema, mv@, path@);
            }
            r
        },
        Err(e) => Err(e),
    }
}

} // verus!
